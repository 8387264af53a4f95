use javadec::mutf8::{to_string, MUtf8Error};

#[test]
fn ascii_round_trip() {
    let bytes: Vec<u8> = (1u8..=0x7F).collect();
    let s = to_string(&bytes).ok().unwrap();
    let expected: String = (1u8..=0x7F).map(|b| b as char).collect();
    assert_eq!(s, expected);
}

#[test]
fn two_byte_nul() {
    let s = to_string(&[0xC0, 0x80]).ok().unwrap();
    assert_eq!(s, "\u{0}");
    assert_eq!(s.chars().count(), 1);
}

#[test]
fn supplementary_pair() {
    let bytes = [0xED, 0xA0, 0xBD, 0xED, 0xB8, 0x80];
    let s = to_string(&bytes).ok().unwrap();
    assert_eq!(s, "\u{1F600}");
}

#[test]
fn supplementary_broken_fourth_byte() {
    let bytes = [0xED, 0xA0, 0xBD, 0xEC, 0xB8, 0x80];
    assert_eq!(to_string(&bytes).err(), Some(MUtf8Error::UnknownByte));
}

#[test]
fn supplementary_broken_fifth_byte() {
    let bytes = [0xED, 0xA0, 0xBD, 0xED, 0xA8, 0x80];
    assert_eq!(to_string(&bytes).err(), Some(MUtf8Error::UnknownByte));
}

#[test]
fn supplementary_broken_continuation() {
    assert_eq!(to_string(&[0xED, 0xA0, 0x3D, 0xED, 0xB8, 0x80]).err(), Some(MUtf8Error::UnknownByte));
    assert_eq!(to_string(&[0xED, 0xA0, 0xBD, 0xED, 0xB8, 0x00]).err(), Some(MUtf8Error::UnknownByte));
}

#[test]
fn supplementary_truncated() {
    assert_eq!(to_string(&[0xED, 0xA0, 0xBD, 0xED]).err(), Some(MUtf8Error::MissingByte));
}

#[test]
fn three_byte_bmp() {
    // U+20AC EURO SIGN
    assert_eq!(to_string(&[0xE2, 0x82, 0xAC]).ok().unwrap(), "\u{20AC}");
    // U+D7FF, just below the surrogates
    assert_eq!(to_string(&[0xED, 0x9F, 0xBF]).ok().unwrap(), "\u{D7FF}");
}

#[test]
fn two_byte_form() {
    assert_eq!(to_string(&[0x41, 0xC3, 0xA9]).ok().unwrap(), "A\u{E9}");
}

#[test]
fn lone_low_surrogate_is_invalid_char() {
    assert_eq!(to_string(&[0xED, 0xB0, 0x80]).err(), Some(MUtf8Error::InvalidChar));
}

#[test]
fn bad_leading_byte() {
    assert_eq!(to_string(&[0x80]).err(), Some(MUtf8Error::UnknownByte));
    assert_eq!(to_string(&[0xF8, 0x80]).err(), Some(MUtf8Error::UnknownByte));
}

#[test]
fn bad_continuation_byte() {
    assert_eq!(to_string(&[0xC3, 0x29]).err(), Some(MUtf8Error::UnknownByte));
}

#[test]
fn truncated_sequence() {
    assert_eq!(to_string(&[0xC3]).err(), Some(MUtf8Error::MissingByte));
    assert_eq!(to_string(&[0xE2, 0x82]).err(), Some(MUtf8Error::MissingByte));
}

#[test]
fn empty_input() {
    assert_eq!(to_string(&[]).ok().unwrap(), "");
}
