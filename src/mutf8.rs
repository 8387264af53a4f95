//! The JVM's modified UTF-8.
use vstd::prelude::*;

verus! {

/// Why a byte sequence is not modified UTF-8.
#[derive(Debug, Clone, Copy, PartialEq, Eq)]
pub enum MUtf8Error {
    /// The input ends inside a multi-byte sequence.
    MissingByte,
    /// A leading or continuation byte does not have the required shape.
    UnknownByte,
    /// The decoded value is not a Unicode scalar value.
    InvalidChar,
}

/// Unicode scalar values: code points that are not surrogates.
pub open spec fn is_scalar(v: int) -> bool {
    (0 <= v && v <= 0xD7FF) || (0xE000 <= v && v <= 0x10FFFF)
}

pub open spec fn is_cont(b: u8) -> bool {
    b & 0xC0 == 0x80
}

/// A byte `0xED` followed by `0b1010xxxx` opens the six-byte supplementary form.
pub open spec fn opens_pair(s: Seq<u8>, i: int) -> bool {
    i + 1 < s.len() && s[i] == 0xED && s[i + 1] & 0xF0 == 0xA0
}

pub open spec fn cp_two(b1: u8, b2: u8) -> int {
    ((b2 as u32 & 0x3F) | ((b1 as u32 & 0x1F) << 6)) as int
}

pub open spec fn cp_three(b1: u8, b2: u8, b3: u8) -> int {
    ((b3 as u32 & 0x3F) | ((b2 as u32 & 0x3F) << 6) | ((b1 as u32 & 0x0F) << 12)) as int
}

pub open spec fn cp_six(b2: u8, b3: u8, b5: u8, b6: u8) -> int {
    0x10000 + ((b2 as u32 & 0x0F) << 16) as int + ((b3 as u32 & 0x3F) << 10) as int + ((
    b5 as u32 & 0x0F) << 6) as int + (b6 as u32 & 0x3F) as int
}

/// One code point produced from `v`, followed by the decoding of what starts at `next`.
pub open spec fn emit(s: Seq<u8>, v: int, next: int) -> Result<Seq<char>, MUtf8Error>
    decreases s.len() - next, 1int,
{
    if !is_scalar(v) {
        Err(MUtf8Error::InvalidChar)
    } else {
        match decode_from(s, next) {
            Ok(rest) => Ok(seq![v as char] + rest),
            Err(e) => Err(e),
        }
    }
}

/// Decoding of the bytes of `s` from index `i` on, read left to right; the first
/// fault met decides the error.
pub open spec fn decode_from(s: Seq<u8>, i: int) -> Result<Seq<char>, MUtf8Error>
    decreases s.len() - i, 0int,
{
    if i < 0 || i >= s.len() {
        Ok(seq![])
    } else {
        let b = s[i];
        if opens_pair(s, i) {
            if i + 2 >= s.len() {
                Err(MUtf8Error::MissingByte)
            } else if !is_cont(s[i + 2]) {
                Err(MUtf8Error::UnknownByte)
            } else if i + 3 >= s.len() {
                Err(MUtf8Error::MissingByte)
            } else if s[i + 3] != 0xED {
                Err(MUtf8Error::UnknownByte)
            } else if i + 4 >= s.len() {
                Err(MUtf8Error::MissingByte)
            } else if s[i + 4] & 0xF0 != 0xB0 {
                Err(MUtf8Error::UnknownByte)
            } else if i + 5 >= s.len() {
                Err(MUtf8Error::MissingByte)
            } else if !is_cont(s[i + 5]) {
                Err(MUtf8Error::UnknownByte)
            } else {
                emit(s, cp_six(s[i + 1], s[i + 2], s[i + 4], s[i + 5]), i + 6)
            }
        } else if b & 0xF0 == 0xE0 {
            if i + 1 >= s.len() {
                Err(MUtf8Error::MissingByte)
            } else if !is_cont(s[i + 1]) {
                Err(MUtf8Error::UnknownByte)
            } else if i + 2 >= s.len() {
                Err(MUtf8Error::MissingByte)
            } else if !is_cont(s[i + 2]) {
                Err(MUtf8Error::UnknownByte)
            } else {
                emit(s, cp_three(b, s[i + 1], s[i + 2]), i + 3)
            }
        } else if b & 0xE0 == 0xC0 {
            if i + 1 >= s.len() {
                Err(MUtf8Error::MissingByte)
            } else if !is_cont(s[i + 1]) {
                Err(MUtf8Error::UnknownByte)
            } else {
                emit(s, cp_two(b, s[i + 1]), i + 2)
            }
        } else if b & 0x80 == 0 {
            emit(s, b as int, i + 1)
        } else {
            Err(MUtf8Error::UnknownByte)
        }
    }
}

/// What a whole byte sequence decodes to.
pub open spec fn decode_mutf8(s: Seq<u8>) -> Result<Seq<char>, MUtf8Error> {
    decode_from(s, 0)
}

/// `prefix` followed by the outcome `r`.
pub open spec fn after(prefix: Seq<char>, r: Result<Seq<char>, MUtf8Error>) -> Result<
    Seq<char>,
    MUtf8Error,
> {
    match r {
        Ok(rest) => Ok(prefix + rest),
        Err(e) => Err(e),
    }
}

/// Relies on char::from_u32: `Some` exactly for Unicode scalar values, holding that value.
#[verifier::external_body]
fn scalar_to_char(v: u32) -> (r: Option<char>)
    ensures
        r is Some <==> is_scalar(v as int),
        r matches Some(c) ==> c as int == v as int,
{
    char::from_u32(v)
}

/// Relies on String::push: appends one character.
#[verifier::external_body]
pub(crate) fn push_char(s: &mut String, c: char)
    ensures
        final(s)@ == old(s)@.push(c),
{
    s.push(c)
}

/// Appends the character for `v`, or fails with `InvalidChar` when `v` is not a scalar value.
fn push_scalar(s: &mut String, v: u32) -> (r: Result<(), MUtf8Error>)
    ensures
        r is Ok <==> is_scalar(v as int),
        r is Ok ==> final(s)@ == old(s)@.push(v as char),
        r is Err ==> r == Err::<(), MUtf8Error>(MUtf8Error::InvalidChar),
{
    match scalar_to_char(v) {
        Some(c) => {
            push_char(s, c);
            assert(c == v as char);
            Ok(())
        },
        None => Err(MUtf8Error::InvalidChar),
    }
}

/// Decodes modified UTF-8 into a string.
pub fn to_string(bytes: &[u8]) -> (r: Result<String, MUtf8Error>)
    ensures
        match (r, decode_mutf8(bytes@)) {
            (Ok(s), Ok(cs)) => s@ == cs,
            (Err(e), Err(e2)) => e == e2,
            _ => false,
        },
{
    let mut s = String::new();
    let n = bytes.len();
    let mut i: usize = 0;
    while i < n
        invariant
            n == bytes@.len(),
            i <= n,
            decode_mutf8(bytes@) == after(s@, decode_from(bytes@, i as int)),
        decreases n - i,
    {
        let b = bytes[i];
        let ghost gs = s@;
        let ghost rest = decode_from(bytes@, i as int);
        if i + 1 < n && b == 0xED && bytes[i + 1] & 0xF0 == 0xA0 {
            let b2 = bytes[i + 1];
            if i + 2 >= n {
                return Err(MUtf8Error::MissingByte);
            }
            let b3 = bytes[i + 2];
            if b3 & 0xC0 != 0x80 {
                return Err(MUtf8Error::UnknownByte);
            }
            if i + 3 >= n {
                return Err(MUtf8Error::MissingByte);
            }
            if bytes[i + 3] != 0xED {
                return Err(MUtf8Error::UnknownByte);
            }
            if i + 4 >= n {
                return Err(MUtf8Error::MissingByte);
            }
            let b5 = bytes[i + 4];
            if b5 & 0xF0 != 0xB0 {
                return Err(MUtf8Error::UnknownByte);
            }
            if i + 5 >= n {
                return Err(MUtf8Error::MissingByte);
            }
            let b6 = bytes[i + 5];
            if b6 & 0xC0 != 0x80 {
                return Err(MUtf8Error::UnknownByte);
            }
            assert((b2 as u32 & 0x0F) << 16 <= 0xF0000) by (bit_vector);
            assert((b3 as u32 & 0x3F) << 10 <= 0xFC00) by (bit_vector);
            assert((b5 as u32 & 0x0F) << 6 <= 0x3C0) by (bit_vector);
            assert(b6 as u32 & 0x3F <= 0x3F) by (bit_vector);
            let v: u32 = 0x10000 + ((b2 as u32 & 0x0F) << 16) + ((b3 as u32 & 0x3F) << 10) + ((
            b5 as u32 & 0x0F) << 6) + (b6 as u32 & 0x3F);
            push_scalar(&mut s, v)?;
            i = i + 6;
        } else if b & 0xF0 == 0xE0 {
            if i + 1 >= n {
                return Err(MUtf8Error::MissingByte);
            }
            let b2 = bytes[i + 1];
            if b2 & 0xC0 != 0x80 {
                return Err(MUtf8Error::UnknownByte);
            }
            if i + 2 >= n {
                return Err(MUtf8Error::MissingByte);
            }
            let b3 = bytes[i + 2];
            if b3 & 0xC0 != 0x80 {
                return Err(MUtf8Error::UnknownByte);
            }
            let v: u32 = (b3 as u32 & 0x3F) | ((b2 as u32 & 0x3F) << 6) | ((b as u32 & 0x0F) << 12);
            push_scalar(&mut s, v)?;
            i = i + 3;
        } else if b & 0xE0 == 0xC0 {
            if i + 1 >= n {
                return Err(MUtf8Error::MissingByte);
            }
            let b2 = bytes[i + 1];
            if b2 & 0xC0 != 0x80 {
                return Err(MUtf8Error::UnknownByte);
            }
            let v: u32 = (b2 as u32 & 0x3F) | ((b as u32 & 0x1F) << 6);
            push_scalar(&mut s, v)?;
            i = i + 2;
        } else if b & 0x80 == 0 {
            push_scalar(&mut s, b as u32)?;
            i = i + 1;
        } else {
            return Err(MUtf8Error::UnknownByte);
        }
        assert(s@ == gs + seq![s@.last()]);
        assert(rest == after(seq![s@.last()], decode_from(bytes@, i as int)));
        assert(gs + (seq![s@.last()] + decode_from(bytes@, i as int)->Ok_0) == s@ + decode_from(bytes@, i as int)->Ok_0);
    }
    Ok(s)
}


/// Bytes 0x01..=0x7F decode one for one to the characters with the same code points.
pub proof fn lemma_ascii_round_trip(s: Seq<u8>)
    requires
        forall|i: int| 0 <= i < s.len() ==> 0x01 <= #[trigger] s[i] <= 0x7F,
    ensures
        decode_mutf8(s) == Ok::<Seq<char>, MUtf8Error>(s.map_values(|b: u8| b as char)),
{
    lemma_ascii_from(s, 0);
    assert(s.subrange(0, s.len() as int) =~= s);
}

proof fn lemma_ascii_from(s: Seq<u8>, i: int)
    requires
        0 <= i <= s.len(),
        forall|k: int| 0 <= k < s.len() ==> 0x01 <= #[trigger] s[k] <= 0x7F,
    ensures
        decode_from(s, i) == Ok::<Seq<char>, MUtf8Error>(s.subrange(i, s.len() as int).map_values(|b: u8| b as char)),
    decreases s.len() - i,
{
    if i < s.len() {
        lemma_ascii_from(s, i + 1);
        let b = s[i];
        assert(b & 0x80 == 0) by (bit_vector)
            requires
                b <= 0x7F,
        ;
        assert(b & 0xF0 != 0xE0 && b & 0xE0 != 0xC0) by (bit_vector)
            requires
                b <= 0x7F,
        ;
        assert(!opens_pair(s, i));
        assert(s.subrange(i, s.len() as int).map_values(|b: u8| b as char) =~= seq![b as char]
            + s.subrange(i + 1, s.len() as int).map_values(|b: u8| b as char));
    } else {
        assert(s.subrange(i, s.len() as int).map_values(|b: u8| b as char) =~= seq![]);
    }
}

/// Once `0xED 0b1010xxxx` has opened the six-byte form, a fourth byte other than `0xED`,
/// a fifth byte not of the form `0b1011xxxx`, or a third or sixth byte that is not a
/// continuation byte makes the input fail with `UnknownByte`.
pub proof fn lemma_broken_pair_is_unknown_byte(s: Seq<u8>)
    requires
        s.len() >= 6,
        s[0] == 0xED,
        s[1] & 0xF0 == 0xA0,
        !is_cont(s[2]) || s[3] != 0xED || s[4] & 0xF0 != 0xB0 || !is_cont(s[5]),
    ensures
        decode_mutf8(s) == Err::<Seq<char>, MUtf8Error>(MUtf8Error::UnknownByte),
{
}

} // verus!
