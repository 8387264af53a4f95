//! Big-endian integers read from a class file's bytes, and the errors of the
//! class-file reader.
use vstd::prelude::*;

verus! {

/// Why a class file could not be read.
#[derive(Debug, Clone, Copy, PartialEq, Eq)]
pub enum ClassFileError {
    InvalidMagic,
    Read,
    InvalidCPType,
    InvalidCPEntry,
    MUtf8Format,
    EndOfFile,
    MoreData,
}

/// The description of each error.
pub open spec fn message_of(e: ClassFileError) -> Seq<char> {
    match e {
        ClassFileError::InvalidMagic => "invalid magic value"@,
        ClassFileError::Read => "error reading input"@,
        ClassFileError::InvalidCPType => "invalid constant pool type"@,
        ClassFileError::InvalidCPEntry => "invalid index into constant pool"@,
        ClassFileError::MUtf8Format => "error in mutf8 format"@,
        ClassFileError::EndOfFile => "end of file"@,
        ClassFileError::MoreData => "more data after expected end of file"@,
    }
}

impl ClassFileError {
    /// A short description of the error.
    pub fn message(&self) -> (r: &'static str)
        ensures
            r@ == message_of(*self),
    {
        match self {
            ClassFileError::InvalidMagic => "invalid magic value",
            ClassFileError::Read => "error reading input",
            ClassFileError::InvalidCPType => "invalid constant pool type",
            ClassFileError::InvalidCPEntry => "invalid index into constant pool",
            ClassFileError::MUtf8Format => "error in mutf8 format",
            ClassFileError::EndOfFile => "end of file",
            ClassFileError::MoreData => "more data after expected end of file",
        }
    }
}

/// `n` bytes are present in `s` from index `p` on.
pub open spec fn present(s: Seq<u8>, p: int, n: int) -> bool {
    0 <= p && 0 <= n && p + n <= s.len()
}

/// The big-endian 16-bit value at `p`.
pub open spec fn be16(s: Seq<u8>, p: int) -> int {
    s[p] * 0x100 + s[p + 1]
}

/// The big-endian 32-bit value at `p`.
pub open spec fn be32(s: Seq<u8>, p: int) -> int {
    be16(s, p) * 0x10000 + be16(s, p + 2)
}

/// A 32-bit pattern read as a two's-complement number.
pub open spec fn signed32(v: int) -> int {
    if v >= 0x8000_0000 {
        v - 0x1_0000_0000
    } else {
        v
    }
}

/// A 64-bit pattern read as a two's-complement number.
pub open spec fn signed64(v: int) -> int {
    if v >= 0x8000_0000_0000_0000 {
        v - 0x1_0000_0000_0000_0000
    } else {
        v
    }
}

pub(crate) fn read_u8(data: &[u8], pos: &mut usize) -> (r: Result<u8, ClassFileError>)
    ensures
        present(data@, *old(pos) as int, 1) ==> r == Ok::<u8, ClassFileError>(data@[*old(pos) as int])
            && *final(pos) == *old(pos) + 1,
        !present(data@, *old(pos) as int, 1) ==> r == Err::<u8, ClassFileError>(
            ClassFileError::EndOfFile,
        ),
{
    if *pos >= data.len() {
        return Err(ClassFileError::EndOfFile);
    }
    let b = data[*pos];
    *pos = *pos + 1;
    Ok(b)
}

pub(crate) fn read_u16(data: &[u8], pos: &mut usize) -> (r: Result<u16, ClassFileError>)
    ensures
        present(data@, *old(pos) as int, 2) ==> r == Ok::<u16, ClassFileError>(
            be16(data@, *old(pos) as int) as u16,
        ) && *final(pos) == *old(pos) + 2 && r->Ok_0 as int == be16(data@, *old(pos) as int),
        !present(data@, *old(pos) as int, 2) ==> r == Err::<u16, ClassFileError>(
            ClassFileError::EndOfFile,
        ),
{
    if *pos >= data.len() || data.len() - *pos < 2 {
        return Err(ClassFileError::EndOfFile);
    }
    let v = (data[*pos] as u16) * 0x100 + data[*pos + 1] as u16;
    *pos = *pos + 2;
    Ok(v)
}

pub(crate) fn read_u32(data: &[u8], pos: &mut usize) -> (r: Result<u32, ClassFileError>)
    ensures
        present(data@, *old(pos) as int, 4) ==> r == Ok::<u32, ClassFileError>(
            be32(data@, *old(pos) as int) as u32,
        ) && *final(pos) == *old(pos) + 4 && r->Ok_0 as int == be32(data@, *old(pos) as int),
        !present(data@, *old(pos) as int, 4) ==> r == Err::<u32, ClassFileError>(
            ClassFileError::EndOfFile,
        ),
{
    if *pos >= data.len() || data.len() - *pos < 4 {
        return Err(ClassFileError::EndOfFile);
    }
    let p = *pos;
    let v = (data[p] as u32) * 0x100_0000 + (data[p + 1] as u32) * 0x1_0000 + (data[p + 2] as u32)
        * 0x100 + data[p + 3] as u32;
    *pos = p + 4;
    Ok(v)
}

} // verus!
