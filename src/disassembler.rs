//! Decoding of JVM bytecode into instructions with absolute branch targets.
use vstd::prelude::*;
use crate::bytes::{present, be16, be32, signed32};
use crate::constant_pool::to_i32;
use vstd::arithmetic::div_mod::{lemma_add_mod_noop, lemma_mod_add_multiples_vanish};
use crate::decompiler::DecompilerError;

verus! {

/// The element type that `newarray` creates.
#[derive(Debug, Clone, Copy, PartialEq, Eq)]
pub enum ArrayType {
    Boolean,
    Char,
    Float,
    Double,
    Byte,
    Short,
    Int,
    Long,
}

/// One decoded instruction. Branch targets are absolute positions in the code array;
/// floating-point constants are given by their IEEE-754 bits.
#[derive(Debug, Clone, PartialEq, Eq)]
pub enum Instruction {
    SALoad,
    TableSwitch { default: u32, low: i32, high: i32, offsets: Vec<u32> },
    Swap,
    SAStore,
    SIPush { value: i16 },
    NewArray { array_type: ArrayType },
    Pop2,
    IConst { value: i32 },
    FConst { bits: u32 },
    DConst { bits: u64 },
    LConst { value: i64 },
    IAdd,
    FAdd,
    InvokeSpecial { index: u16 },
    InvokeStatic { index: u16 },
    InvokeVirtual { index: u16 },
    InvokeInterface { index: u16 },
    PutField { index: u16 },
    GetField { index: u16 },
    PutStatic { index: u16 },
    Return,
    Dup,
    DupX1,
    DupX2,
    Dup2,
    Dup2X1,
    Dup2X2,
    Pop,
    DAdd,
    DDiv,
    D2i,
    D2f,
    D2l,
    AReturn,
    CheckCast { index: u16 },
    F2i,
    AConstNull,
    BIPush { value: i8 },
    LoadConst { index: u16 },
    DCmpL,
    DCmpG,
    ArrayLength,
    AThrow,
    DALoad,
    CALoad,
    BALoad,
    AALoad,
    FALoad,
    DAStore,
    CAStore,
    BAStore,
    AAStore,
    FAStore,
    ANewArray { index: u16 },
    DMul,
    DNeg,
    DRem,
    DReturn,
    FSub,
    FMul,
    FNeg,
    FRem,
    FReturn,
    FCmpL,
    FCmpG,
    DSub,
    FDiv,
    F2l,
    F2d,
    GetStatic { index: u16 },
    I2l,
    I2d,
    I2s,
    I2c,
    I2b,
    I2f,
    IALoad,
    IAStore,
    IMul,
    IDiv,
    IAnd,
    INeg,
    InstanceOf { index: u16 },
    InvokeDynamic { index: u16 },
    L2i,
    L2d,
    L2f,
    LALoad,
    LAStore,
    LAdd,
    LAnd,
    LOr,
    LXOr,
    LSub,
    LMul,
    LDiv,
    ISub,
    IRem,
    LNeg,
    IShL,
    IShR,
    IUShR,
    IOr,
    IXOr,
    LCmp,
    IReturn,
    LReturn,
    LRem,
    LShL,
    LShR,
    LUShR,
    LookupSwitch { default: u32, pairs: Vec<(i32, u32)> },
    Nop,
    MonitorEnter,
    MonitorExit,
    MultiANewArray { index: u16, dimensions: u8 },
    New { index: u16 },
    Ret { index: u16 },
    AStore { index: u16 },
    LStore { index: u16 },
    IStore { index: u16 },
    DStore { index: u16 },
    FStore { index: u16 },
    FLoad { index: u16 },
    ILoad { index: u16 },
    ALoad { index: u16 },
    DLoad { index: u16 },
    LLoad { index: u16 },
    IInc { index: u16, value: i16 },
    IfACmpEq { branch: u16 },
    IfACmpNe { branch: u16 },
    IfICmpEq { branch: u16 },
    IfICmpNe { branch: u16 },
    IfICmpLt { branch: u16 },
    IfICmpGe { branch: u16 },
    IfICmpGt { branch: u16 },
    IfICmpLe { branch: u16 },
    IfNull { branch: u16 },
    IfNonNull { branch: u16 },
    IfEq { branch: u16 },
    IfNe { branch: u16 },
    IfLt { branch: u16 },
    IfGe { branch: u16 },
    IfGt { branch: u16 },
    IfLe { branch: u16 },
    Goto { branch: u16 },
    JSr { branch: u16 },
    GotoW { branch: u32 },
    JSrW { branch: u32 },
}

/// What decoding gives: an instruction, or a switch with its tables as sequences.
pub enum Decoded {
    Plain(Instruction),
    Table { default: u32, low: i32, high: i32, offsets: Seq<u32> },
    Lookup { default: u32, pairs: Seq<(i32, u32)> },
}

/// `i` is the instruction that `d` describes.
pub open spec fn instr_matches(i: Instruction, d: Decoded) -> bool {
    match d {
        Decoded::Plain(x) => i == x,
        Decoded::Table { default, low, high, offsets } => match i {
            Instruction::TableSwitch { default: d2, low: l2, high: h2, offsets: o2 } => d2
                == default && l2 == low && h2 == high && o2@ == offsets,
            _ => false,
        },
        Decoded::Lookup { default, pairs } => match i {
            Instruction::LookupSwitch { default: d2, pairs: pr } => d2 == default && pr@ == pairs,
            _ => false,
        },
    }
}

pub open spec fn signed8(v: int) -> int {
    if v >= 0x80 {
        v - 0x100
    } else {
        v
    }
}

pub open spec fn signed16(v: int) -> int {
    if v >= 0x8000 {
        v - 0x1_0000
    } else {
        v
    }
}

/// The absolute target of a 16-bit relative branch at `pc`, as a 16-bit position.
pub open spec fn target16(pc: int, raw: int) -> u16 {
    ((pc + signed16(raw)) % 0x1_0000) as u16
}

/// The absolute target of a 32-bit relative branch at `pc`, as a 32-bit position.
pub open spec fn target32(pc: int, raw: int) -> u32 {
    ((pc + signed32(raw)) % 0x1_0000_0000) as u32
}

/// The instruction of an opcode that takes no operand bytes.
pub open spec fn plain(op: u8) -> Option<Instruction> {
    if 0x02 <= op <= 0x08 {
        Some(Instruction::IConst { value: (op - 3) as i32 })
    } else if op == 0x09 || op == 0x0a {
        Some(Instruction::LConst { value: (op - 9) as i64 })
    } else if op == 0x0b {
        Some(Instruction::FConst { bits: 0 })
    } else if op == 0x0c {
        Some(Instruction::FConst { bits: 0x3F80_0000 })
    } else if op == 0x0d {
        Some(Instruction::FConst { bits: 0x4000_0000 })
    } else if op == 0x0e {
        Some(Instruction::DConst { bits: 0 })
    } else if op == 0x0f {
        Some(Instruction::DConst { bits: 0x3FF0_0000_0000_0000 })
    } else if 0x1a <= op <= 0x1d {
        Some(Instruction::ILoad { index: (op - 0x1a) as u16 })
    } else if 0x1e <= op <= 0x21 {
        Some(Instruction::LLoad { index: (op - 0x1e) as u16 })
    } else if 0x22 <= op <= 0x25 {
        Some(Instruction::FLoad { index: (op - 0x22) as u16 })
    } else if 0x26 <= op <= 0x29 {
        Some(Instruction::DLoad { index: (op - 0x26) as u16 })
    } else if 0x2a <= op <= 0x2d {
        Some(Instruction::ALoad { index: (op - 0x2a) as u16 })
    } else if 0x3b <= op <= 0x3e {
        Some(Instruction::IStore { index: (op - 0x3b) as u16 })
    } else if 0x3f <= op <= 0x42 {
        Some(Instruction::LStore { index: (op - 0x3f) as u16 })
    } else if 0x43 <= op <= 0x46 {
        Some(Instruction::FStore { index: (op - 0x43) as u16 })
    } else if 0x47 <= op <= 0x4a {
        Some(Instruction::DStore { index: (op - 0x47) as u16 })
    } else if 0x4b <= op <= 0x4e {
        Some(Instruction::AStore { index: (op - 0x4b) as u16 })
    } else {
        plain_named(op)
    }
}

pub open spec fn plain_named(op: u8) -> Option<Instruction> {
    match op {
        0x00 => Some(Instruction::Nop),
        0x01 => Some(Instruction::AConstNull),
        0x2e => Some(Instruction::IALoad),
        0x2f => Some(Instruction::LALoad),
        0x30 => Some(Instruction::FALoad),
        0x31 => Some(Instruction::DALoad),
        0x32 => Some(Instruction::AALoad),
        0x33 => Some(Instruction::BALoad),
        0x34 => Some(Instruction::CALoad),
        0x35 => Some(Instruction::SALoad),
        0x4f => Some(Instruction::IAStore),
        0x50 => Some(Instruction::LAStore),
        0x51 => Some(Instruction::FAStore),
        0x52 => Some(Instruction::DAStore),
        0x53 => Some(Instruction::AAStore),
        0x54 => Some(Instruction::BAStore),
        0x55 => Some(Instruction::CAStore),
        0x56 => Some(Instruction::SAStore),
        0x57 => Some(Instruction::Pop),
        0x58 => Some(Instruction::Pop2),
        0x59 => Some(Instruction::Dup),
        0x5a => Some(Instruction::DupX1),
        0x5b => Some(Instruction::DupX2),
        0x5c => Some(Instruction::Dup2),
        0x5d => Some(Instruction::Dup2X1),
        0x5e => Some(Instruction::Dup2X2),
        0x5f => Some(Instruction::Swap),
        0x60 => Some(Instruction::IAdd),
        0x61 => Some(Instruction::LAdd),
        0x62 => Some(Instruction::FAdd),
        0x63 => Some(Instruction::DAdd),
        0x64 => Some(Instruction::ISub),
        0x65 => Some(Instruction::LSub),
        0x66 => Some(Instruction::FSub),
        0x67 => Some(Instruction::DSub),
        0x68 => Some(Instruction::IMul),
        0x69 => Some(Instruction::LMul),
        0x6a => Some(Instruction::FMul),
        0x6b => Some(Instruction::DMul),
        0x6c => Some(Instruction::IDiv),
        0x6d => Some(Instruction::LDiv),
        0x6e => Some(Instruction::FDiv),
        0x6f => Some(Instruction::DDiv),
        0x70 => Some(Instruction::IRem),
        0x71 => Some(Instruction::LRem),
        0x72 => Some(Instruction::FRem),
        0x73 => Some(Instruction::DRem),
        0x74 => Some(Instruction::INeg),
        0x75 => Some(Instruction::LNeg),
        0x76 => Some(Instruction::FNeg),
        0x77 => Some(Instruction::DNeg),
        0x78 => Some(Instruction::IShL),
        0x79 => Some(Instruction::LShL),
        0x7a => Some(Instruction::IShR),
        0x7b => Some(Instruction::LShR),
        0x7c => Some(Instruction::IUShR),
        0x7d => Some(Instruction::LUShR),
        0x7e => Some(Instruction::IAnd),
        0x7f => Some(Instruction::LAnd),
        0x80 => Some(Instruction::IOr),
        0x81 => Some(Instruction::LOr),
        0x82 => Some(Instruction::IXOr),
        0x83 => Some(Instruction::LXOr),
        0x85 => Some(Instruction::I2l),
        0x86 => Some(Instruction::I2f),
        0x87 => Some(Instruction::I2d),
        0x88 => Some(Instruction::L2i),
        0x89 => Some(Instruction::L2f),
        0x8a => Some(Instruction::L2d),
        0x8b => Some(Instruction::F2i),
        0x8c => Some(Instruction::F2l),
        0x8d => Some(Instruction::F2d),
        0x8e => Some(Instruction::D2i),
        0x8f => Some(Instruction::D2l),
        0x90 => Some(Instruction::D2f),
        0x91 => Some(Instruction::I2b),
        0x92 => Some(Instruction::I2c),
        0x93 => Some(Instruction::I2s),
        0x94 => Some(Instruction::LCmp),
        0x95 => Some(Instruction::FCmpL),
        0x96 => Some(Instruction::FCmpG),
        0x97 => Some(Instruction::DCmpL),
        0x98 => Some(Instruction::DCmpG),
        0xac => Some(Instruction::IReturn),
        0xad => Some(Instruction::LReturn),
        0xae => Some(Instruction::FReturn),
        0xaf => Some(Instruction::DReturn),
        0xb0 => Some(Instruction::AReturn),
        0xb1 => Some(Instruction::Return),
        0xbe => Some(Instruction::ArrayLength),
        0xbf => Some(Instruction::AThrow),
        0xc2 => Some(Instruction::MonitorEnter),
        0xc3 => Some(Instruction::MonitorExit),
        _ => None,
    }
}

fn plain_named_instr(op: u8) -> (r: Option<Instruction>)
    ensures
        r == plain_named(op),
{
    match op {
        0x00 => Some(Instruction::Nop),
        0x01 => Some(Instruction::AConstNull),
        0x2e => Some(Instruction::IALoad),
        0x2f => Some(Instruction::LALoad),
        0x30 => Some(Instruction::FALoad),
        0x31 => Some(Instruction::DALoad),
        0x32 => Some(Instruction::AALoad),
        0x33 => Some(Instruction::BALoad),
        0x34 => Some(Instruction::CALoad),
        0x35 => Some(Instruction::SALoad),
        0x4f => Some(Instruction::IAStore),
        0x50 => Some(Instruction::LAStore),
        0x51 => Some(Instruction::FAStore),
        0x52 => Some(Instruction::DAStore),
        0x53 => Some(Instruction::AAStore),
        0x54 => Some(Instruction::BAStore),
        0x55 => Some(Instruction::CAStore),
        0x56 => Some(Instruction::SAStore),
        0x57 => Some(Instruction::Pop),
        0x58 => Some(Instruction::Pop2),
        0x59 => Some(Instruction::Dup),
        0x5a => Some(Instruction::DupX1),
        0x5b => Some(Instruction::DupX2),
        0x5c => Some(Instruction::Dup2),
        0x5d => Some(Instruction::Dup2X1),
        0x5e => Some(Instruction::Dup2X2),
        0x5f => Some(Instruction::Swap),
        0x60 => Some(Instruction::IAdd),
        0x61 => Some(Instruction::LAdd),
        0x62 => Some(Instruction::FAdd),
        0x63 => Some(Instruction::DAdd),
        0x64 => Some(Instruction::ISub),
        0x65 => Some(Instruction::LSub),
        0x66 => Some(Instruction::FSub),
        0x67 => Some(Instruction::DSub),
        0x68 => Some(Instruction::IMul),
        0x69 => Some(Instruction::LMul),
        0x6a => Some(Instruction::FMul),
        0x6b => Some(Instruction::DMul),
        0x6c => Some(Instruction::IDiv),
        0x6d => Some(Instruction::LDiv),
        0x6e => Some(Instruction::FDiv),
        0x6f => Some(Instruction::DDiv),
        0x70 => Some(Instruction::IRem),
        0x71 => Some(Instruction::LRem),
        0x72 => Some(Instruction::FRem),
        0x73 => Some(Instruction::DRem),
        0x74 => Some(Instruction::INeg),
        0x75 => Some(Instruction::LNeg),
        0x76 => Some(Instruction::FNeg),
        0x77 => Some(Instruction::DNeg),
        0x78 => Some(Instruction::IShL),
        0x79 => Some(Instruction::LShL),
        0x7a => Some(Instruction::IShR),
        0x7b => Some(Instruction::LShR),
        0x7c => Some(Instruction::IUShR),
        0x7d => Some(Instruction::LUShR),
        0x7e => Some(Instruction::IAnd),
        0x7f => Some(Instruction::LAnd),
        0x80 => Some(Instruction::IOr),
        0x81 => Some(Instruction::LOr),
        0x82 => Some(Instruction::IXOr),
        0x83 => Some(Instruction::LXOr),
        0x85 => Some(Instruction::I2l),
        0x86 => Some(Instruction::I2f),
        0x87 => Some(Instruction::I2d),
        0x88 => Some(Instruction::L2i),
        0x89 => Some(Instruction::L2f),
        0x8a => Some(Instruction::L2d),
        0x8b => Some(Instruction::F2i),
        0x8c => Some(Instruction::F2l),
        0x8d => Some(Instruction::F2d),
        0x8e => Some(Instruction::D2i),
        0x8f => Some(Instruction::D2l),
        0x90 => Some(Instruction::D2f),
        0x91 => Some(Instruction::I2b),
        0x92 => Some(Instruction::I2c),
        0x93 => Some(Instruction::I2s),
        0x94 => Some(Instruction::LCmp),
        0x95 => Some(Instruction::FCmpL),
        0x96 => Some(Instruction::FCmpG),
        0x97 => Some(Instruction::DCmpL),
        0x98 => Some(Instruction::DCmpG),
        0xac => Some(Instruction::IReturn),
        0xad => Some(Instruction::LReturn),
        0xae => Some(Instruction::FReturn),
        0xaf => Some(Instruction::DReturn),
        0xb0 => Some(Instruction::AReturn),
        0xb1 => Some(Instruction::Return),
        0xbe => Some(Instruction::ArrayLength),
        0xbf => Some(Instruction::AThrow),
        0xc2 => Some(Instruction::MonitorEnter),
        0xc3 => Some(Instruction::MonitorExit),
        _ => None,
    }
}

fn plain_instr(op: u8) -> (r: Option<Instruction>)
    ensures
        r == plain(op),
{
    if 0x02 <= op && op <= 0x08 {
        Some(Instruction::IConst { value: op as i32 - 3 })
    } else if op == 0x09 || op == 0x0a {
        Some(Instruction::LConst { value: op as i64 - 9 })
    } else if op == 0x0b {
        Some(Instruction::FConst { bits: 0 })
    } else if op == 0x0c {
        Some(Instruction::FConst { bits: 0x3F80_0000 })
    } else if op == 0x0d {
        Some(Instruction::FConst { bits: 0x4000_0000 })
    } else if op == 0x0e {
        Some(Instruction::DConst { bits: 0 })
    } else if op == 0x0f {
        Some(Instruction::DConst { bits: 0x3FF0_0000_0000_0000 })
    } else if 0x1a <= op && op <= 0x1d {
        Some(Instruction::ILoad { index: (op - 0x1a) as u16 })
    } else if 0x1e <= op && op <= 0x21 {
        Some(Instruction::LLoad { index: (op - 0x1e) as u16 })
    } else if 0x22 <= op && op <= 0x25 {
        Some(Instruction::FLoad { index: (op - 0x22) as u16 })
    } else if 0x26 <= op && op <= 0x29 {
        Some(Instruction::DLoad { index: (op - 0x26) as u16 })
    } else if 0x2a <= op && op <= 0x2d {
        Some(Instruction::ALoad { index: (op - 0x2a) as u16 })
    } else if 0x3b <= op && op <= 0x3e {
        Some(Instruction::IStore { index: (op - 0x3b) as u16 })
    } else if 0x3f <= op && op <= 0x42 {
        Some(Instruction::LStore { index: (op - 0x3f) as u16 })
    } else if 0x43 <= op && op <= 0x46 {
        Some(Instruction::FStore { index: (op - 0x43) as u16 })
    } else if 0x47 <= op && op <= 0x4a {
        Some(Instruction::DStore { index: (op - 0x47) as u16 })
    } else if 0x4b <= op && op <= 0x4e {
        Some(Instruction::AStore { index: (op - 0x4b) as u16 })
    } else {
        plain_named_instr(op)
    }
}

/// Opcodes whose operand is a local-variable index (widened by `wide`).
pub open spec fn is_local_op(op: u8) -> bool {
    (0x15 <= op <= 0x19) || (0x36 <= op <= 0x3a) || op == 0xa9
}

pub open spec fn local_instr(op: u8, index: u16) -> Instruction {
    match op {
        0x15 => Instruction::ILoad { index },
        0x16 => Instruction::LLoad { index },
        0x17 => Instruction::FLoad { index },
        0x18 => Instruction::DLoad { index },
        0x19 => Instruction::ALoad { index },
        0x36 => Instruction::IStore { index },
        0x37 => Instruction::LStore { index },
        0x38 => Instruction::FStore { index },
        0x39 => Instruction::DStore { index },
        0x3a => Instruction::AStore { index },
        _ => Instruction::Ret { index },
    }
}

/// Opcodes with a 16-bit relative branch.
pub open spec fn is_branch16_op(op: u8) -> bool {
    (0x99 <= op <= 0xa8) || op == 0xc6 || op == 0xc7
}

pub open spec fn branch_instr(op: u8, branch: u16) -> Instruction {
    match op {
        0x99 => Instruction::IfEq { branch },
        0x9a => Instruction::IfNe { branch },
        0x9b => Instruction::IfLt { branch },
        0x9c => Instruction::IfGe { branch },
        0x9d => Instruction::IfGt { branch },
        0x9e => Instruction::IfLe { branch },
        0x9f => Instruction::IfICmpEq { branch },
        0xa0 => Instruction::IfICmpNe { branch },
        0xa1 => Instruction::IfICmpLt { branch },
        0xa2 => Instruction::IfICmpGe { branch },
        0xa3 => Instruction::IfICmpGt { branch },
        0xa4 => Instruction::IfICmpLe { branch },
        0xa5 => Instruction::IfACmpEq { branch },
        0xa6 => Instruction::IfACmpNe { branch },
        0xa7 => Instruction::Goto { branch },
        0xa8 => Instruction::JSr { branch },
        0xc6 => Instruction::IfNull { branch },
        _ => Instruction::IfNonNull { branch },
    }
}

/// Opcodes whose operand is one 16-bit constant-pool index.
pub open spec fn is_index_op(op: u8) -> bool {
    (0xb2 <= op <= 0xb8) || op == 0xbb || op == 0xbd || op == 0xc0 || op == 0xc1
}

pub open spec fn index_instr(op: u8, index: u16) -> Instruction {
    match op {
        0xb2 => Instruction::GetStatic { index },
        0xb3 => Instruction::PutStatic { index },
        0xb4 => Instruction::GetField { index },
        0xb5 => Instruction::PutField { index },
        0xb6 => Instruction::InvokeVirtual { index },
        0xb7 => Instruction::InvokeSpecial { index },
        0xb8 => Instruction::InvokeStatic { index },
        0xbb => Instruction::New { index },
        0xbd => Instruction::ANewArray { index },
        0xc0 => Instruction::CheckCast { index },
        _ => Instruction::InstanceOf { index },
    }
}

pub open spec fn array_type_of(tag: u8) -> Option<ArrayType> {
    match tag {
        4 => Some(ArrayType::Boolean),
        5 => Some(ArrayType::Char),
        6 => Some(ArrayType::Float),
        7 => Some(ArrayType::Double),
        8 => Some(ArrayType::Byte),
        9 => Some(ArrayType::Short),
        10 => Some(ArrayType::Int),
        11 => Some(ArrayType::Long),
        _ => None,
    }
}

/// An instruction whose operands take the `n` bytes at `a`.
pub open spec fn operand(code: Seq<u8>, a: int, n: int, i: Instruction) -> Result<(Decoded, int), DecompilerError> {
    if present(code, a, n) {
        Ok((Decoded::Plain(i), a + n))
    } else {
        Err(DecompilerError::EndOfCode)
    }
}

/// Padding bytes after a switch opcode, so that what follows starts at a multiple of 4.
pub open spec fn pad(a: int) -> int {
    (4 - a % 4) % 4
}

/// A `tableswitch` whose opcode at `pc` is followed by the byte at `a`.
pub open spec fn table_switch(code: Seq<u8>, a: int, pc: int) -> Result<(Decoded, int), DecompilerError> {
    let b = a + pad(a);
    if !present(code, b, 12) {
        Err(DecompilerError::EndOfCode)
    } else {
        let low = signed32(be32(code, b + 4));
        let high = signed32(be32(code, b + 8));
        let n = if high >= low { high - low + 1 } else { 0 };
        if !present(code, b + 12, 4 * n) {
            Err(DecompilerError::EndOfCode)
        } else {
            Ok(
                (
                    Decoded::Table {
                        default: target32(pc, be32(code, b)),
                        low: low as i32,
                        high: high as i32,
                        offsets: Seq::new(n as nat, |k: int| target32(pc, be32(code, b + 12 + 4 * k))),
                    },
                    b + 12 + 4 * n,
                ),
            )
        }
    }
}

/// A `lookupswitch` whose opcode at `pc` is followed by the byte at `a`.
pub open spec fn lookup_switch(code: Seq<u8>, a: int, pc: int) -> Result<(Decoded, int), DecompilerError> {
    let b = a + pad(a);
    if !present(code, b, 8) {
        Err(DecompilerError::EndOfCode)
    } else {
        let n = be32(code, b + 4);
        if !present(code, b + 8, 8 * n) {
            Err(DecompilerError::EndOfCode)
        } else {
            Ok(
                (
                    Decoded::Lookup {
                        default: target32(pc, be32(code, b)),
                        pairs: Seq::new(
                            n as nat,
                            |k: int|
                                (
                                    signed32(be32(code, b + 8 + 8 * k)) as i32,
                                    target32(pc, be32(code, b + 12 + 8 * k)),
                                ),
                        ),
                    },
                    b + 8 + 8 * n,
                ),
            )
        }
    }
}

/// The instruction whose opcode is at `p` and which started at `pc` (earlier than `p`
/// after a `wide` prefix), and where the next one starts.
#[verifier::opaque]
pub open spec fn decode(code: Seq<u8>, p: int, pc: int, wide: bool) -> Result<(Decoded, int), DecompilerError>
    decreases code.len() - p,
{
    if !present(code, p, 1) {
        Err(DecompilerError::EndOfCode)
    } else {
        let op = code[p];
        let a = p + 1;
        if plain(op) is Some {
            Ok((Decoded::Plain(plain(op)->Some_0), a))
        } else if op == 0x10 {
            operand(code, a, 1, Instruction::BIPush { value: signed8(code[a] as int) as i8 })
        } else if op == 0x11 {
            operand(code, a, 2, Instruction::SIPush { value: signed16(be16(code, a)) as i16 })
        } else if op == 0x12 {
            operand(code, a, 1, Instruction::LoadConst { index: code[a] as u16 })
        } else if op == 0x13 || op == 0x14 {
            operand(code, a, 2, Instruction::LoadConst { index: be16(code, a) as u16 })
        } else if is_local_op(op) {
            if wide {
                operand(code, a, 2, local_instr(op, be16(code, a) as u16))
            } else {
                operand(code, a, 1, local_instr(op, code[a] as u16))
            }
        } else if op == 0x84 {
            if wide {
                operand(
                    code,
                    a,
                    4,
                    Instruction::IInc {
                        index: be16(code, a) as u16,
                        value: signed16(be16(code, a + 2)) as i16,
                    },
                )
            } else {
                operand(
                    code,
                    a,
                    2,
                    Instruction::IInc {
                        index: code[a] as u16,
                        value: signed8(code[a + 1] as int) as i16,
                    },
                )
            }
        } else if is_branch16_op(op) {
            operand(code, a, 2, branch_instr(op, target16(pc, be16(code, a))))
        } else if op == 0xc8 {
            operand(code, a, 4, Instruction::GotoW { branch: target32(pc, be32(code, a)) })
        } else if op == 0xc9 {
            operand(code, a, 4, Instruction::JSrW { branch: target32(pc, be32(code, a)) })
        } else if is_index_op(op) {
            operand(code, a, 2, index_instr(op, be16(code, a) as u16))
        } else if op == 0xb9 {
            operand(code, a, 4, Instruction::InvokeInterface { index: be16(code, a) as u16 })
        } else if op == 0xba {
            operand(code, a, 4, Instruction::InvokeDynamic { index: be16(code, a) as u16 })
        } else if op == 0xbc {
            if !present(code, a, 1) {
                Err(DecompilerError::EndOfCode)
            } else {
                match array_type_of(code[a]) {
                    Some(t) => Ok((Decoded::Plain(Instruction::NewArray { array_type: t }), a + 1)),
                    None => Err(DecompilerError::UnknownArrayType { type_id: code[a] }),
                }
            }
        } else if op == 0xc5 {
            operand(
                code,
                a,
                3,
                Instruction::MultiANewArray { index: be16(code, a) as u16, dimensions: code[a + 2] },
            )
        } else if op == 0xc4 {
            decode(code, a, pc, true)
        } else if op == 0xaa {
            table_switch(code, a, pc)
        } else if op == 0xab {
            lookup_switch(code, a, pc)
        } else {
            Err(DecompilerError::UnknownInstr { instruction: op })
        }
    }
}


fn read_u8(data: &[u8], pos: &mut usize) -> (r: Result<u8, DecompilerError>)
    ensures
        present(data@, *old(pos) as int, 1) ==> r == Ok::<u8, DecompilerError>(data@[*old(pos) as int])
            && *final(pos) == *old(pos) + 1,
        !present(data@, *old(pos) as int, 1) ==> r == Err::<u8, DecompilerError>(DecompilerError::EndOfCode),
{
    match crate::bytes::read_u8(data, pos) {
        Ok(v) => Ok(v),
        Err(_) => Err(DecompilerError::EndOfCode),
    }
}

fn read_u16(data: &[u8], pos: &mut usize) -> (r: Result<u16, DecompilerError>)
    ensures
        present(data@, *old(pos) as int, 2) ==> r == Ok::<u16, DecompilerError>(be16(data@, *old(pos) as int) as u16)
            && *final(pos) == *old(pos) + 2 && r->Ok_0 as int == be16(data@, *old(pos) as int),
        !present(data@, *old(pos) as int, 2) ==> r == Err::<u16, DecompilerError>(DecompilerError::EndOfCode),
{
    match crate::bytes::read_u16(data, pos) {
        Ok(v) => Ok(v),
        Err(_) => Err(DecompilerError::EndOfCode),
    }
}

fn read_u32(data: &[u8], pos: &mut usize) -> (r: Result<u32, DecompilerError>)
    ensures
        present(data@, *old(pos) as int, 4) ==> r == Ok::<u32, DecompilerError>(be32(data@, *old(pos) as int) as u32)
            && *final(pos) == *old(pos) + 4 && r->Ok_0 as int == be32(data@, *old(pos) as int),
        !present(data@, *old(pos) as int, 4) ==> r == Err::<u32, DecompilerError>(DecompilerError::EndOfCode),
{
    match crate::bytes::read_u32(data, pos) {
        Ok(v) => Ok(v),
        Err(_) => Err(DecompilerError::EndOfCode),
    }
}

/// Absolute target of a 16-bit relative branch.
fn rel16(pc: usize, raw: u16) -> (r: u16)
    ensures
        r == target16(pc as int, raw as int),
{
    let base = (pc % 0x1_0000) as u32;
    let t = (base + raw as u32) % 0x1_0000;
    proof {
        lemma_add_mod_noop(pc as int, raw as int, 0x1_0000);
        if raw >= 0x8000 {
            lemma_mod_add_multiples_vanish(pc as int + raw as int - 0x1_0000, 0x1_0000);
        }
    }
    t as u16
}

/// Absolute target of a 32-bit relative branch.
fn rel32(pc: usize, raw: u32) -> (r: u32)
    ensures
        r == target32(pc as int, raw as int),
{
    let base = (pc as u64) % 0x1_0000_0000;
    let t = (base + raw as u64) % 0x1_0000_0000;
    proof {
        lemma_add_mod_noop(pc as int, raw as int, 0x1_0000_0000);
        if raw >= 0x8000_0000 {
            lemma_mod_add_multiples_vanish(pc as int + raw as int - 0x1_0000_0000, 0x1_0000_0000);
        }
    }
    t as u32
}

fn to_i8(v: u8) -> (r: i8)
    ensures
        r as int == signed8(v as int),
{
    if v >= 0x80 {
        ((v - 0x80) as i8) - 0x7F - 1
    } else {
        v as i8
    }
}

fn to_i16(v: u16) -> (r: i16)
    ensures
        r as int == signed16(v as int),
{
    if v >= 0x8000 {
        ((v - 0x8000) as i16) - 0x7FFF - 1
    } else {
        v as i16
    }
}

fn local_instr_of(op: u8, index: u16) -> (r: Instruction)
    ensures
        r == local_instr(op, index),
{
    match op {
        0x15 => Instruction::ILoad { index },
        0x16 => Instruction::LLoad { index },
        0x17 => Instruction::FLoad { index },
        0x18 => Instruction::DLoad { index },
        0x19 => Instruction::ALoad { index },
        0x36 => Instruction::IStore { index },
        0x37 => Instruction::LStore { index },
        0x38 => Instruction::FStore { index },
        0x39 => Instruction::DStore { index },
        0x3a => Instruction::AStore { index },
        _ => Instruction::Ret { index },
    }
}

fn branch_instr_of(op: u8, branch: u16) -> (r: Instruction)
    ensures
        r == branch_instr(op, branch),
{
    match op {
        0x99 => Instruction::IfEq { branch },
        0x9a => Instruction::IfNe { branch },
        0x9b => Instruction::IfLt { branch },
        0x9c => Instruction::IfGe { branch },
        0x9d => Instruction::IfGt { branch },
        0x9e => Instruction::IfLe { branch },
        0x9f => Instruction::IfICmpEq { branch },
        0xa0 => Instruction::IfICmpNe { branch },
        0xa1 => Instruction::IfICmpLt { branch },
        0xa2 => Instruction::IfICmpGe { branch },
        0xa3 => Instruction::IfICmpGt { branch },
        0xa4 => Instruction::IfICmpLe { branch },
        0xa5 => Instruction::IfACmpEq { branch },
        0xa6 => Instruction::IfACmpNe { branch },
        0xa7 => Instruction::Goto { branch },
        0xa8 => Instruction::JSr { branch },
        0xc6 => Instruction::IfNull { branch },
        _ => Instruction::IfNonNull { branch },
    }
}

fn index_instr_of(op: u8, index: u16) -> (r: Instruction)
    ensures
        r == index_instr(op, index),
{
    match op {
        0xb2 => Instruction::GetStatic { index },
        0xb3 => Instruction::PutStatic { index },
        0xb4 => Instruction::GetField { index },
        0xb5 => Instruction::PutField { index },
        0xb6 => Instruction::InvokeVirtual { index },
        0xb7 => Instruction::InvokeSpecial { index },
        0xb8 => Instruction::InvokeStatic { index },
        0xbb => Instruction::New { index },
        0xbd => Instruction::ANewArray { index },
        0xc0 => Instruction::CheckCast { index },
        _ => Instruction::InstanceOf { index },
    }
}

/// Skips the padding after a switch opcode.
fn skip_padding(data: &[u8], pos: &mut usize) -> (r: Result<(), DecompilerError>)
    requires
        *old(pos) <= data@.len(),
    ensures
        r is Ok <==> *old(pos) + pad(*old(pos) as int) <= data@.len(),
        r is Ok ==> *final(pos) == *old(pos) + pad(*old(pos) as int),
        r is Err ==> r == Err::<(), DecompilerError>(DecompilerError::EndOfCode),
{
    let a = *pos;
    let n = (4 - a % 4) % 4;
    if data.len() - a < n {
        return Err(DecompilerError::EndOfCode);
    }
    *pos = a + n;
    Ok(())
}

fn read_table_switch(data: &[u8], pos: &mut usize, start: usize) -> (r: Result<Instruction, DecompilerError>)
    requires
        *old(pos) <= data@.len(),
    ensures
        match (r, table_switch(data@, *old(pos) as int, start as int)) {
            (Ok(i), Ok((d, q))) => instr_matches(i, d) && *final(pos) == q,
            (Err(e), Err(e2)) => e == e2,
            _ => false,
        },
{
    skip_padding(data, pos)?;
    let default = read_u32(data, pos)?;
    let low = to_i32(read_u32(data, pos)?);
    let high = to_i32(read_u32(data, pos)?);
    let n: u64 = if high >= low {
        (high as i64 - low as i64 + 1) as u64
    } else {
        0
    };
    let c = *pos;
    if (((data.len() - c) / 4) as u64) < n {
        return Err(DecompilerError::EndOfCode);
    }
    let mut offsets: Vec<u32> = Vec::new();
    let mut k: u64 = 0;
    while k < n
        invariant
            k <= n,
            4 * n <= data@.len() - c,
            *pos == c + 4 * k,
            offsets@ == Seq::new(k as nat, |j: int| target32(start as int, be32(data@, c + 4 * j))),
        decreases n - k,
    {
        let raw = read_u32(data, pos)?;
        offsets.push(rel32(start, raw));
        k = k + 1;
        assert(offsets@ =~= Seq::new(k as nat, |j: int| target32(start as int, be32(data@, c + 4 * j))));
    }
    Ok(Instruction::TableSwitch { default: rel32(start, default), low, high, offsets })
}

fn read_lookup_switch(data: &[u8], pos: &mut usize, start: usize) -> (r: Result<Instruction, DecompilerError>)
    requires
        *old(pos) <= data@.len(),
    ensures
        match (r, lookup_switch(data@, *old(pos) as int, start as int)) {
            (Ok(i), Ok((d, q))) => instr_matches(i, d) && *final(pos) == q,
            (Err(e), Err(e2)) => e == e2,
            _ => false,
        },
{
    skip_padding(data, pos)?;
    let default = read_u32(data, pos)?;
    let n = read_u32(data, pos)? as u64;
    let c = *pos;
    if (((data.len() - c) / 8) as u64) < n {
        return Err(DecompilerError::EndOfCode);
    }
    let mut pairs: Vec<(i32, u32)> = Vec::new();
    let mut k: u64 = 0;
    while k < n
        invariant
            k <= n,
            8 * n <= data@.len() - c,
            *pos == c + 8 * k,
            pairs@ == Seq::new(
                k as nat,
                |j: int| (signed32(be32(data@, c + 8 * j)) as i32, target32(start as int, be32(data@, c + 4 + 8 * j))),
            ),
        decreases n - k,
    {
        let m = read_u32(data, pos)?;
        let raw = read_u32(data, pos)?;
        pairs.push((to_i32(m), rel32(start, raw)));
        k = k + 1;
        assert(pairs@ =~= Seq::new(
            k as nat,
            |j: int| (signed32(be32(data@, c + 8 * j)) as i32, target32(start as int, be32(data@, c + 4 + 8 * j))),
        ));
    }
    Ok(Instruction::LookupSwitch { default: rel32(start, default), pairs })
}

/// Decodes the instruction whose opcode is at `pos`; `start` is where it began, before any
/// `wide` prefix, and branch targets are taken from there.
fn read_instruction(data: &[u8], pos: &mut usize, start: usize, wide: bool) -> (r: Result<Instruction, DecompilerError>)
    ensures
        match (r, decode(data@, *old(pos) as int, start as int, wide)) {
            (Ok(i), Ok((d, q))) => instr_matches(i, d) && *final(pos) == q && *old(pos) < q <= data@.len(),
            (Err(e), Err(e2)) => e == e2,
            _ => false,
        },
    decreases data@.len() - *old(pos),
{
    reveal(decode);
    let code = read_u8(data, pos)?;
    if let Some(i) = plain_instr(code) {
        return Ok(i);
    }
    if code == 0x10 {
        let v = read_u8(data, pos)?;
        Ok(Instruction::BIPush { value: to_i8(v) })
    } else if code == 0x11 {
        let v = read_u16(data, pos)?;
        Ok(Instruction::SIPush { value: to_i16(v) })
    } else if code == 0x12 {
        let v = read_u8(data, pos)?;
        Ok(Instruction::LoadConst { index: v as u16 })
    } else if code == 0x13 || code == 0x14 {
        let v = read_u16(data, pos)?;
        Ok(Instruction::LoadConst { index: v })
    } else if (0x15 <= code && code <= 0x19) || (0x36 <= code && code <= 0x3a) || code == 0xa9 {
        let index = if wide {
            read_u16(data, pos)?
        } else {
            read_u8(data, pos)? as u16
        };
        Ok(local_instr_of(code, index))
    } else if code == 0x84 {
        if wide {
            if data.len() - *pos < 4 {
                return Err(DecompilerError::EndOfCode);
            }
            let index = read_u16(data, pos)?;
            let value = to_i16(read_u16(data, pos)?);
            Ok(Instruction::IInc { index, value })
        } else {
            if data.len() - *pos < 2 {
                return Err(DecompilerError::EndOfCode);
            }
            let index = read_u8(data, pos)? as u16;
            let value = to_i8(read_u8(data, pos)?) as i16;
            Ok(Instruction::IInc { index, value })
        }
    } else if (0x99 <= code && code <= 0xa8) || code == 0xc6 || code == 0xc7 {
        let raw = read_u16(data, pos)?;
        Ok(branch_instr_of(code, rel16(start, raw)))
    } else if code == 0xc8 {
        let raw = read_u32(data, pos)?;
        Ok(Instruction::GotoW { branch: rel32(start, raw) })
    } else if code == 0xc9 {
        let raw = read_u32(data, pos)?;
        Ok(Instruction::JSrW { branch: rel32(start, raw) })
    } else if (0xb2 <= code && code <= 0xb8) || code == 0xbb || code == 0xbd || code == 0xc0 || code == 0xc1 {
        let index = read_u16(data, pos)?;
        Ok(index_instr_of(code, index))
    } else if code == 0xb9 || code == 0xba {
        if data.len() - *pos < 4 {
            return Err(DecompilerError::EndOfCode);
        }
        let index = read_u16(data, pos)?;
        read_u16(data, pos)?;
        if code == 0xb9 {
            Ok(Instruction::InvokeInterface { index })
        } else {
            Ok(Instruction::InvokeDynamic { index })
        }
    } else if code == 0xbc {
        let type_id = read_u8(data, pos)?;
        let array_type = match type_id {
            4 => ArrayType::Boolean,
            5 => ArrayType::Char,
            6 => ArrayType::Float,
            7 => ArrayType::Double,
            8 => ArrayType::Byte,
            9 => ArrayType::Short,
            10 => ArrayType::Int,
            11 => ArrayType::Long,
            _ => return Err(DecompilerError::UnknownArrayType { type_id }),
        };
        Ok(Instruction::NewArray { array_type })
    } else if code == 0xc5 {
        if data.len() - *pos < 3 {
            return Err(DecompilerError::EndOfCode);
        }
        let index = read_u16(data, pos)?;
        let dimensions = read_u8(data, pos)?;
        Ok(Instruction::MultiANewArray { index, dimensions })
    } else if code == 0xc4 {
        read_instruction(data, pos, start, true)
    } else if code == 0xaa {
        read_table_switch(data, pos, start)
    } else if code == 0xab {
        read_lookup_switch(data, pos, start)
    } else {
        Err(DecompilerError::UnknownInstr { instruction: code })
    }
}

/// The instructions from byte `p` to the end of the code, each with its position.
pub open spec fn disasm_from(code: Seq<u8>, p: int) -> Result<Seq<(u64, Decoded)>, DecompilerError>
    decreases code.len() - p,
{
    if p < 0 || p >= code.len() {
        Ok(seq![])
    } else {
        match decode(code, p, p, false) {
            Err(e) => Err(e),
            Ok((d, q)) => if !(p < q <= code.len()) {
                // decoding always moves forward
                Err(DecompilerError::EndOfCode)
            } else {
                match disasm_from(code, q) {
                    Err(e) => Err(e),
                    Ok(rest) => Ok(seq![(p as u64, d)] + rest),
                }
            },
        }
    }
}

/// A decoded listing that agrees, position by position, with its model.
pub open spec fn listing_matches(v: Seq<(u64, Instruction)>, m: Seq<(u64, Decoded)>) -> bool {
    &&& v.len() == m.len()
    &&& forall|k: int| 0 <= k < v.len() ==> #[trigger] entry_matches(v[k], m[k])
}

/// The same position, and an instruction that agrees with its model.
pub open spec fn entry_matches(e: (u64, Instruction), m: (u64, Decoded)) -> bool {
    e.0 == m.0 && instr_matches(e.1, m.1)
}

pub open spec fn then_listing(done: Seq<(u64, Decoded)>, r: Result<Seq<(u64, Decoded)>, DecompilerError>) -> Result<Seq<(u64, Decoded)>, DecompilerError> {
    match r {
        Ok(rest) => Ok(done + rest),
        Err(e) => Err(e),
    }
}

/// Decodes a whole code array, each instruction with the position where it starts.
pub fn disassemble(codes_vec: Vec<u8>) -> (r: Result<Vec<(u64, Instruction)>, DecompilerError>)
    ensures
        match (r, disasm_from(codes_vec@, 0)) {
            (Ok(v), Ok(m)) => listing_matches(v@, m),
            (Err(e), Err(e2)) => e == e2,
            _ => false,
        },
{
    let data = codes_vec.as_slice();
    let length = data.len();
    let mut instructions: Vec<(u64, Instruction)> = Vec::new();
    let mut pos: usize = 0;
    let ghost mut done: Seq<(u64, Decoded)> = seq![];
    while pos < length
        invariant
            length == data@.len(),
            data@ == codes_vec@,
            pos <= length,
            listing_matches(instructions@, done),
            disasm_from(data@, 0) == then_listing(done, disasm_from(data@, pos as int)),
        decreases length - pos,
    {
        let start = pos;
        let instr = read_instruction(data, &mut pos, start, false)?;
        let ghost prev = instructions@;
        let ghost prev_done = done;
        let ghost d = decode(data@, start as int, start as int, false)->Ok_0.0;
        assert(instr_matches(instr, d));
        proof {
            let rest = disasm_from(data@, pos as int);
            if rest is Ok {
                assert(done + (seq![(start as u64, d)] + rest->Ok_0) =~= done.push((start as u64, d)) + rest->Ok_0);
            }
            done = done.push((start as u64, d));
        }
        instructions.push((start as u64, instr));
        assert forall|k: int| 0 <= k < instructions@.len() implies #[trigger] entry_matches(
            instructions@[k],
            done[k],
        ) by {
            if k < prev.len() {
                assert(instructions@[k] == prev[k]);
                assert(done[k] == prev_done[k]);
                assert(entry_matches(prev[k], prev_done[k]));
            } else {
                assert(instructions@[k].1 == instr);
                assert(done[k].1 == d);
            }
        }

    }
    proof {
        assert(done + seq![] =~= done);
    }
    Ok(instructions)
}


/// How many bytes the instruction at `pc` takes.
pub open spec fn length_at(code: Seq<u8>, pc: int) -> int {
    decode(code, pc, pc, false)->Ok_0.1 - pc
}

/// The lengths of the instructions of a listing, added up.
pub open spec fn total_length(code: Seq<u8>, m: Seq<(u64, Decoded)>) -> int
    decreases m.len(),
{
    if m.len() == 0 {
        0
    } else {
        length_at(code, m[0].0 as int) + total_length(code, m.drop_first())
    }
}

/// Positions strictly increase along a listing and stay inside `[lo, hi)`.
pub open spec fn positions_within(m: Seq<(u64, Decoded)>, lo: int, hi: int) -> bool {
    &&& forall|k: int| 0 <= k < m.len() ==> lo <= #[trigger] m[k].0 < hi
    &&& forall|a: int, b: int| 0 <= a < b < m.len() ==> m[a].0 < m[b].0
}

proof fn lemma_cover_from(code: Seq<u8>, p: int)
    requires
        0 <= p <= code.len(),
        code.len() <= u64::MAX,
        disasm_from(code, p) is Ok,
    ensures
        total_length(code, disasm_from(code, p)->Ok_0) == code.len() - p,
        positions_within(disasm_from(code, p)->Ok_0, p, code.len() as int),
    decreases code.len() - p,
{
    let m = disasm_from(code, p)->Ok_0;
    if p < code.len() {
        let (d, q) = decode(code, p, p, false)->Ok_0;
        lemma_cover_from(code, q);
        let rest = disasm_from(code, q)->Ok_0;
        assert(m == seq![(p as u64, d)] + rest);
        assert(m.drop_first() =~= rest);
        assert forall|a: int, b: int| 0 <= a < b < m.len() implies m[a].0 < m[b].0 by {
            if a > 0 {
                assert(m[a] == rest[a - 1] && m[b] == rest[b - 1]);
            } else {
                assert(m[b] == rest[b - 1]);
            }
        }
        assert forall|k: int| 0 <= k < m.len() implies p <= #[trigger] m[k].0 < code.len() by {
            if k > 0 {
                assert(m[k] == rest[k - 1]);
            }
        }
    }
}

/// A code array that disassembles is covered exactly: the lengths of the decoded
/// instructions add up to its length, and their positions strictly increase.
pub proof fn lemma_full_coverage(code: Seq<u8>)
    requires
        code.len() <= u64::MAX,
        disasm_from(code, 0) is Ok,
    ensures
        total_length(code, disasm_from(code, 0)->Ok_0) == code.len(),
        positions_within(disasm_from(code, 0)->Ok_0, 0, code.len() as int),
{
    lemma_cover_from(code, 0);
}

} // verus!
