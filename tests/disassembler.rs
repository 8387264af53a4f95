use javadec::decompiler::DecompilerError;
use javadec::disassembler::{disassemble, ArrayType, Instruction};

fn one(code: Vec<u8>) -> Vec<(u64, Instruction)> {
    match disassemble(code) {
        Ok(v) => v,
        Err(e) => panic!("unexpected error {:?}", e),
    }
}

#[test]
fn ifeq_forward_target_is_absolute() {
    let mut code = vec![0x00; 5];
    code.extend_from_slice(&[0x99, 0x00, 0x0A]);
    let listing = one(code);
    assert_eq!(listing[5], (5, Instruction::IfEq { branch: 15 }));
}

#[test]
fn ifeq_backward_target_is_absolute() {
    let mut code = vec![0x00; 5];
    code.extend_from_slice(&[0x99, 0xFF, 0xFB]);
    let listing = one(code);
    assert_eq!(listing[5], (5, Instruction::IfEq { branch: 0 }));
}

#[test]
fn goto_w_target() {
    let code = vec![0x00, 0xC8, 0xFF, 0xFF, 0xFF, 0xFF];
    let listing = one(code);
    assert_eq!(listing[1], (1, Instruction::GotoW { branch: 0 }));
}

fn table_switch_at(pc: usize) -> (Vec<u8>, usize) {
    let mut code = vec![0x00; pc];
    code.push(0xAA);
    let pad = (4 - (pc + 1) % 4) % 4;
    code.extend(std::iter::repeat(0xFF).take(pad));
    // default +20, low 1, high 2, offsets +8, +12
    code.extend_from_slice(&[0, 0, 0, 20, 0, 0, 0, 1, 0, 0, 0, 2, 0, 0, 0, 8, 0, 0, 0, 12]);
    (code, pad)
}

#[test]
fn table_switch_padding_at_zero() {
    let (code, pad) = table_switch_at(0);
    assert_eq!(pad, 3);
    let listing = one(code);
    assert_eq!(
        listing,
        vec![(0, Instruction::TableSwitch { default: 20, low: 1, high: 2, offsets: vec![8, 12] })]
    );
}

#[test]
fn table_switch_padding_at_three() {
    let (code, pad) = table_switch_at(3);
    assert_eq!(pad, 0);
    let listing = one(code);
    assert_eq!(listing.len(), 4);
    assert_eq!(
        listing[3],
        (3, Instruction::TableSwitch { default: 23, low: 1, high: 2, offsets: vec![11, 15] })
    );
}

#[test]
fn table_switch_padding_at_five() {
    let (code, pad) = table_switch_at(5);
    assert_eq!(pad, 2);
    let listing = one(code);
    assert_eq!(listing.len(), 6);
    assert_eq!(
        listing[5],
        (5, Instruction::TableSwitch { default: 25, low: 1, high: 2, offsets: vec![13, 17] })
    );
}

#[test]
fn lookup_switch_pairs() {
    let mut code = vec![0xAB, 0, 0, 0];
    code.extend_from_slice(&[0, 0, 0, 16, 0, 0, 0, 2]);
    code.extend_from_slice(&[0xFF, 0xFF, 0xFF, 0xFF, 0, 0, 0, 4]);
    code.extend_from_slice(&[0, 0, 0, 7, 0, 0, 0, 8]);
    let listing = one(code);
    assert_eq!(
        listing,
        vec![(0, Instruction::LookupSwitch { default: 16, pairs: vec![(-1, 4), (7, 8)] })]
    );
}

#[test]
fn wide_and_plain_iload() {
    let listing = one(vec![0xC4, 0x15, 0x01, 0x02, 0x15, 0x07]);
    assert_eq!(listing, vec![(0, Instruction::ILoad { index: 0x0102 }), (4, Instruction::ILoad { index: 7 })]);
}

#[test]
fn wide_iinc() {
    let listing = one(vec![0xC4, 0x84, 0x00, 0x05, 0xFF, 0xFE, 0x84, 0x03, 0xFF]);
    assert_eq!(
        listing,
        vec![(0, Instruction::IInc { index: 5, value: -2 }), (6, Instruction::IInc { index: 3, value: -1 })]
    );
}

#[test]
fn lengths_add_up_to_code_length() {
    let code = vec![0x10, 0x85, 0x11, 0x01, 0x00, 0x12, 0x03, 0x13, 0x00, 0x04, 0xB6, 0x00, 0x02, 0xB9, 0x00, 0x01, 0x02, 0x00, 0xB1];
    let len = code.len() as u64;
    let listing = one(code);
    let pcs: Vec<u64> = listing.iter().map(|(pc, _)| *pc).collect();
    assert_eq!(pcs, vec![0, 2, 5, 7, 10, 13, 18]);
    assert_eq!(*pcs.last().unwrap() + 1, len);
    assert_eq!(listing[0].1, Instruction::BIPush { value: -123 });
    assert_eq!(listing[1].1, Instruction::SIPush { value: 256 });
    assert_eq!(listing[2].1, Instruction::LoadConst { index: 3 });
    assert_eq!(listing[3].1, Instruction::LoadConst { index: 4 });
    assert_eq!(listing[4].1, Instruction::InvokeVirtual { index: 2 });
    assert_eq!(listing[5].1, Instruction::InvokeInterface { index: 1 });
    assert_eq!(listing[6].1, Instruction::Return);
}

#[test]
fn constants_and_short_forms() {
    let listing = one(vec![0x02, 0x08, 0x0A, 0x0C, 0x0F, 0x1D, 0x4E]);
    let instrs: Vec<Instruction> = listing.into_iter().map(|(_, i)| i).collect();
    assert_eq!(
        instrs,
        vec![
            Instruction::IConst { value: -1 },
            Instruction::IConst { value: 5 },
            Instruction::LConst { value: 1 },
            Instruction::FConst { bits: 1.0f32.to_bits() },
            Instruction::DConst { bits: 1.0f64.to_bits() },
            Instruction::ILoad { index: 3 },
            Instruction::AStore { index: 3 },
        ]
    );
}

#[test]
fn newarray_and_multianewarray() {
    let listing = one(vec![0xBC, 0x0A, 0xC5, 0x00, 0x09, 0x02]);
    assert_eq!(
        listing,
        vec![
            (0, Instruction::NewArray { array_type: ArrayType::Int }),
            (2, Instruction::MultiANewArray { index: 9, dimensions: 2 }),
        ]
    );
}

#[test]
fn unknown_array_type() {
    assert!(matches!(disassemble(vec![0xBC, 0x03]), Err(DecompilerError::UnknownArrayType { type_id: 3 })));
}

#[test]
fn unknown_opcode() {
    assert!(matches!(disassemble(vec![0x00, 0xCA]), Err(DecompilerError::UnknownInstr { instruction: 0xCA })));
}

#[test]
fn truncated_operand_is_end_of_code() {
    assert!(matches!(disassemble(vec![0x11, 0x01]), Err(DecompilerError::EndOfCode)));
    assert!(matches!(disassemble(vec![0xAA, 0, 0, 0, 0, 0, 0, 1]), Err(DecompilerError::EndOfCode)));
}

#[test]
fn empty_code_has_no_instructions() {
    assert_eq!(one(Vec::new()), Vec::new());
}
