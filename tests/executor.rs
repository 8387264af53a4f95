use javadec::ast::{FloatConst, VarType, AST};
use javadec::cfg::Block;
use javadec::classfile::read_classfile;
use javadec::constant_pool::ConstantPool;
use javadec::decompiler::{decompile_block, DecompilerError};
use javadec::descriptors::DescriptorParseError;
use javadec::disassembler::Instruction;

fn utf8(s: &str) -> Vec<u8> {
    let mut v = vec![1, 0, s.len() as u8];
    v.extend_from_slice(s.as_bytes());
    v
}

fn pool(entries: &[Vec<u8>], count: u16) -> ConstantPool {
    let mut v = vec![0xCA, 0xFE, 0xBA, 0xBE, 0, 0, 0, 52];
    v.extend_from_slice(&count.to_be_bytes());
    for e in entries {
        v.extend_from_slice(e);
    }
    v.extend_from_slice(&[0, 0x21, 0, 0, 0, 0, 0, 0, 0, 0, 0, 0, 0, 0]);
    match read_classfile(&v) {
        Ok(c) => c.constant_pool,
        Err(e) => panic!("unexpected error {:?}", e),
    }
}

fn method_pool(descriptor: &str) -> ConstantPool {
    pool(
        &[
            utf8("Foo"),
            vec![7, 0, 1],
            utf8("bar"),
            utf8(descriptor),
            vec![12, 0, 3, 0, 4],
            vec![10, 0, 2, 0, 5],
        ],
        7,
    )
}

fn block(instrs: Vec<Instruction>) -> Block {
    let mut pc = 0;
    let mut instructions = Vec::new();
    for i in instrs {
        instructions.push((pc, i));
        pc += 1;
    }
    Block { instructions, branches: Vec::new() }
}

#[test]
fn multiply_and_store() {
    let b = block(vec![
        Instruction::IConst { value: 1 },
        Instruction::IConst { value: 2 },
        Instruction::IMul,
        Instruction::IStore { index: 0 },
    ]);
    let stmts = decompile_block(&b, &pool(&[], 1)).ok().unwrap();
    assert_eq!(stmts.len(), 1);
    match &stmts[0] {
        AST::SetLocal { index: 0, value } => match &**value {
            AST::Mul { lhs, rhs } => {
                assert!(matches!(**lhs, AST::ConstInt { value: 1 }));
                assert!(matches!(**rhs, AST::ConstInt { value: 2 }));
            }
            other => panic!("unexpected {:?}", other),
        },
        other => panic!("unexpected {:?}", other),
    }
}

#[test]
fn void_call_is_a_statement() {
    let b = block(vec![
        Instruction::ALoad { index: 0 },
        Instruction::ILoad { index: 1 },
        Instruction::ILoad { index: 2 },
        Instruction::InvokeVirtual { index: 6 },
    ]);
    let stmts = decompile_block(&b, &method_pool("(II)V")).ok().unwrap();
    assert_eq!(stmts.len(), 1);
    match &stmts[0] {
        AST::Call { method_data, reference, args } => {
            assert_eq!(method_data.name_and_type.name, "bar");
            assert_eq!(method_data.class.name, "Foo");
            assert!(matches!(**reference, AST::Variable { index: 0, vartype: VarType::Reference }));
            assert_eq!(args.len(), 2);
            assert!(matches!(args[0], AST::Variable { index: 1, vartype: VarType::Int }));
            assert!(matches!(args[1], AST::Variable { index: 2, vartype: VarType::Int }));
        }
        other => panic!("unexpected {:?}", other),
    }
}

#[test]
fn non_void_call_stays_on_the_stack() {
    let b = block(vec![
        Instruction::ALoad { index: 0 },
        Instruction::ILoad { index: 1 },
        Instruction::ILoad { index: 2 },
        Instruction::InvokeVirtual { index: 6 },
    ]);
    assert!(matches!(
        decompile_block(&b, &method_pool("(II)I")),
        Err(DecompilerError::StackSize { size: 1 })
    ));
    let b2 = block(vec![
        Instruction::ALoad { index: 0 },
        Instruction::ILoad { index: 1 },
        Instruction::ILoad { index: 2 },
        Instruction::InvokeSpecial { index: 6 },
        Instruction::IStore { index: 3 },
    ]);
    let stmts = decompile_block(&b2, &method_pool("(II)I")).ok().unwrap();
    assert!(matches!(&stmts[0], AST::SetLocal { index: 3, value } if matches!(**value, AST::Call { .. })));
}

#[test]
fn call_with_too_few_values() {
    let b = block(vec![Instruction::ILoad { index: 1 }, Instruction::ILoad { index: 2 }, Instruction::InvokeVirtual { index: 6 }]);
    assert!(matches!(decompile_block(&b, &method_pool("(II)V")), Err(DecompilerError::EmptyStack)));
}

#[test]
fn bad_descriptor_is_reported() {
    let b = block(vec![Instruction::ALoad { index: 0 }, Instruction::InvokeVirtual { index: 6 }]);
    match decompile_block(&b, &method_pool("(Q)V")) {
        Err(DecompilerError::DescriptorParsing { error }) => assert_eq!(
            error,
            DescriptorParseError::Expect { expected: String::from("field type"), got: 'Q' }
        ),
        other => panic!("unexpected {:?}", other),
    }
}

#[test]
fn missing_method_entry() {
    let b = block(vec![Instruction::ALoad { index: 0 }, Instruction::InvokeVirtual { index: 9 }]);
    assert!(matches!(
        decompile_block(&b, &method_pool("()V")),
        Err(DecompilerError::ClassFileError { error: javadec::bytes::ClassFileError::InvalidCPEntry })
    ));
}

#[test]
fn pop_from_empty_stack() {
    let b = block(vec![Instruction::IStore { index: 0 }]);
    assert!(matches!(decompile_block(&b, &pool(&[], 1)), Err(DecompilerError::EmptyStack)));
}

#[test]
fn unmodelled_opcode() {
    let b = block(vec![Instruction::IConst { value: 0 }, Instruction::Swap]);
    assert!(matches!(decompile_block(&b, &pool(&[], 1)), Err(DecompilerError::UnimplementedInstruction { pc: 1 })));
}

#[test]
fn casts_constants_and_return() {
    let p = pool(
        &[utf8("hi"), vec![8, 0, 1], vec![7, 0, 1], vec![4, 0x40, 0, 0, 0], vec![3, 0, 0, 0, 7]],
        6,
    );
    let b = block(vec![
        Instruction::LoadConst { index: 2 },
        Instruction::CheckCast { index: 3 },
        Instruction::AStore { index: 1 },
        Instruction::LoadConst { index: 4 },
        Instruction::FStore { index: 2 },
        Instruction::LoadConst { index: 5 },
        Instruction::I2b,
        Instruction::IStore { index: 3 },
        Instruction::ALoad { index: 1 },
        Instruction::ArrayLength,
        Instruction::IStore { index: 4 },
        Instruction::Return,
    ]);
    let stmts = decompile_block(&b, &p).ok().unwrap();
    assert_eq!(stmts.len(), 5);
    match &stmts[0] {
        AST::SetLocal { index: 1, value } => match &**value {
            AST::ClassCast { value, cast_type } => {
                assert_eq!(cast_type.name, "hi");
                assert!(matches!(&**value, AST::ConstString { value } if value == "hi"));
            }
            other => panic!("unexpected {:?}", other),
        },
        other => panic!("unexpected {:?}", other),
    }
    assert!(matches!(&stmts[1], AST::SetLocal { index: 2, value }
        if matches!(**value, AST::ConstFloat { value: FloatConst::Single(b) } if f32::from_bits(b) == 2.0)));
    assert!(matches!(&stmts[2], AST::SetLocal { index: 3, value }
        if matches!(&**value, AST::BasicCast { cast_type: VarType::Byte, value } if matches!(**value, AST::ConstInt { value: 7 }))));
    assert!(matches!(&stmts[3], AST::SetLocal { index: 4, value } if matches!(**value, AST::ArrayLength { .. })));
    assert!(matches!(stmts[4], AST::VoidReturn));
}

#[test]
fn unloadable_constant() {
    let p = pool(&[utf8("hi")], 2);
    let b = block(vec![Instruction::LoadConst { index: 1 }]);
    assert!(matches!(decompile_block(&b, &p), Err(DecompilerError::UnloadableConstant { index: 1 })));
}

#[test]
fn cast_names() {
    assert_eq!(VarType::Byte.cast_name(), Some("byte"));
    assert_eq!(VarType::Reference.cast_name(), None);
}

#[test]
fn class_names_are_shown_as_they_stand() {
    assert_eq!(javadec::ast::get_class_name("java/lang/String"), "java/lang/String");
}
