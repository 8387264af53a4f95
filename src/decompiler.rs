//! Errors of the disassembler, the control-flow graph builder and the block executor.
use vstd::prelude::*;
use crate::bytes::ClassFileError;
use crate::descriptors::{method_desc, parse_method, DescError, DescriptorParseError, FieldType};
use crate::ast::{all_views, lemma_all_views, lemma_views_push, AstView, FloatConst, VarType, AST};
use crate::cfg::Block;
use crate::constant_pool::{
    class_at, entry_at, field_at, method_at, utf8_at, ConstantPool, ConstantPoolInfo, PoolEntry,
    PoolView,
};
use crate::disassembler::Instruction;

verus! {

#[derive(Debug)]
pub enum DecompilerError {
    /// An opcode that the instruction set does not define.
    UnknownInstr { instruction: u8 },
    /// The code ends inside an instruction.
    EndOfCode,
    Read,
    /// A `newarray` element tag outside 4..=11.
    UnknownArrayType { type_id: u8 },
    /// Values left on the operand stack at the end of a block.
    StackSize { size: usize },
    ClassFileError { error: ClassFileError },
    DescriptorParsing { error: DescriptorParseError },
    /// A value was needed but the operand stack was empty.
    EmptyStack,
    /// An opcode that the block executor does not model.
    UnimplementedInstruction { pc: u64 },
    /// A branch whose target is not the start of an instruction.
    InvalidBranchTarget { target: u64 },
    /// A constant-pool entry that `ldc` cannot push.
    UnloadableConstant { index: u16 },
}


/// An error of the block executor, with a descriptor error given by its model.
pub enum StepError {
    Plain(DecompilerError),
    Descriptor(DescError),
}

pub open spec fn error_matches(e: DecompilerError, s: StepError) -> bool {
    match s {
        StepError::Plain(x) => e == x,
        StepError::Descriptor(d) => match e {
            DecompilerError::DescriptorParsing { error } => error@ == d,
            _ => false,
        },
    }
}

/// The operand stack and the statements produced so far.
pub type Machine = (Seq<AstView>, Seq<AstView>);

pub open spec fn pool_error() -> StepError {
    StepError::Plain(DecompilerError::ClassFileError { error: ClassFileError::InvalidCPEntry })
}

pub open spec fn push(m: Machine, v: AstView) -> Result<Machine, StepError> {
    Ok((m.0.push(v), m.1))
}

pub open spec fn emit(m: Machine, v: AstView) -> Result<Machine, StepError> {
    Ok((m.0, m.1.push(v)))
}

/// Pops one value and pushes what `f` makes of it.
pub open spec fn unary(m: Machine, f: spec_fn(AstView) -> AstView) -> Result<Machine, StepError> {
    if m.0.len() == 0 {
        Err(StepError::Plain(DecompilerError::EmptyStack))
    } else {
        Ok((m.0.drop_last().push(f(m.0.last())), m.1))
    }
}

/// Pops one value and stores it in local `index`.
pub open spec fn store(m: Machine, index: u16) -> Result<Machine, StepError> {
    if m.0.len() == 0 {
        Err(StepError::Plain(DecompilerError::EmptyStack))
    } else {
        Ok((m.0.drop_last(), m.1.push(AstView::SetLocal(index, Box::new(m.0.last())))))
    }
}

/// `invokevirtual` / `invokespecial` of the method at `index`: its arguments and receiver
/// come off the stack, and the call is a statement when it returns nothing.
pub open spec fn invoke(pool: PoolView, m: Machine, index: u16) -> Result<Machine, StepError> {
    match method_at(pool, index as int) {
        None => Err(pool_error()),
        Some(md) => match method_desc(md.0.1.1) {
            Err(d) => Err(StepError::Descriptor(d)),
            Ok((params, ret)) => {
                let len = m.0.len() as int;
                let n = params.len() as int;
                if len < n + 1 {
                    Err(StepError::Plain(DecompilerError::EmptyStack))
                } else {
                    let call = AstView::Call(
                        md,
                        Box::new(m.0[len - n - 1]),
                        m.0.subrange(len - n, len),
                    );
                    let rest = m.0.subrange(0, len - n - 1);
                    if ret is Void {
                        Ok((rest, m.1.push(call)))
                    } else {
                        Ok((rest.push(call), m.1))
                    }
                }
            },
        },
    }
}

/// `ldc` of the pool entry at `index`.
pub open spec fn load_const(pool: PoolView, m: Machine, index: u16) -> Result<Machine, StepError> {
    match entry_at(pool, index as int) {
        None => Err(pool_error()),
        Some(PoolEntry::String { string_index }) => match utf8_at(pool, string_index as int) {
            None => Err(pool_error()),
            Some(s) => push(m, AstView::ConstString(s)),
        },
        Some(PoolEntry::Long { data }) => push(m, AstView::ConstInt(data)),
        Some(PoolEntry::Integer { data }) => push(m, AstView::ConstInt(data as i64)),
        Some(PoolEntry::Double { bits }) => push(m, AstView::ConstFloat(FloatConst::Double(bits))),
        Some(PoolEntry::Float { bits }) => push(m, AstView::ConstFloat(FloatConst::Single(bits))),
        _ => Err(StepError::Plain(DecompilerError::UnloadableConstant { index })),
    }
}

/// The effect of the instruction `i` at `pc`.
pub open spec fn step(pool: PoolView, m: Machine, pc: u64, i: Instruction) -> Result<Machine, StepError> {
    match i {
        Instruction::ILoad { index } => push(m, AstView::Variable(index, VarType::Int)),
        Instruction::LLoad { index } => push(m, AstView::Variable(index, VarType::Long)),
        Instruction::FLoad { index } => push(m, AstView::Variable(index, VarType::Float)),
        Instruction::DLoad { index } => push(m, AstView::Variable(index, VarType::Double)),
        Instruction::ALoad { index } => push(m, AstView::Variable(index, VarType::Reference)),
        Instruction::IStore { index } | Instruction::LStore { index } | Instruction::FStore { index }
        | Instruction::DStore { index } | Instruction::AStore { index } => store(m, index),
        Instruction::IConst { value } => push(m, AstView::ConstInt(value as i64)),
        Instruction::LConst { value } => push(m, AstView::ConstInt(value)),
        Instruction::BIPush { value } => push(m, AstView::ConstInt(value as i64)),
        Instruction::SIPush { value } => push(m, AstView::ConstInt(value as i64)),
        Instruction::FConst { bits } => push(m, AstView::ConstFloat(FloatConst::Single(bits))),
        Instruction::DConst { bits } => push(m, AstView::ConstFloat(FloatConst::Double(bits))),
        Instruction::LoadConst { index } => load_const(pool, m, index),
        Instruction::GetStatic { index } => match field_at(pool, index as int) {
            None => Err(pool_error()),
            Some(f) => push(m, AstView::Static(f)),
        },
        Instruction::ArrayLength => unary(m, |v: AstView| AstView::ArrayLength(Box::new(v))),
        Instruction::InvokeVirtual { index } | Instruction::InvokeSpecial { index } => invoke(pool, m, index),
        Instruction::IMul => if m.0.len() < 2 {
            Err(StepError::Plain(DecompilerError::EmptyStack))
        } else {
            let len = m.0.len() as int;
            Ok(
                (
                    m.0.subrange(0, len - 2).push(AstView::Mul(Box::new(m.0[len - 2]), Box::new(m.0[len - 1]))),
                    m.1,
                ),
            )
        },
        Instruction::I2b => unary(m, |v: AstView| AstView::BasicCast(Box::new(v), VarType::Byte)),
        Instruction::CheckCast { index } => match class_at(pool, index as int) {
            None => Err(pool_error()),
            Some(c) => unary(m, |v: AstView| AstView::ClassCast(Box::new(v), c)),
        },
        Instruction::Return => emit(m, AstView::VoidReturn),
        _ => Err(StepError::Plain(DecompilerError::UnimplementedInstruction { pc })),
    }
}

/// The machine after the instructions from `k` on.
pub open spec fn run(pool: PoolView, instrs: Seq<(u64, Instruction)>, k: int, m: Machine) -> Result<Machine, StepError>
    decreases instrs.len() - k,
{
    if k < 0 || k >= instrs.len() {
        Ok(m)
    } else {
        match step(pool, m, instrs[k].0, instrs[k].1) {
            Err(e) => Err(e),
            Ok(m2) => run(pool, instrs, k + 1, m2),
        }
    }
}

/// The statements of a block, which must leave the operand stack empty.
pub open spec fn block_spec(pool: PoolView, instrs: Seq<(u64, Instruction)>) -> Result<Seq<AstView>, StepError> {
    match run(pool, instrs, 0, (seq![], seq![])) {
        Err(e) => Err(e),
        Ok((stack, stmts)) => if stack.len() > 0 {
            Err(StepError::Plain(DecompilerError::StackSize { size: stack.len() as usize }))
        } else {
            Ok(stmts)
        },
    }
}

fn pool_failure() -> (r: DecompilerError)
    ensures
        error_matches(r, pool_error()),
{
    DecompilerError::ClassFileError { error: ClassFileError::InvalidCPEntry }
}

fn pop_value(stack: &mut Vec<AST>) -> (r: Result<AST, DecompilerError>)
    ensures
        old(stack)@.len() == 0 ==> r is Err && error_matches(r->Err_0, StepError::Plain(DecompilerError::EmptyStack))
            && final(stack)@ == old(stack)@,
        old(stack)@.len() > 0 ==> r == Ok::<AST, DecompilerError>(old(stack)@.last())
            && final(stack)@ == old(stack)@.drop_last(),
{
    match stack.pop() {
        Some(v) => Ok(v),
        None => Err(DecompilerError::EmptyStack),
    }
}

proof fn lemma_views_pop(a: Seq<AST>)
    requires
        a.len() > 0,
    ensures
        all_views(a.drop_last()) == all_views(a).drop_last(),
        all_views(a).last() == a.last()@,
{
    lemma_all_views(a);
    lemma_all_views(a.drop_last());
    assert(all_views(a.drop_last()) =~= all_views(a).drop_last());
}

proof fn lemma_views_split(a: Seq<AST>, k: int)
    requires
        0 <= k <= a.len(),
    ensures
        all_views(a.subrange(0, k)) == all_views(a).subrange(0, k),
        all_views(a.subrange(k, a.len() as int)) == all_views(a).subrange(k, a.len() as int),
{
    lemma_all_views(a);
    lemma_all_views(a.subrange(0, k));
    lemma_all_views(a.subrange(k, a.len() as int));
    assert(all_views(a.subrange(0, k)) =~= all_views(a).subrange(0, k));
    assert(all_views(a.subrange(k, a.len() as int)) =~= all_views(a).subrange(k, a.len() as int));
}

fn invoke_method(
    stack: &mut Vec<AST>,
    statements: &mut Vec<AST>,
    constant_pool: &ConstantPool,
    index: u16,
) -> (r: Result<(), DecompilerError>)
    ensures
        match (r, invoke(constant_pool@, (all_views(old(stack)@), all_views(old(statements)@)), index)) {
            (Ok(_), Ok(m)) => m == (all_views(final(stack)@), all_views(final(statements)@)),
            (Err(e), Err(s)) => error_matches(e, s),
            _ => false,
        },
{
    let ghost sv = all_views(stack@);
    let method = match constant_pool.get_method_or_interface_entry(index) {
        Ok(m) => m,
        Err(_) => return Err(pool_failure()),
    };
    let descriptor = match parse_method(method.name_and_type.descriptor.as_str()) {
        Ok(d) => d,
        Err(error) => return Err(DecompilerError::DescriptorParsing { error }),
    };
    let n = descriptor.0.len();
    proof {
        lemma_all_views(stack@);
        assert(descriptor.0@.map_values(|p: FieldType| p@).len() == n);
    }
    if stack.len() < n || stack.len() - n < 1 {
        return Err(DecompilerError::EmptyStack);
    }
    let ghost s0 = stack@;
    let args = stack.split_off(stack.len() - n);
    let reference = Box::new(match stack.pop() {
        Some(v) => v,
        None => return Err(DecompilerError::EmptyStack),
    });
    proof {
        let len = s0.len() as int;
        lemma_views_split(s0, len - n);
        lemma_views_split(s0, len - n - 1);
        lemma_all_views(s0);
        assert(s0.subrange(0, len - n - 1) =~= stack@);
        assert(all_views(s0.subrange(0, len - n)).subrange(0, len - n - 1) =~= sv.subrange(0, len - n - 1));
    }
    let call = AST::Call { method_data: method, reference, args };
    match descriptor.1 {
        FieldType::Void => {
            proof {
                lemma_views_push(statements@, call);
            }
            statements.push(call);
        },
        _ => {
            proof {
                lemma_views_push(stack@, call);
            }
            stack.push(call);
        },
    }
    Ok(())
}


/// Runs one instruction on the operand stack and the statements.
fn exec_step(
    stack: &mut Vec<AST>,
    statements: &mut Vec<AST>,
    constant_pool: &ConstantPool,
    pc: u64,
    instr: &Instruction,
) -> (r: Result<(), DecompilerError>)
    ensures
        match (r, step(constant_pool@, (all_views(old(stack)@), all_views(old(statements)@)), pc, *instr)) {
            (Ok(_), Ok(m)) => m == (all_views(final(stack)@), all_views(final(statements)@)),
            (Err(e), Err(s)) => error_matches(e, s),
            _ => false,
        },
{
    let ghost s0 = stack@;
    proof {
        lemma_all_views(s0);
        if s0.len() > 0 {
            lemma_views_pop(s0);
        }
    }
    match instr {
        Instruction::ILoad { index } => push_node(stack, AST::Variable { index: *index, vartype: VarType::Int }),
        Instruction::LLoad { index } => push_node(stack, AST::Variable { index: *index, vartype: VarType::Long }),
        Instruction::FLoad { index } => push_node(stack, AST::Variable { index: *index, vartype: VarType::Float }),
        Instruction::DLoad { index } => push_node(stack, AST::Variable { index: *index, vartype: VarType::Double }),
        Instruction::ALoad { index } => push_node(stack, AST::Variable { index: *index, vartype: VarType::Reference }),
        Instruction::IStore { index } | Instruction::LStore { index } | Instruction::FStore { index }
        | Instruction::DStore { index } | Instruction::AStore { index } => {
            match pop_value(stack) {
                Ok(v) => {
                    push_node(statements, AST::SetLocal { index: *index, value: Box::new(v) })
                },
                Err(e) => Err(e),
            }
        },
        Instruction::IConst { value } => push_node(stack, AST::ConstInt { value: *value as i64 }),
        Instruction::LConst { value } => push_node(stack, AST::ConstInt { value: *value }),
        Instruction::BIPush { value } => push_node(stack, AST::ConstInt { value: *value as i64 }),
        Instruction::SIPush { value } => push_node(stack, AST::ConstInt { value: *value as i64 }),
        Instruction::FConst { bits } => push_node(stack, AST::ConstFloat { value: FloatConst::Single(*bits) }),
        Instruction::DConst { bits } => push_node(stack, AST::ConstFloat { value: FloatConst::Double(*bits) }),
        Instruction::LoadConst { index } => match constant_pool.get_entry(*index) {
            Err(_) => Err(pool_failure()),
            Ok(ConstantPoolInfo::String { string_index }) => match constant_pool.get_utf8_entry(string_index) {
                Ok(value) => push_node(stack, AST::ConstString { value }),
                Err(_) => Err(pool_failure()),
            },
            Ok(ConstantPoolInfo::Long { data }) => push_node(stack, AST::ConstInt { value: data }),
            Ok(ConstantPoolInfo::Integer { data }) => push_node(stack, AST::ConstInt { value: data as i64 }),
            Ok(ConstantPoolInfo::Double { bits }) => push_node(stack, AST::ConstFloat { value: FloatConst::Double(bits) }),
            Ok(ConstantPoolInfo::Float { bits }) => push_node(stack, AST::ConstFloat { value: FloatConst::Single(bits) }),
            Ok(_) => Err(DecompilerError::UnloadableConstant { index: *index }),
        },
        Instruction::GetStatic { index } => match constant_pool.get_field_entry(*index) {
            Ok(field_data) => push_node(stack, AST::Static { field_data }),
            Err(_) => Err(pool_failure()),
        },
        Instruction::ArrayLength => match pop_value(stack) {
            Ok(v) => {
                push_node(stack, AST::ArrayLength { reference: Box::new(v) })
            },
            Err(e) => Err(e),
        },
        Instruction::InvokeVirtual { index } | Instruction::InvokeSpecial { index } => invoke_method(
            stack,
            statements,
            constant_pool,
            *index,
        ),
        Instruction::IMul => {
            if stack.len() < 2 {
                Err(DecompilerError::EmptyStack)
            } else {
                let ghost s0 = stack@;
                let rhs = match pop_value(stack) {
                    Ok(v) => v,
                    Err(e) => return Err(e),
                };
                let lhs = match pop_value(stack) {
                    Ok(v) => v,
                    Err(e) => return Err(e),
                };
                proof {
                    lemma_views_split(s0, s0.len() - 2);
                    lemma_all_views(s0);
                    assert(stack@ =~= s0.subrange(0, s0.len() - 2));
                }
                push_node(stack, AST::Mul { lhs: Box::new(lhs), rhs: Box::new(rhs) })
            }
        },
        Instruction::I2b => match pop_value(stack) {
            Ok(v) => {
                push_node(stack, AST::BasicCast { value: Box::new(v), cast_type: VarType::Byte })
            },
            Err(e) => Err(e),
        },
        Instruction::CheckCast { index } => match constant_pool.get_class_entry(*index) {
            Ok(cast_type) => match pop_value(stack) {
                Ok(v) => {
                    push_node(stack, AST::ClassCast { value: Box::new(v), cast_type })
                },
                Err(e) => Err(e),
            },
            Err(_) => Err(pool_failure()),
        },
        Instruction::Return => push_node(statements, AST::VoidReturn),
        _ => Err(DecompilerError::UnimplementedInstruction { pc }),
    }
}

/// Runs one block symbolically and returns its statements.
pub fn decompile_block(block: &Block, constant_pool: &ConstantPool) -> (r: Result<Vec<AST>, DecompilerError>)
    ensures
        match (r, block_spec(constant_pool@, block.instructions@)) {
            (Ok(v), Ok(s)) => all_views(v@) == s,
            (Err(e), Err(s)) => error_matches(e, s),
            _ => false,
        },
{
    let ghost pool = constant_pool@;
    let ghost instrs = block.instructions@;
    let mut statements: Vec<AST> = Vec::new();
    let mut stack: Vec<AST> = Vec::new();
    let mut k: usize = 0;
    proof {
        assert(all_views(stack@) =~= seq![]);
        assert(all_views(statements@) =~= seq![]);
    }
    while k < block.instructions.len()
        invariant
            instrs == block.instructions@,
            pool == constant_pool@,
            k <= instrs.len(),
            run(pool, instrs, 0, (seq![], seq![])) == run(pool, instrs, k as int, (all_views(stack@), all_views(statements@))),
        decreases instrs.len() - k,
    {
        let pc = block.instructions[k].0;
        let step_result = exec_step(&mut stack, &mut statements, constant_pool, pc, &block.instructions[k].1);
        match step_result {
            Ok(()) => {},
            Err(e) => {
                return Err(e);
            },
        }
        k = k + 1;
    }
    if stack.len() != 0 {
        proof {
            lemma_all_views(stack@);
        }
        return Err(DecompilerError::StackSize { size: stack.len() });
    }
    proof {
        lemma_all_views(stack@);
    }
    Ok(statements)
}


fn push_node(v: &mut Vec<AST>, x: AST) -> (r: Result<(), DecompilerError>)
    ensures
        r is Ok,
        final(v)@ == old(v)@.push(x),
        all_views(final(v)@) == all_views(old(v)@).push(x@),
{
    proof {
        lemma_views_push(v@, x);
    }
    v.push(x);
    Ok(())
}

} // verus!
