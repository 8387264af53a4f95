//! The expression trees that the block executor builds.
use vstd::prelude::*;
use crate::constant_pool::{ConstClassData, ConstFieldData, ConstMethodData};

verus! {

/// The operand-stack category of a value.
#[derive(Debug, Clone, Copy, PartialEq, Eq)]
pub enum VarType {
    Reference,
    Int,
    Float,
    Long,
    Double,
    Byte,
}

impl VarType {
    /// The Java name of the type, as used in a cast; a reference has none.
    pub fn cast_name(&self) -> (r: Option<&'static str>)
        ensures
            r is None <==> *self == VarType::Reference,
            r matches Some(s) ==> s@ == cast_name_of(*self),
    {
        match self {
            VarType::Reference => None,
            VarType::Int => Some("int"),
            VarType::Float => Some("float"),
            VarType::Double => Some("double"),
            VarType::Long => Some("long"),
            VarType::Byte => Some("byte"),
        }
    }
}

/// The Java name of each primitive stack type.
pub open spec fn cast_name_of(t: VarType) -> Seq<char> {
    match t {
        VarType::Int => "int"@,
        VarType::Float => "float"@,
        VarType::Double => "double"@,
        VarType::Long => "long"@,
        VarType::Byte => "byte"@,
        VarType::Reference => seq![],
    }
}

/// The name under which a class is shown: its internal name as it stands.
pub fn get_class_name(raw_name: &str) -> (r: String)
    ensures
        r@ == raw_name@,
{
    String::from_str(raw_name)
}

/// A floating-point constant, by its IEEE-754 bits.
#[derive(Debug, Clone, Copy, PartialEq, Eq)]
pub enum FloatConst {
    Single(u32),
    Double(u64),
}

/// A node of a block's expression trees: a value on the operand stack, or a statement.
#[derive(Debug)]
pub enum AST {
    BasicCast { value: Box<AST>, cast_type: VarType },
    ClassCast { value: Box<AST>, cast_type: ConstClassData },
    Static { field_data: ConstFieldData },
    Variable { index: u16, vartype: VarType },
    Call { method_data: ConstMethodData, reference: Box<AST>, args: Vec<AST> },
    ArrayLength { reference: Box<AST> },
    ConstInt { value: i64 },
    ConstFloat { value: FloatConst },
    ConstString { value: String },
    VoidReturn,
    SetLocal { index: u16, value: Box<AST> },
    Mul { lhs: Box<AST>, rhs: Box<AST> },
}

/// Class, name and descriptor of a member.
pub type MemberRef = (Seq<char>, (Seq<char>, Seq<char>));

/// What a node holds, with text as characters.
pub enum AstView {
    BasicCast(Box<AstView>, VarType),
    ClassCast(Box<AstView>, Seq<char>),
    Static(MemberRef),
    Variable(u16, VarType),
    Call((MemberRef, bool), Box<AstView>, Seq<AstView>),
    ArrayLength(Box<AstView>),
    ConstInt(i64),
    ConstFloat(FloatConst),
    ConstString(Seq<char>),
    VoidReturn,
    SetLocal(u16, Box<AstView>),
    Mul(Box<AstView>, Box<AstView>),
}

pub open spec fn ast_view(a: AST) -> AstView
    decreases a, 0int,
{
    match a {
        AST::BasicCast { value, cast_type } => AstView::BasicCast(Box::new(ast_view(*value)), cast_type),
        AST::ClassCast { value, cast_type } => AstView::ClassCast(Box::new(ast_view(*value)), cast_type.name@),
        AST::Static { field_data } => AstView::Static(field_data.triple()),
        AST::Variable { index, vartype } => AstView::Variable(index, vartype),
        AST::Call { method_data, reference, args } => AstView::Call(
            (method_data.triple(), method_data.is_interface),
            Box::new(ast_view(*reference)),
            asts_view(args@, args@.len() as int),
        ),
        AST::ArrayLength { reference } => AstView::ArrayLength(Box::new(ast_view(*reference))),
        AST::ConstInt { value } => AstView::ConstInt(value),
        AST::ConstFloat { value } => AstView::ConstFloat(value),
        AST::ConstString { value } => AstView::ConstString(value@),
        AST::VoidReturn => AstView::VoidReturn,
        AST::SetLocal { index, value } => AstView::SetLocal(index, Box::new(ast_view(*value))),
        AST::Mul { lhs, rhs } => AstView::Mul(Box::new(ast_view(*lhs)), Box::new(ast_view(*rhs))),
    }
}

/// The models of the first `n` nodes of `s`.
pub open spec fn asts_view(s: Seq<AST>, n: int) -> Seq<AstView>
    decreases s, n,
{
    if n <= 0 || n > s.len() {
        seq![]
    } else {
        asts_view(s, n - 1).push(ast_view(s[n - 1]))
    }
}

/// The models of all the nodes of `s`.
pub open spec fn all_views(s: Seq<AST>) -> Seq<AstView> {
    asts_view(s, s.len() as int)
}

impl View for AST {
    type V = AstView;

    open spec fn view(&self) -> AstView {
        ast_view(*self)
    }
}

pub proof fn lemma_asts_view_prefix(a: Seq<AST>, b: Seq<AST>, n: int)
    requires
        0 <= n <= a.len(),
        n <= b.len(),
        forall|i: int| 0 <= i < n ==> a[i] == b[i],
    ensures
        asts_view(a, n) == asts_view(b, n),
    decreases n,
{
    if n > 0 {
        lemma_asts_view_prefix(a, b, n - 1);
    }
}

pub proof fn lemma_asts_view_len(a: Seq<AST>, n: int)
    requires
        0 <= n <= a.len(),
    ensures
        asts_view(a, n).len() == n,
    decreases n,
{
    if n > 0 {
        lemma_asts_view_len(a, n - 1);
    }
}

pub proof fn lemma_views_index(a: Seq<AST>, n: int, i: int)
    requires
        0 <= i < n <= a.len(),
    ensures
        asts_view(a, n)[i] == ast_view(a[i]),
    decreases n,
{
    lemma_asts_view_len(a, n - 1);
    if i < n - 1 {
        lemma_views_index(a, n - 1, i);
    }
}

/// The models of a sequence, one for each of its nodes.
pub proof fn lemma_all_views(a: Seq<AST>)
    ensures
        all_views(a).len() == a.len(),
        forall|i: int| 0 <= i < a.len() ==> #[trigger] all_views(a)[i] == ast_view(a[i]),
{
    lemma_asts_view_len(a, a.len() as int);
    assert forall|i: int| 0 <= i < a.len() implies #[trigger] all_views(a)[i] == ast_view(a[i]) by {
        lemma_views_index(a, a.len() as int, i);
    }
}

/// Pushing a node adds its model at the end; popping removes the last.
pub proof fn lemma_views_push(a: Seq<AST>, x: AST)
    ensures
        all_views(a.push(x)) == all_views(a).push(ast_view(x)),
        all_views(a).len() == a.len(),
{
    lemma_asts_view_prefix(a, a.push(x), a.len() as int);
    lemma_asts_view_len(a, a.len() as int);
}

} // verus!
