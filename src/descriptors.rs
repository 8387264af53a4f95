//! Field and method descriptors: `I`, `[Ljava/lang/String;`, `(IJ)V`.
use vstd::prelude::*;
use crate::mutf8::push_char;

verus! {

/// Why a descriptor could not be parsed.
#[derive(Debug, PartialEq, Eq)]
pub enum DescriptorParseError {
    /// The descriptor ended early.
    EOF,
    /// A character other than the one the grammar allows here.
    Expect { expected: String, got: char },
}

/// A field type, or `Void` in return position.
#[derive(Debug, PartialEq, Eq)]
pub enum FieldType {
    Void,
    Byte,
    Char,
    Double,
    Float,
    Int,
    Long,
    Short,
    Boolean,
    Reference { name: String },
    Array { inner: Box<FieldType> },
}

/// A field type with its class name as characters.
pub enum TypeDesc {
    Void,
    Byte,
    Char,
    Double,
    Float,
    Int,
    Long,
    Short,
    Boolean,
    Reference(Seq<char>),
    Array(Box<TypeDesc>),
}

pub enum DescError {
    Eof,
    Expect(Seq<char>, char),
}

pub open spec fn type_view(t: &FieldType) -> TypeDesc
    decreases t,
{
    match t {
        FieldType::Void => TypeDesc::Void,
        FieldType::Byte => TypeDesc::Byte,
        FieldType::Char => TypeDesc::Char,
        FieldType::Double => TypeDesc::Double,
        FieldType::Float => TypeDesc::Float,
        FieldType::Int => TypeDesc::Int,
        FieldType::Long => TypeDesc::Long,
        FieldType::Short => TypeDesc::Short,
        FieldType::Boolean => TypeDesc::Boolean,
        FieldType::Reference { name } => TypeDesc::Reference(name@),
        FieldType::Array { inner } => TypeDesc::Array(Box::new(type_view(inner))),
    }
}

impl View for FieldType {
    type V = TypeDesc;

    open spec fn view(&self) -> TypeDesc {
        type_view(self)
    }
}

impl View for DescriptorParseError {
    type V = DescError;

    open spec fn view(&self) -> DescError {
        match self {
            DescriptorParseError::EOF => DescError::Eof,
            DescriptorParseError::Expect { expected, got } => DescError::Expect(expected@, *got),
        }
    }
}

/// The index of the first `;` at or after `j`.
pub open spec fn semicolon_from(s: Seq<char>, j: int) -> Option<int>
    decreases s.len() - j,
{
    if j < 0 || j >= s.len() {
        None
    } else if s[j] == ';' {
        Some(j)
    } else {
        semicolon_from(s, j + 1)
    }
}

/// The primitive type that a single character names.
pub open spec fn primitive(c: char) -> Option<TypeDesc> {
    if c == 'B' {
        Some(TypeDesc::Byte)
    } else if c == 'C' {
        Some(TypeDesc::Char)
    } else if c == 'S' {
        Some(TypeDesc::Short)
    } else if c == 'Z' {
        Some(TypeDesc::Boolean)
    } else if c == 'J' {
        Some(TypeDesc::Long)
    } else if c == 'I' {
        Some(TypeDesc::Int)
    } else if c == 'D' {
        Some(TypeDesc::Double)
    } else if c == 'F' {
        Some(TypeDesc::Float)
    } else {
        None
    }
}

/// The field type that starts at `i`, and where what follows it starts.
pub open spec fn field_type_at(s: Seq<char>, i: int) -> Result<(TypeDesc, int), DescError>
    decreases s.len() - i,
{
    if i < 0 || i >= s.len() {
        Err(DescError::Eof)
    } else if primitive(s[i]) is Some {
        Ok((primitive(s[i])->Some_0, i + 1))
    } else if s[i] == 'L' {
        match semicolon_from(s, i + 1) {
            None => Err(DescError::Eof),
            Some(k) => Ok((TypeDesc::Reference(s.subrange(i + 1, k)), k + 1)),
        }
    } else if s[i] == '[' {
        match field_type_at(s, i + 1) {
            Ok((t, j)) => Ok((TypeDesc::Array(Box::new(t)), j)),
            Err(e) => Err(e),
        }
    } else {
        Err(DescError::Expect("field type"@, s[i]))
    }
}

/// The parameter types from `i` up to the closing `)`, and the index of that `)`.
pub open spec fn params_from(s: Seq<char>, i: int) -> Result<(Seq<TypeDesc>, int), DescError>
    decreases s.len() - i,
{
    if i < 0 || i >= s.len() {
        Err(DescError::Eof)
    } else if s[i] == ')' {
        Ok((seq![], i))
    } else {
        match field_type_at(s, i) {
            Err(e) => Err(e),
            Ok((t, j)) => if !(i < j <= s.len()) {
                // a field type is never empty
                Err(DescError::Eof)
            } else {
                match params_from(s, j) {
                    Err(e) => Err(e),
                    Ok((rest, k)) => Ok((seq![t] + rest, k)),
                }
            },
        }
    }
}

/// The return descriptor at `i`: `V` or a field type.
pub open spec fn return_at(s: Seq<char>, i: int) -> Result<(TypeDesc, int), DescError> {
    if i < 0 || i >= s.len() {
        Err(DescError::Eof)
    } else if s[i] == 'V' {
        Ok((TypeDesc::Void, i + 1))
    } else {
        field_type_at(s, i)
    }
}

/// The method descriptor at the start of `s`: parameters and return type. What follows
/// the return type is not read.
pub open spec fn method_desc(s: Seq<char>) -> Result<(Seq<TypeDesc>, TypeDesc), DescError> {
    if s.len() == 0 {
        Err(DescError::Eof)
    } else if s[0] != '(' {
        Err(DescError::Expect("("@, s[0]))
    } else {
        match params_from(s, 1) {
            Err(e) => Err(e),
            Ok((params, k)) => match return_at(s, k + 1) {
                Err(e) => Err(e),
                Ok((ret, _)) => Ok((params, ret)),
            },
        }
    }
}

/// The characters of a descriptor and how many of them have been read.
pub struct CharStream {
    pub chars: Vec<char>,
    pub pos: usize,
}

pub open spec fn is_eof<T>(r: Result<T, DescriptorParseError>) -> bool {
    r matches Err(e) && e@ == DescError::Eof
}

/// The next character, left unread.
fn peek(iter: &mut CharStream) -> (r: Result<char, DescriptorParseError>)
    ensures
        *final(iter) == *old(iter),
        old(iter).pos < old(iter).chars@.len() ==> r == Ok::<char, DescriptorParseError>(
            old(iter).chars@[old(iter).pos as int],
        ),
        old(iter).pos >= old(iter).chars@.len() ==> is_eof(r),
{
    if iter.pos < iter.chars.len() {
        Ok(iter.chars[iter.pos])
    } else {
        Err(DescriptorParseError::EOF)
    }
}

/// Reads past the next character.
fn consume(iter: &mut CharStream) -> (r: Result<(), DescriptorParseError>)
    ensures
        final(iter).chars@ == old(iter).chars@,
        old(iter).pos < old(iter).chars@.len() ==> r is Ok && final(iter).pos == old(iter).pos + 1,
        old(iter).pos >= old(iter).chars@.len() ==> is_eof(r),
{
    if iter.pos < iter.chars.len() {
        iter.pos = iter.pos + 1;
        Ok(())
    } else {
        Err(DescriptorParseError::EOF)
    }
}

/// A one-character string.
fn char_string(c: char) -> (r: String)
    ensures
        r@ == seq![c],
{
    let mut s = String::new();
    push_char(&mut s, c);
    s
}

/// Checks, without reading it, that the next character is `expected`.
fn expect(iter: &mut CharStream, expected: char) -> (r: Result<(), DescriptorParseError>)
    ensures
        *final(iter) == *old(iter),
        old(iter).pos >= old(iter).chars@.len() ==> is_eof(r),
        old(iter).pos < old(iter).chars@.len() ==> {
            let c = old(iter).chars@[old(iter).pos as int];
            &&& (c == expected ==> r is Ok)
            &&& (c != expected ==> (r matches Err(e) && e@ == DescError::Expect(seq![expected], c)))
        },
{
    let ch = peek(iter)?;
    if ch != expected {
        Err(DescriptorParseError::Expect { expected: char_string(expected), got: ch })
    } else {
        Ok(())
    }
}

/// Whether the next character, left unread, is `expected`.
fn accept(iter: &mut CharStream, expected: char) -> (r: Result<bool, DescriptorParseError>)
    ensures
        *final(iter) == *old(iter),
        old(iter).pos >= old(iter).chars@.len() ==> is_eof(r),
        old(iter).pos < old(iter).chars@.len() ==> r == Ok::<bool, DescriptorParseError>(
            old(iter).chars@[old(iter).pos as int] == expected,
        ),
{
    let next_ch = peek(iter)?;
    Ok(next_ch == expected)
}

/// Parses the field type at the stream's position.
fn parse_field_type(iter: &mut CharStream) -> (r: Result<FieldType, DescriptorParseError>)
    requires
        old(iter).pos <= old(iter).chars@.len(),
    ensures
        final(iter).chars@ == old(iter).chars@,
        match (r, field_type_at(old(iter).chars@, old(iter).pos as int)) {
            (Ok(t), Ok((m, j))) => t@ == m && final(iter).pos == j && old(iter).pos < j
                <= old(iter).chars@.len(),
            (Err(e), Err(e2)) => e@ == e2,
            _ => false,
        },
    decreases old(iter).chars@.len() - old(iter).pos,
{
    let ghost s = iter.chars@;
    let ghost i = iter.pos as int;
    let ch = peek(iter)?;
    let field_type = match ch {
        'B' => FieldType::Byte,
        'C' => FieldType::Char,
        'S' => FieldType::Short,
        'Z' => FieldType::Boolean,
        'J' => FieldType::Long,
        'I' => FieldType::Int,
        'D' => FieldType::Double,
        'F' => FieldType::Float,
        'L' => {
            let mut name = String::new();
            consume(iter)?;
            loop
                invariant
                    iter.chars@ == s,
                    s == old(iter).chars@,
                    i == old(iter).pos as int,
                    0 <= i,
                    i + 1 <= iter.pos <= s.len(),
                    name@ == s.subrange(i + 1, iter.pos as int),
                    semicolon_from(s, i + 1) == semicolon_from(s, iter.pos as int),
                    s[i] == 'L',
                    field_type_at(s, i) == (match semicolon_from(s, i + 1) {
                        None => Err(DescError::Eof),
                        Some(k) => Ok((TypeDesc::Reference(s.subrange(i + 1, k)), k + 1)),
                    }),
                ensures
                    iter.chars@ == s,
                    i + 1 <= iter.pos < s.len(),
                    s[iter.pos as int] == ';',
                    name@ == s.subrange(i + 1, iter.pos as int),
                    semicolon_from(s, i + 1) == Some(iter.pos as int),
                decreases s.len() - iter.pos,
            {
                let c = peek(iter)?;
                if c == ';' {
                    break;
                }
                push_char(&mut name, c);
                consume(iter)?;
                assert(name@ =~= s.subrange(i + 1, iter.pos as int));
            }
            consume(iter)?;
            return Ok(FieldType::Reference { name });
        },
        '[' => {
            consume(iter)?;
            let inner = parse_field_type(iter)?;
            return Ok(FieldType::Array { inner: Box::new(inner) });
        },
        _ => {
            return Err(
                DescriptorParseError::Expect { expected: String::from_str("field type"), got: ch },
            );
        },
    };
    consume(iter)?;
    Ok(field_type)
}

/// Parses a return descriptor: `V` or a field type.
fn parse_return_desc(iter: &mut CharStream) -> (r: Result<FieldType, DescriptorParseError>)
    requires
        old(iter).pos <= old(iter).chars@.len(),
    ensures
        final(iter).chars@ == old(iter).chars@,
        match (r, return_at(old(iter).chars@, old(iter).pos as int)) {
            (Ok(t), Ok((m, j))) => t@ == m && final(iter).pos == j,
            (Err(e), Err(e2)) => e@ == e2,
            _ => false,
        },
{
    if accept(iter, 'V')? {
        consume(iter)?;
        Ok(FieldType::Void)
    } else {
        parse_field_type(iter)
    }
}

/// The characters of `s`, in order.
fn chars_of(s: &str) -> (r: Vec<char>)
    ensures
        r@ == s@,
{
    let n = s.unicode_len();
    let mut v: Vec<char> = Vec::new();
    let mut i: usize = 0;
    while i < n
        invariant
            n == s@.len(),
            i <= n,
            v@ == s@.take(i as int),
        decreases n - i,
    {
        v.push(s.get_char(i));
        i = i + 1;
        assert(v@ =~= s@.take(i as int));
    }
    assert(s@.take(n as int) =~= s@);
    v
}

/// `prefix` followed by the outcome `r`.
pub open spec fn then_params(prefix: Seq<TypeDesc>, r: Result<(Seq<TypeDesc>, int), DescError>) -> Result<(Seq<TypeDesc>, int), DescError> {
    match r {
        Ok((rest, k)) => Ok((prefix + rest, k)),
        Err(e) => Err(e),
    }
}

/// Parses a method descriptor into its parameter types and its return type.
pub fn parse_method(desc: &str) -> (r: Result<(Vec<FieldType>, FieldType), DescriptorParseError>)
    ensures
        match (r, method_desc(desc@)) {
            (Ok((ps, t)), Ok((mps, mt))) => ps@.map_values(|p: FieldType| p@) == mps && t@ == mt,
            (Err(e), Err(e2)) => e@ == e2,
            _ => false,
        },
{
    let mut iter = CharStream { chars: chars_of(desc), pos: 0 };
    let ghost s = iter.chars@;
    proof {
        reveal_strlit("(");
        assert("("@ =~= seq!['(']);
    }
    expect(&mut iter, '(')?;
    consume(&mut iter)?;
    let mut params: Vec<FieldType> = Vec::new();
    while peek(&mut iter)? != ')'
        invariant
            iter.chars@ == s,
            s == desc@,
            1 <= iter.pos <= s.len(),
            s[0] == '(',
            params_from(s, 1) == then_params(params@.map_values(|p: FieldType| p@), params_from(s, iter.pos as int)),
        decreases s.len() - iter.pos,
    {
        let ghost before = params@.map_values(|p: FieldType| p@);
        let t = parse_field_type(&mut iter)?;
        let ghost tv = t@;
        params.push(t);
        proof {
            assert(params@.map_values(|p: FieldType| p@) =~= before.push(tv));
            let rest = params_from(s, iter.pos as int);
            if rest is Ok {
                assert(before + (seq![tv] + rest->Ok_0.0) =~= before.push(tv) + rest->Ok_0.0);
            }
        }
    }
    proof {
        assert(params@.map_values(|p: FieldType| p@) + seq![] =~= params@.map_values(|p: FieldType| p@));
    }
    expect(&mut iter, ')')?;
    consume(&mut iter)?;
    let return_desc = parse_return_desc(&mut iter)?;
    Ok((params, return_desc))
}

} // verus!
