//! The class-file container: header, constant pool, flags, members and attributes.
use vstd::prelude::*;
use vstd::slice::{slice_subrange, slice_to_vec};
use crate::bytes::{present, be16, be32, read_u8, read_u16, read_u32, ClassFileError};
use crate::constant_pool::{
    lemma_pool_spec_prefix, pool_spec, read_constant_pool, utf8_at, ConstantPool, PoolView,
};

verus! {

#[derive(Debug, Clone, Copy, PartialEq, Eq)]
pub struct ClassAccessFlags {
    pub acc_public: bool,
    pub acc_final: bool,
    pub acc_super: bool,
    pub acc_interface: bool,
    pub acc_abstract: bool,
    pub acc_synthetic: bool,
    pub acc_annotation: bool,
    pub acc_enum: bool,
}

#[derive(Debug, Clone, Copy, PartialEq, Eq)]
pub struct FieldAccessFlags {
    pub acc_public: bool,
    pub acc_private: bool,
    pub acc_protected: bool,
    pub acc_static: bool,
    pub acc_final: bool,
    pub acc_volatile: bool,
    pub acc_transient: bool,
    pub acc_synthetic: bool,
    pub acc_enum: bool,
}

#[derive(Debug, Clone, Copy, PartialEq, Eq)]
pub struct MethodAccessFlags {
    pub acc_public: bool,
    pub acc_private: bool,
    pub acc_protected: bool,
    pub acc_static: bool,
    pub acc_final: bool,
    pub acc_synchronized: bool,
    pub acc_bridge: bool,
    pub acc_varargs: bool,
    pub acc_native: bool,
    pub acc_abstract: bool,
    pub acc_strict: bool,
    pub acc_synthetic: bool,
}

pub open spec fn class_flags(f: u16) -> ClassAccessFlags {
    ClassAccessFlags {
        acc_public: f & 0x0001 > 0,
        acc_final: f & 0x0010 > 0,
        acc_super: f & 0x0020 > 0,
        acc_interface: f & 0x0200 > 0,
        acc_abstract: f & 0x0400 > 0,
        acc_synthetic: f & 0x1000 > 0,
        acc_annotation: f & 0x2000 > 0,
        acc_enum: f & 0x4000 > 0,
    }
}

pub open spec fn field_flags(f: u16) -> FieldAccessFlags {
    FieldAccessFlags {
        acc_public: f & 0x0001 > 0,
        acc_private: f & 0x0002 > 0,
        acc_protected: f & 0x0004 > 0,
        acc_static: f & 0x0008 > 0,
        acc_final: f & 0x0010 > 0,
        acc_volatile: f & 0x0040 > 0,
        acc_transient: f & 0x0080 > 0,
        acc_synthetic: f & 0x1000 > 0,
        acc_enum: f & 0x4000 > 0,
    }
}

pub open spec fn method_flags(f: u16) -> MethodAccessFlags {
    MethodAccessFlags {
        acc_public: f & 0x0001 > 0,
        acc_private: f & 0x0002 > 0,
        acc_protected: f & 0x0004 > 0,
        acc_static: f & 0x0008 > 0,
        acc_final: f & 0x0010 > 0,
        acc_synchronized: f & 0x0020 > 0,
        acc_bridge: f & 0x0040 > 0,
        acc_varargs: f & 0x0080 > 0,
        acc_native: f & 0x0100 > 0,
        acc_abstract: f & 0x0400 > 0,
        acc_strict: f & 0x0800 > 0,
        acc_synthetic: f & 0x1000 > 0,
    }
}

fn read_class_access_flags(data: &[u8], pos: &mut usize) -> (r: Result<ClassAccessFlags, ClassFileError>)
    ensures
        present(data@, *old(pos) as int, 2) ==> r == Ok::<ClassAccessFlags, ClassFileError>(
            class_flags(be16(data@, *old(pos) as int) as u16),
        ) && *final(pos) == *old(pos) + 2,
        !present(data@, *old(pos) as int, 2) ==> r == Err::<ClassAccessFlags, ClassFileError>(
            ClassFileError::EndOfFile,
        ),
{
    let flags = read_u16(data, pos)?;
    Ok(
        ClassAccessFlags {
            acc_public: flags & 0x0001 > 0,
            acc_final: flags & 0x0010 > 0,
            acc_super: flags & 0x0020 > 0,
            acc_interface: flags & 0x0200 > 0,
            acc_abstract: flags & 0x0400 > 0,
            acc_synthetic: flags & 0x1000 > 0,
            acc_annotation: flags & 0x2000 > 0,
            acc_enum: flags & 0x4000 > 0,
        },
    )
}

fn read_field_access_flags(data: &[u8], pos: &mut usize) -> (r: Result<FieldAccessFlags, ClassFileError>)
    ensures
        present(data@, *old(pos) as int, 2) ==> r == Ok::<FieldAccessFlags, ClassFileError>(
            field_flags(be16(data@, *old(pos) as int) as u16),
        ) && *final(pos) == *old(pos) + 2,
        !present(data@, *old(pos) as int, 2) ==> r == Err::<FieldAccessFlags, ClassFileError>(
            ClassFileError::EndOfFile,
        ),
{
    let flags = read_u16(data, pos)?;
    Ok(
        FieldAccessFlags {
            acc_public: flags & 0x0001 > 0,
            acc_private: flags & 0x0002 > 0,
            acc_protected: flags & 0x0004 > 0,
            acc_static: flags & 0x0008 > 0,
            acc_final: flags & 0x0010 > 0,
            acc_volatile: flags & 0x0040 > 0,
            acc_transient: flags & 0x0080 > 0,
            acc_synthetic: flags & 0x1000 > 0,
            acc_enum: flags & 0x4000 > 0,
        },
    )
}

fn read_method_access_flags(data: &[u8], pos: &mut usize) -> (r: Result<MethodAccessFlags, ClassFileError>)
    ensures
        present(data@, *old(pos) as int, 2) ==> r == Ok::<MethodAccessFlags, ClassFileError>(
            method_flags(be16(data@, *old(pos) as int) as u16),
        ) && *final(pos) == *old(pos) + 2,
        !present(data@, *old(pos) as int, 2) ==> r == Err::<MethodAccessFlags, ClassFileError>(
            ClassFileError::EndOfFile,
        ),
{
    let flags = read_u16(data, pos)?;
    Ok(
        MethodAccessFlags {
            acc_public: flags & 0x0001 > 0,
            acc_private: flags & 0x0002 > 0,
            acc_protected: flags & 0x0004 > 0,
            acc_static: flags & 0x0008 > 0,
            acc_final: flags & 0x0010 > 0,
            acc_synchronized: flags & 0x0020 > 0,
            acc_bridge: flags & 0x0040 > 0,
            acc_varargs: flags & 0x0080 > 0,
            acc_native: flags & 0x0100 > 0,
            acc_abstract: flags & 0x0400 > 0,
            acc_strict: flags & 0x0800 > 0,
            acc_synthetic: flags & 0x1000 > 0,
        },
    )
}

/// The 16-bit values of a `count`-long table at `p`.
pub open spec fn u16_table(s: Seq<u8>, p: int, count: int) -> Seq<u16> {
    Seq::new(count as nat, |k: int| be16(s, p + 2 * k) as u16)
}

/// The interface table whose count stands at `p`.
pub open spec fn interfaces_spec(s: Seq<u8>, p: int) -> Result<(Seq<u16>, int), ClassFileError> {
    if !present(s, p, 2) {
        Err(ClassFileError::EndOfFile)
    } else {
        let n = be16(s, p);
        if !present(s, p + 2, 2 * n) {
            Err(ClassFileError::EndOfFile)
        } else {
            Ok((u16_table(s, p + 2, n), p + 2 + 2 * n))
        }
    }
}

fn read_interfaces(data: &[u8], pos: &mut usize) -> (r: Result<Vec<u16>, ClassFileError>)
    ensures
        match (r, interfaces_spec(data@, *old(pos) as int)) {
            (Ok(v), Ok((m, q))) => v@ == m && *final(pos) == q,
            (Err(e), Err(e2)) => e == e2,
            _ => false,
        },
{
    let ghost p = *pos as int;
    let count = read_u16(data, pos)?;
    let mut interfaces: Vec<u16> = Vec::new();
    let mut k: u16 = 0;
    while k < count
        invariant
            k <= count,
            count as int == be16(data@, p),
            p == *old(pos) as int,
            present(data@, p, 2),
            present(data@, p + 2, 2 * k),
            *pos == p + 2 + 2 * k,
            interfaces@ == u16_table(data@, p + 2, k as int),
        decreases count - k,
    {
        let v = match read_u16(data, pos) {
            Ok(v) => v,
            Err(e) => {
                assert(!present(data@, p + 2, 2 * count));
                return Err(e);
            },
        };
        interfaces.push(v);
        k = k + 1;
        assert(interfaces@ =~= u16_table(data@, p + 2, k as int));
    }
    Ok(interfaces)
}

#[derive(Debug, Clone, Copy, PartialEq, Eq)]
pub struct ExceptionTableInfo {
    pub start_pc: u16,
    pub end_pc: u16,
    pub handler_pc: u16,
    pub catch_type: u16,
}

/// An attribute: the three that are read structurally, and any other kept as raw bytes.
#[derive(Debug)]
pub enum AttributeInfo {
    Raw { attribute_name: String, info: Vec<u8> },
    ConstantValue { constant_value_index: u16 },
    Code {
        max_stack: u16,
        max_locals: u16,
        code: Vec<u8>,
        exception_table: Vec<ExceptionTableInfo>,
        attributes: Vec<AttributeInfo>,
    },
    SourceFile { sourcefile_index: u16 },
}

/// What an attribute holds, as sequences.
pub enum AttrView {
    Raw { attribute_name: Seq<char>, info: Seq<u8> },
    ConstantValue { constant_value_index: u16 },
    Code {
        max_stack: u16,
        max_locals: u16,
        code: Seq<u8>,
        exception_table: Seq<ExceptionTableInfo>,
        attributes: Seq<AttrView>,
    },
    SourceFile { sourcefile_index: u16 },
}

pub open spec fn attr_view(a: &AttributeInfo) -> AttrView
    decreases a, 0int,
{
    match a {
        AttributeInfo::Raw { attribute_name, info } => AttrView::Raw {
            attribute_name: attribute_name@,
            info: info@,
        },
        AttributeInfo::ConstantValue { constant_value_index } => AttrView::ConstantValue {
            constant_value_index: *constant_value_index,
        },
        AttributeInfo::Code { max_stack, max_locals, code, exception_table, attributes } =>
            AttrView::Code {
            max_stack: *max_stack,
            max_locals: *max_locals,
            code: code@,
            exception_table: exception_table@,
            attributes: attrs_view(attributes, attributes@.len() as int),
        },
        AttributeInfo::SourceFile { sourcefile_index } => AttrView::SourceFile {
            sourcefile_index: *sourcefile_index,
        },
    }
}

/// The models of the first `n` attributes of `v`.
pub open spec fn attrs_view(v: &Vec<AttributeInfo>, n: int) -> Seq<AttrView>
    decreases v, n,
{
    if n <= 0 || n > v@.len() {
        seq![]
    } else {
        attrs_view(v, n - 1).push(attr_view(&v[n - 1]))
    }
}

impl View for AttributeInfo {
    type V = AttrView;

    open spec fn view(&self) -> AttrView {
        attr_view(self)
    }
}

pub open spec fn exception_table(s: Seq<u8>, p: int, n: int) -> Seq<ExceptionTableInfo> {
    Seq::new(
        n as nat,
        |k: int|
            ExceptionTableInfo {
                start_pc: be16(s, p + 8 * k) as u16,
                end_pc: be16(s, p + 8 * k + 2) as u16,
                handler_pc: be16(s, p + 8 * k + 4) as u16,
                catch_type: be16(s, p + 8 * k + 6) as u16,
            },
    )
}

/// The body of a `Code` attribute at `b`.
pub open spec fn code_spec(pool: PoolView, s: Seq<u8>, b: int) -> Result<(AttrView, int), ClassFileError>
    decreases s.len() - b, 2int,
{
    if !present(s, b, 8) {
        Err(ClassFileError::EndOfFile)
    } else {
        let clen = be32(s, b + 4);
        let c = b + 8;
        if !present(s, c, clen) || !present(s, c + clen, 2) {
            Err(ClassFileError::EndOfFile)
        } else {
            let e = c + clen;
            let n = be16(s, e);
            let a = e + 2 + 8 * n;
            if !present(s, e + 2, 8 * n) || !present(s, a, 2) {
                Err(ClassFileError::EndOfFile)
            } else {
                match attrs_list(pool, s, a + 2, be16(s, a)) {
                    Err(err) => Err(err),
                    Ok((inner, q)) => Ok(
                        (
                            AttrView::Code {
                                max_stack: be16(s, b) as u16,
                                max_locals: be16(s, b + 2) as u16,
                                code: s.subrange(c, c + clen),
                                exception_table: exception_table(s, e + 2, n),
                                attributes: inner,
                            },
                            q,
                        ),
                    ),
                }
            }
        }
    }
}

/// The attribute at `p`: name index, length, then a body chosen by the name.
pub open spec fn attribute_spec(pool: PoolView, s: Seq<u8>, p: int) -> Result<(AttrView, int), ClassFileError>
    decreases s.len() - p, 3int,
{
    if !present(s, p, 2) {
        Err(ClassFileError::EndOfFile)
    } else {
        match utf8_at(pool, be16(s, p)) {
            None => Err(ClassFileError::InvalidCPEntry),
            Some(name) => {
                if !present(s, p + 2, 4) {
                    Err(ClassFileError::EndOfFile)
                } else {
                    let b = p + 6;
                    if name == "ConstantValue"@ {
                        if present(s, b, 2) {
                            Ok((AttrView::ConstantValue { constant_value_index: be16(s, b) as u16 }, b + 2))
                        } else {
                            Err(ClassFileError::EndOfFile)
                        }
                    } else if name == "SourceFile"@ {
                        if present(s, b, 2) {
                            Ok((AttrView::SourceFile { sourcefile_index: be16(s, b) as u16 }, b + 2))
                        } else {
                            Err(ClassFileError::EndOfFile)
                        }
                    } else if name == "Code"@ {
                        code_spec(pool, s, b)
                    } else {
                        let len = be32(s, p + 2);
                        if present(s, b, len) {
                            Ok((AttrView::Raw { attribute_name: name, info: s.subrange(b, b + len) }, b + len))
                        } else {
                            Err(ClassFileError::EndOfFile)
                        }
                    }
                }
            },
        }
    }
}

/// `n` attributes, the first at `p`.
pub open spec fn attrs_list(pool: PoolView, s: Seq<u8>, p: int, n: int) -> Result<
    (Seq<AttrView>, int),
    ClassFileError,
>
    decreases s.len() - p, 4 + n,
{
    if n <= 0 {
        Ok((seq![], p))
    } else if !(0 <= p <= s.len()) {
        Err(ClassFileError::EndOfFile)
    } else {
        match attribute_spec(pool, s, p) {
            Err(e) => Err(e),
            Ok((a, q)) => {
                // every attribute takes at least its six header bytes
                if !(p < q <= s.len()) {
                    Err(ClassFileError::EndOfFile)
                } else {
                    match attrs_list(pool, s, q, n - 1) {
                        Err(e) => Err(e),
                        Ok((rest, r)) => Ok((seq![a] + rest, r)),
                    }
                }
            },
        }
    }
}

/// An attribute table whose count stands at `p`.
pub open spec fn attributes_spec(pool: PoolView, s: Seq<u8>, p: int) -> Result<
    (Seq<AttrView>, int),
    ClassFileError,
> {
    if !present(s, p, 2) {
        Err(ClassFileError::EndOfFile)
    } else {
        attrs_list(pool, s, p + 2, be16(s, p))
    }
}

/// `done` followed by the outcome `r`.
pub open spec fn then_list<T>(done: Seq<T>, r: Result<(Seq<T>, int), ClassFileError>) -> Result<
    (Seq<T>, int),
    ClassFileError,
> {
    match r {
        Ok((rest, q)) => Ok((done + rest, q)),
        Err(e) => Err(e),
    }
}

fn read_exception_table(data: &[u8], pos: &mut usize, n: u16) -> (r: Result<Vec<ExceptionTableInfo>, ClassFileError>)
    requires
        *old(pos) <= data@.len(),
    ensures
        present(data@, *old(pos) as int, 8 * n) ==> r == Ok::<Vec<ExceptionTableInfo>, ClassFileError>(
            r->Ok_0,
        ) && r->Ok_0@ == exception_table(data@, *old(pos) as int, n as int) && *final(pos) == *old(pos)
            + 8 * n,
        !present(data@, *old(pos) as int, 8 * n) ==> r is Err && r->Err_0 == ClassFileError::EndOfFile,
{
    let ghost p = *pos as int;
    let mut table: Vec<ExceptionTableInfo> = Vec::with_capacity(n as usize);
    let mut k: u16 = 0;
    while k < n
        invariant
            k <= n,
            *pos == p + 8 * k,
            p == *old(pos) as int,
            p <= data@.len(),
            present(data@, p, 8 * k),
            table@ == exception_table(data@, p, k as int),
        decreases n - k,
    {
        if data.len() - *pos < 8 {
            return Err(ClassFileError::EndOfFile);
        }
        let start_pc = read_u16(data, pos)?;
        let end_pc = read_u16(data, pos)?;
        let handler_pc = read_u16(data, pos)?;
        let catch_type = read_u16(data, pos)?;
        table.push(ExceptionTableInfo { start_pc, end_pc, handler_pc, catch_type });
        k = k + 1;
        assert(table@ =~= exception_table(data@, p, k as int));
    }
    Ok(table)
}

fn read_code(data: &[u8], pos: &mut usize, constant_pool: &ConstantPool) -> (r: Result<AttributeInfo, ClassFileError>)
    ensures
        match (r, code_spec(constant_pool@, data@, *old(pos) as int)) {
            (Ok(a), Ok((m, q))) => a@ == m && *final(pos) == q && *old(pos) < q <= data@.len(),
            (Err(e), Err(e2)) => e == e2,
            _ => false,
        },
    decreases data@.len() - *old(pos), 2int,
{
    let max_stack = read_u16(data, pos)?;
    let max_locals = read_u16(data, pos)?;
    let code_length = read_u32(data, pos)?;
    let c = *pos;
    if data.len() - c < code_length as usize {
        return Err(ClassFileError::EndOfFile);
    }
    let code = slice_to_vec(slice_subrange(data, c, c + code_length as usize));
    *pos = c + code_length as usize;
    let exception_table_length = read_u16(data, pos)?;
    let exception_table = read_exception_table(data, pos, exception_table_length)?;
    let attributes = read_attributes(data, pos, constant_pool)?;
    Ok(AttributeInfo::Code { max_stack, max_locals, code, exception_table, attributes })
}

fn read_attribute(data: &[u8], pos: &mut usize, constant_pool: &ConstantPool) -> (r: Result<AttributeInfo, ClassFileError>)
    ensures
        match (r, attribute_spec(constant_pool@, data@, *old(pos) as int)) {
            (Ok(a), Ok((m, q))) => a@ == m && *final(pos) == q && *old(pos) < q <= data@.len(),
            (Err(e), Err(e2)) => e == e2,
            _ => false,
        },
    decreases data@.len() - *old(pos), 3int,
{
    let attribute_name_index = read_u16(data, pos)?;
    let attribute_name = constant_pool.get_utf8_entry(attribute_name_index)?;
    let attribute_length = read_u32(data, pos)?;
    if attribute_name == String::from_str("ConstantValue") {
        Ok(AttributeInfo::ConstantValue { constant_value_index: read_u16(data, pos)? })
    } else if attribute_name == String::from_str("SourceFile") {
        Ok(AttributeInfo::SourceFile { sourcefile_index: read_u16(data, pos)? })
    } else if attribute_name == String::from_str("Code") {
        read_code(data, pos, constant_pool)
    } else {
        let b = *pos;
        if data.len() - b < attribute_length as usize {
            return Err(ClassFileError::EndOfFile);
        }
        let info = slice_to_vec(slice_subrange(data, b, b + attribute_length as usize));
        *pos = b + attribute_length as usize;
        Ok(AttributeInfo::Raw { attribute_name, info })
    }
}

/// Reads an attribute table: its count, then the attributes.
fn read_attributes(data: &[u8], pos: &mut usize, constant_pool: &ConstantPool) -> (r: Result<Vec<AttributeInfo>, ClassFileError>)
    ensures
        match (r, attributes_spec(constant_pool@, data@, *old(pos) as int)) {
            (Ok(v), Ok((m, q))) => attrs_view(&v, v@.len() as int) == m && *final(pos) == q && *old(pos) < q <= data@.len(),
            (Err(e), Err(e2)) => e == e2,
            _ => false,
        },
    decreases data@.len() - *old(pos), 5int,
{
    let ghost s = data@;
    let ghost pool = constant_pool@;
    let ghost p = *pos as int;
    let attributes_count = read_u16(data, pos)?;
    let mut attributes: Vec<AttributeInfo> = Vec::new();
    let mut k: u16 = 0;
    while k < attributes_count
        invariant
            k <= attributes_count,
            s == data@,
            pool == constant_pool@,
            p + 2 <= *pos <= data@.len(),
            p == *old(pos) as int,
            attributes_spec(pool, s, p) == then_list(
                attrs_view(&attributes, attributes@.len() as int),
                attrs_list(pool, s, *pos as int, attributes_count - k),
            ),
        decreases attributes_count - k,
    {
        let ghost before = attrs_view(&attributes, attributes@.len() as int);
        let a = read_attribute(data, pos, constant_pool)?;
        let ghost old_attrs = attributes;
        attributes.push(a);
        proof {
            assert(attrs_view(&attributes, attributes@.len() as int - 1) == attrs_view(&old_attrs, old_attrs@.len() as int)) by {
                lemma_attrs_view_prefix(&old_attrs, &attributes, old_attrs@.len() as int);
            }
            assert(attrs_view(&attributes, attributes@.len() as int) =~= before.push(a@));
            assert(before + (seq![a@] + attrs_list(pool, s, *pos as int, attributes_count - k - 1)->Ok_0.0) =~= before.push(a@) + attrs_list(pool, s, *pos as int, attributes_count - k - 1)->Ok_0.0);
        }
        k = k + 1;
    }
    Ok(attributes)
}

proof fn lemma_attrs_view_prefix(a: &Vec<AttributeInfo>, b: &Vec<AttributeInfo>, n: int)
    requires
        0 <= n <= a@.len(),
        n <= b@.len(),
        forall|i: int| 0 <= i < n ==> a@[i] == b@[i],
    ensures
        attrs_view(a, n) == attrs_view(b, n),
    decreases n,
{
    if n > 0 {
        lemma_attrs_view_prefix(a, b, n - 1);
    }
}


#[derive(Debug)]
pub struct FieldInfo {
    pub access_flags: FieldAccessFlags,
    pub name_index: u16,
    pub descriptor_index: u16,
    pub attributes: Vec<AttributeInfo>,
}

#[derive(Debug)]
pub struct MethodInfo {
    pub access_flags: MethodAccessFlags,
    pub name_index: u16,
    pub descriptor_index: u16,
    pub attributes: Vec<AttributeInfo>,
}

/// What a field or a method holds: its flags `F`, two pool indices and its attributes.
pub struct MemberView<F> {
    pub access_flags: F,
    pub name_index: u16,
    pub descriptor_index: u16,
    pub attributes: Seq<AttrView>,
}

impl View for FieldInfo {
    type V = MemberView<FieldAccessFlags>;

    open spec fn view(&self) -> MemberView<FieldAccessFlags> {
        MemberView {
            access_flags: self.access_flags,
            name_index: self.name_index,
            descriptor_index: self.descriptor_index,
            attributes: attrs_view(&self.attributes, self.attributes@.len() as int),
        }
    }
}

impl View for MethodInfo {
    type V = MemberView<MethodAccessFlags>;

    open spec fn view(&self) -> MemberView<MethodAccessFlags> {
        MemberView {
            access_flags: self.access_flags,
            name_index: self.name_index,
            descriptor_index: self.descriptor_index,
            attributes: attrs_view(&self.attributes, self.attributes@.len() as int),
        }
    }
}

/// `n` fields, the first at `p`.
pub open spec fn fields_list(pool: PoolView, s: Seq<u8>, p: int, n: int) -> Result<
    (Seq<MemberView<FieldAccessFlags>>, int),
    ClassFileError,
>
    decreases n,
{
    if n <= 0 {
        Ok((seq![], p))
    } else if !present(s, p, 6) {
        Err(ClassFileError::EndOfFile)
    } else {
        match attributes_spec(pool, s, p + 6) {
            Err(e) => Err(e),
            Ok((attributes, q)) => {
                let f = MemberView {
                    access_flags: field_flags(be16(s, p) as u16),
                    name_index: be16(s, p + 2) as u16,
                    descriptor_index: be16(s, p + 4) as u16,
                    attributes,
                };
                then_list(seq![f], fields_list(pool, s, q, n - 1))
            },
        }
    }
}

/// `n` methods, the first at `p`.
pub open spec fn methods_list(pool: PoolView, s: Seq<u8>, p: int, n: int) -> Result<
    (Seq<MemberView<MethodAccessFlags>>, int),
    ClassFileError,
>
    decreases n,
{
    if n <= 0 {
        Ok((seq![], p))
    } else if !present(s, p, 6) {
        Err(ClassFileError::EndOfFile)
    } else {
        match attributes_spec(pool, s, p + 6) {
            Err(e) => Err(e),
            Ok((attributes, q)) => {
                let m = MemberView {
                    access_flags: method_flags(be16(s, p) as u16),
                    name_index: be16(s, p + 2) as u16,
                    descriptor_index: be16(s, p + 4) as u16,
                    attributes,
                };
                then_list(seq![m], methods_list(pool, s, q, n - 1))
            },
        }
    }
}

/// A field table whose count stands at `p`.
pub open spec fn fields_spec(pool: PoolView, s: Seq<u8>, p: int) -> Result<
    (Seq<MemberView<FieldAccessFlags>>, int),
    ClassFileError,
> {
    if !present(s, p, 2) {
        Err(ClassFileError::EndOfFile)
    } else {
        fields_list(pool, s, p + 2, be16(s, p))
    }
}

/// A method table whose count stands at `p`.
pub open spec fn methods_spec(pool: PoolView, s: Seq<u8>, p: int) -> Result<
    (Seq<MemberView<MethodAccessFlags>>, int),
    ClassFileError,
> {
    if !present(s, p, 2) {
        Err(ClassFileError::EndOfFile)
    } else {
        methods_list(pool, s, p + 2, be16(s, p))
    }
}

fn read_fields(data: &[u8], pos: &mut usize, constant_pool: &ConstantPool) -> (r: Result<Vec<FieldInfo>, ClassFileError>)
    ensures
        match (r, fields_spec(constant_pool@, data@, *old(pos) as int)) {
            (Ok(v), Ok((m, q))) => v@.map_values(|f: FieldInfo| f@) == m && *final(pos) == q,
            (Err(e), Err(e2)) => e == e2,
            _ => false,
        },
{
    let ghost s = data@;
    let ghost pool = constant_pool@;
    let ghost p = *pos as int;
    let fields_count = read_u16(data, pos)?;
    let mut fields: Vec<FieldInfo> = Vec::new();
    let mut k: u16 = 0;
    while k < fields_count
        invariant
            k <= fields_count,
            s == data@,
            pool == constant_pool@,
            p == *old(pos) as int,
            fields_spec(pool, s, p) == then_list(
                fields@.map_values(|f: FieldInfo| f@),
                fields_list(pool, s, *pos as int, fields_count - k),
            ),
        decreases fields_count - k,
    {
        let ghost before = fields@.map_values(|f: FieldInfo| f@);
        if *pos >= data.len() || data.len() - *pos < 6 {
            return Err(ClassFileError::EndOfFile);
        }
        let access_flags = read_field_access_flags(data, pos)?;
        let name_index = read_u16(data, pos)?;
        let descriptor_index = read_u16(data, pos)?;
        let attributes = read_attributes(data, pos, constant_pool)?;
        let field = FieldInfo { access_flags, name_index, descriptor_index, attributes };
        let ghost fv = field@;
        fields.push(field);
        proof {
            let rest = fields_list(pool, s, *pos as int, fields_count - k - 1);
            assert(fields@.map_values(|f: FieldInfo| f@) =~= before.push(fv));
            if rest is Ok {
                assert(before + (seq![fv] + rest->Ok_0.0) =~= before.push(fv) + rest->Ok_0.0);
            }
        }
        k = k + 1;
    }
    Ok(fields)
}

fn read_methods(data: &[u8], pos: &mut usize, constant_pool: &ConstantPool) -> (r: Result<Vec<MethodInfo>, ClassFileError>)
    ensures
        match (r, methods_spec(constant_pool@, data@, *old(pos) as int)) {
            (Ok(v), Ok((m, q))) => v@.map_values(|f: MethodInfo| f@) == m && *final(pos) == q,
            (Err(e), Err(e2)) => e == e2,
            _ => false,
        },
{
    let ghost s = data@;
    let ghost pool = constant_pool@;
    let ghost p = *pos as int;
    let methods_count = read_u16(data, pos)?;
    let mut methods: Vec<MethodInfo> = Vec::new();
    let mut k: u16 = 0;
    while k < methods_count
        invariant
            k <= methods_count,
            s == data@,
            pool == constant_pool@,
            p == *old(pos) as int,
            methods_spec(pool, s, p) == then_list(
                methods@.map_values(|f: MethodInfo| f@),
                methods_list(pool, s, *pos as int, methods_count - k),
            ),
        decreases methods_count - k,
    {
        let ghost before = methods@.map_values(|f: MethodInfo| f@);
        if *pos >= data.len() || data.len() - *pos < 6 {
            return Err(ClassFileError::EndOfFile);
        }
        let access_flags = read_method_access_flags(data, pos)?;
        let name_index = read_u16(data, pos)?;
        let descriptor_index = read_u16(data, pos)?;
        let attributes = read_attributes(data, pos, constant_pool)?;
        let method = MethodInfo { access_flags, name_index, descriptor_index, attributes };
        let ghost mv = method@;
        methods.push(method);
        proof {
            let rest = methods_list(pool, s, *pos as int, methods_count - k - 1);
            assert(methods@.map_values(|f: MethodInfo| f@) =~= before.push(mv));
            if rest is Ok {
                assert(before + (seq![mv] + rest->Ok_0.0) =~= before.push(mv) + rest->Ok_0.0);
            }
        }
        k = k + 1;
    }
    Ok(methods)
}

/// A class file, read whole.
#[derive(Debug)]
pub struct ClassFile {
    pub major_version: u16,
    pub minor_version: u16,
    pub constant_pool: ConstantPool,
    pub access_flags: ClassAccessFlags,
    pub this_class: u16,
    pub super_class: u16,
    pub interfaces: Vec<u16>,
    pub fields: Vec<FieldInfo>,
    pub methods: Vec<MethodInfo>,
    pub attributes: Vec<AttributeInfo>,
}

/// What a class file holds, as sequences.
pub struct ClassFileView {
    pub major_version: u16,
    pub minor_version: u16,
    pub constant_pool: PoolView,
    pub access_flags: ClassAccessFlags,
    pub this_class: u16,
    pub super_class: u16,
    pub interfaces: Seq<u16>,
    pub fields: Seq<MemberView<FieldAccessFlags>>,
    pub methods: Seq<MemberView<MethodAccessFlags>>,
    pub attributes: Seq<AttrView>,
}

impl View for ClassFile {
    type V = ClassFileView;

    open spec fn view(&self) -> ClassFileView {
        ClassFileView {
            major_version: self.major_version,
            minor_version: self.minor_version,
            constant_pool: self.constant_pool@,
            access_flags: self.access_flags,
            this_class: self.this_class,
            super_class: self.super_class,
            interfaces: self.interfaces@,
            fields: self.fields@.map_values(|f: FieldInfo| f@),
            methods: self.methods@.map_values(|m: MethodInfo| m@),
            attributes: attrs_view(&self.attributes, self.attributes@.len() as int),
        }
    }
}

/// The magic number that opens every class file.
pub const CLASS_MAGIC: u32 = 0xCAFEBABE;

/// A class file read from the start of `s`, and where its last byte ends.
#[verifier::opaque]
pub open spec fn class_body(s: Seq<u8>) -> Result<(ClassFileView, int), ClassFileError> {
    if !present(s, 0, 4) {
        Err(ClassFileError::EndOfFile)
    } else if be32(s, 0) != CLASS_MAGIC {
        Err(ClassFileError::InvalidMagic)
    } else if !present(s, 4, 4) {
        Err(ClassFileError::EndOfFile)
    } else {
        match pool_spec(s, 8) {
            Err(e) => Err(e),
            Ok((pool, after_pool)) => if !present(s, after_pool, 6) {
                Err(ClassFileError::EndOfFile)
            } else {
                match interfaces_spec(s, after_pool + 6) {
                    Err(e) => Err(e),
                    Ok((interfaces, after_interfaces)) => match fields_spec(pool, s, after_interfaces) {
                        Err(e) => Err(e),
                        Ok((fields, after_fields)) => match methods_spec(pool, s, after_fields) {
                            Err(e) => Err(e),
                            Ok((methods, after_methods)) => match attributes_spec(pool, s, after_methods) {
                                Err(e) => Err(e),
                                Ok((attributes, end)) => Ok(
                                    (
                                        ClassFileView {
                                            major_version: be16(s, 6) as u16,
                                            minor_version: be16(s, 4) as u16,
                                            constant_pool: pool,
                                            access_flags: class_flags(be16(s, after_pool) as u16),
                                            this_class: be16(s, after_pool + 2) as u16,
                                            super_class: be16(s, after_pool + 4) as u16,
                                            interfaces,
                                            fields,
                                            methods,
                                            attributes,
                                        },
                                        end,
                                    ),
                                ),
                            },
                        },
                    },
                }
            },
        }
    }
}

/// What reading the bytes `s` as a class file gives: the class, when it ends exactly at
/// the last byte.
pub open spec fn classfile_spec(s: Seq<u8>) -> Result<ClassFileView, ClassFileError> {
    match class_body(s) {
        Err(e) => Err(e),
        Ok((c, q)) => if q < s.len() {
            Err(ClassFileError::MoreData)
        } else {
            Ok(c)
        },
    }
}

/// Reads a class file that fills `data` exactly.
pub fn read_classfile(data: &[u8]) -> (r: Result<ClassFile, ClassFileError>)
    ensures
        match (r, classfile_spec(data@)) {
            (Ok(c), Ok(m)) => c@ == m,
            (Err(e), Err(e2)) => e == e2,
            _ => false,
        },
{
    reveal(class_body);
    let mut pos: usize = 0;
    if read_u32(data, &mut pos)? != CLASS_MAGIC {
        return Err(ClassFileError::InvalidMagic);
    }
    let minor_version = read_u16(data, &mut pos)?;
    let major_version = read_u16(data, &mut pos)?;
    let constant_pool = read_constant_pool(data, &mut pos)?;
    if pos >= data.len() || data.len() - pos < 6 {
        return Err(ClassFileError::EndOfFile);
    }
    let access_flags = read_class_access_flags(data, &mut pos)?;
    let this_class = read_u16(data, &mut pos)?;
    let super_class = read_u16(data, &mut pos)?;
    let interfaces = read_interfaces(data, &mut pos)?;
    let fields = read_fields(data, &mut pos, &constant_pool)?;
    let methods = read_methods(data, &mut pos, &constant_pool)?;
    let attributes = read_attributes(data, &mut pos, &constant_pool)?;
    if read_u8(data, &mut pos).is_ok() {
        return Err(ClassFileError::MoreData);
    }
    Ok(
        ClassFile {
            major_version,
            minor_version,
            constant_pool,
            access_flags,
            this_class,
            super_class,
            interfaces,
            fields,
            methods,
            attributes,
        },
    )
}


/// Any input of four bytes or more whose first four are not `CAFEBABE` fails with
/// `InvalidMagic`.
pub proof fn lemma_bad_magic(s: Seq<u8>)
    requires
        s.len() >= 4,
        be32(s, 0) != CLASS_MAGIC,
    ensures
        classfile_spec(s) == Err::<ClassFileView, ClassFileError>(ClassFileError::InvalidMagic),
{
    reveal(class_body);
}


proof fn lemma_code_prefix(pool: PoolView, s: Seq<u8>, t: Seq<u8>, b: int)
    requires
        code_spec(pool, s, b) is Ok,
    ensures
        code_spec(pool, s + t, b) == code_spec(pool, s, b),
    decreases s.len() - b, 2int,
{
    let u = s + t;
    let clen = be32(s, b + 4);
    let c = b + 8;
    let e = c + clen;
    let n = be16(s, e);
    let a = e + 2 + 8 * n;
    lemma_attrs_prefix(pool, s, t, a + 2, be16(s, a));
    assert(u.subrange(c, c + clen) =~= s.subrange(c, c + clen));
    assert(exception_table(u, e + 2, n) =~= exception_table(s, e + 2, n));
}

proof fn lemma_attribute_prefix(pool: PoolView, s: Seq<u8>, t: Seq<u8>, p: int)
    requires
        attribute_spec(pool, s, p) is Ok,
    ensures
        attribute_spec(pool, s + t, p) == attribute_spec(pool, s, p),
    decreases s.len() - p, 3int,
{
    let u = s + t;
    let name = utf8_at(pool, be16(s, p))->Some_0;
    let b = p + 6;
    if name == "ConstantValue"@ {
    } else if name == "SourceFile"@ {
    } else if name == "Code"@ {
        lemma_code_prefix(pool, s, t, b);
    } else {
        let len = be32(s, p + 2);
        assert(u.subrange(b, b + len) =~= s.subrange(b, b + len));
    }
}

proof fn lemma_attrs_prefix(pool: PoolView, s: Seq<u8>, t: Seq<u8>, p: int, n: int)
    requires
        attrs_list(pool, s, p, n) is Ok,
    ensures
        attrs_list(pool, s + t, p, n) == attrs_list(pool, s, p, n),
    decreases s.len() - p, 4 + n,
{
    if n > 0 {
        lemma_attribute_prefix(pool, s, t, p);
        let q = attribute_spec(pool, s, p)->Ok_0.1;
        lemma_attrs_prefix(pool, s, t, q, n - 1);
    }
}

proof fn lemma_attributes_prefix(pool: PoolView, s: Seq<u8>, t: Seq<u8>, p: int)
    requires
        attributes_spec(pool, s, p) is Ok,
    ensures
        attributes_spec(pool, s + t, p) == attributes_spec(pool, s, p),
{
    lemma_attrs_prefix(pool, s, t, p + 2, be16(s, p));
}

proof fn lemma_fields_prefix(pool: PoolView, s: Seq<u8>, t: Seq<u8>, p: int, n: int)
    requires
        fields_list(pool, s, p, n) is Ok,
    ensures
        fields_list(pool, s + t, p, n) == fields_list(pool, s, p, n),
    decreases n,
{
    if n > 0 {
        lemma_attributes_prefix(pool, s, t, p + 6);
        let q = attributes_spec(pool, s, p + 6)->Ok_0.1;
        lemma_fields_prefix(pool, s, t, q, n - 1);
    }
}

proof fn lemma_methods_prefix(pool: PoolView, s: Seq<u8>, t: Seq<u8>, p: int, n: int)
    requires
        methods_list(pool, s, p, n) is Ok,
    ensures
        methods_list(pool, s + t, p, n) == methods_list(pool, s, p, n),
    decreases n,
{
    if n > 0 {
        lemma_attributes_prefix(pool, s, t, p + 6);
        let q = attributes_spec(pool, s, p + 6)->Ok_0.1;
        lemma_methods_prefix(pool, s, t, q, n - 1);
    }
}

proof fn lemma_class_body_prefix(s: Seq<u8>, t: Seq<u8>)
    requires
        class_body(s) is Ok,
    ensures
        class_body(s + t) == class_body(s),
{
    reveal(class_body);
    let u = s + t;
    lemma_pool_spec_prefix(s, t, 8);
    let (pool, after_pool) = pool_spec(s, 8)->Ok_0;
    let after_interfaces = interfaces_spec(s, after_pool + 6)->Ok_0.1;
    let n = be16(s, after_pool + 6);
    assert(u16_table(u, after_pool + 8, n) =~= u16_table(s, after_pool + 8, n));
    lemma_fields_prefix(pool, s, t, after_interfaces + 2, be16(s, after_interfaces));
    let after_fields = fields_spec(pool, s, after_interfaces)->Ok_0.1;
    lemma_methods_prefix(pool, s, t, after_fields + 2, be16(s, after_fields));
    let after_methods = methods_spec(pool, s, after_fields)->Ok_0.1;
    lemma_attributes_prefix(pool, s, t, after_methods);
}

proof fn lemma_attrs_end(pool: PoolView, s: Seq<u8>, p: int, n: int)
    requires
        attrs_list(pool, s, p, n) is Ok,
        p <= s.len(),
    ensures
        attrs_list(pool, s, p, n)->Ok_0.1 <= s.len(),
    decreases n,
{
    if n > 0 {
        let q = attribute_spec(pool, s, p)->Ok_0.1;
        lemma_attrs_end(pool, s, q, n - 1);
    }
}

/// A class file ends within its bytes.
proof fn lemma_class_body_end(s: Seq<u8>)
    requires
        class_body(s) is Ok,
    ensures
        class_body(s)->Ok_0.1 <= s.len(),
{
    reveal(class_body);
    let (pool, after_pool) = pool_spec(s, 8)->Ok_0;
    let after_interfaces = interfaces_spec(s, after_pool + 6)->Ok_0.1;
    let after_fields = fields_spec(pool, s, after_interfaces)->Ok_0.1;
    let after_methods = methods_spec(pool, s, after_fields)->Ok_0.1;
    lemma_attrs_end(pool, s, after_methods + 2, be16(s, after_methods));
}

/// Appending a byte to a class file that reads makes it fail with `MoreData`.
pub proof fn lemma_trailing_byte(s: Seq<u8>, b: u8)
    requires
        classfile_spec(s) is Ok,
    ensures
        classfile_spec(s.push(b)) == Err::<ClassFileView, ClassFileError>(ClassFileError::MoreData),
{
    let u = s + seq![b];
    lemma_class_body_prefix(s, seq![b]);
    assert(s.push(b) =~= u);
    lemma_class_body_end(s);
    assert(class_body(u) == class_body(s));
}

} // verus!
