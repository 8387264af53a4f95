//! The constant pool: a 1-based table of typed entries, and lookups that
//! follow the indices between entries.
use vstd::prelude::*;
use crate::bytes::{
    present, be16, be32, signed32, signed64, read_u8, read_u16, read_u32, ClassFileError,
};
use crate::mutf8::{decode_mutf8, to_string};
use vstd::slice::slice_subrange;

verus! {

/// One constant-pool entry. Floating-point constants are kept as their IEEE-754 bits.
#[derive(Debug)]
pub enum ConstantPoolInfo {
    Class { name_index: u16 },
    FieldRef { class_index: u16, name_and_type_index: u16 },
    MethodRef { class_index: u16, name_and_type_index: u16 },
    InterfaceMethodRef { class_index: u16, name_and_type_index: u16 },
    String { string_index: u16 },
    Integer { data: i32 },
    Float { bits: u32 },
    Long { data: i64 },
    Double { bits: u64 },
    NameAndType { name_index: u16, descriptor_index: u16 },
    Utf8 { length: u16, string: String },
    MethodHandle { reference_kind: u8, reference_index: u16 },
    MethodType { descriptor_index: u16 },
    InvokeDynamic { bootstrap_method_attr_index: u16, name_and_type_index: u16 },
}

/// What a constant-pool entry holds, with its text as characters.
pub enum PoolEntry {
    Class { name_index: u16 },
    FieldRef { class_index: u16, name_and_type_index: u16 },
    MethodRef { class_index: u16, name_and_type_index: u16 },
    InterfaceMethodRef { class_index: u16, name_and_type_index: u16 },
    String { string_index: u16 },
    Integer { data: i32 },
    Float { bits: u32 },
    Long { data: i64 },
    Double { bits: u64 },
    NameAndType { name_index: u16, descriptor_index: u16 },
    Utf8 { length: u16, string: Seq<char> },
    MethodHandle { reference_kind: u8, reference_index: u16 },
    MethodType { descriptor_index: u16 },
    InvokeDynamic { bootstrap_method_attr_index: u16, name_and_type_index: u16 },
}

impl View for ConstantPoolInfo {
    type V = PoolEntry;

    open spec fn view(&self) -> PoolEntry {
        match *self {
            ConstantPoolInfo::Class { name_index } => PoolEntry::Class { name_index },
            ConstantPoolInfo::FieldRef { class_index, name_and_type_index } => PoolEntry::FieldRef {
                class_index,
                name_and_type_index,
            },
            ConstantPoolInfo::MethodRef { class_index, name_and_type_index } => PoolEntry::MethodRef {
                class_index,
                name_and_type_index,
            },
            ConstantPoolInfo::InterfaceMethodRef {
                class_index,
                name_and_type_index,
            } => PoolEntry::InterfaceMethodRef { class_index, name_and_type_index },
            ConstantPoolInfo::String { string_index } => PoolEntry::String { string_index },
            ConstantPoolInfo::Integer { data } => PoolEntry::Integer { data },
            ConstantPoolInfo::Float { bits } => PoolEntry::Float { bits },
            ConstantPoolInfo::Long { data } => PoolEntry::Long { data },
            ConstantPoolInfo::Double { bits } => PoolEntry::Double { bits },
            ConstantPoolInfo::NameAndType { name_index, descriptor_index } => PoolEntry::NameAndType {
                name_index,
                descriptor_index,
            },
            ConstantPoolInfo::Utf8 { length, string } => PoolEntry::Utf8 {
                length,
                string: string@,
            },
            ConstantPoolInfo::MethodHandle { reference_kind, reference_index } =>
                PoolEntry::MethodHandle { reference_kind, reference_index },
            ConstantPoolInfo::MethodType { descriptor_index } => PoolEntry::MethodType {
                descriptor_index,
            },
            ConstantPoolInfo::InvokeDynamic {
                bootstrap_method_attr_index,
                name_and_type_index,
            } => PoolEntry::InvokeDynamic { bootstrap_method_attr_index, name_and_type_index },
        }
    }
}

impl Clone for ConstantPoolInfo {
    fn clone(&self) -> (r: Self)
        ensures
            r == *self,
    {
        match self {
            ConstantPoolInfo::Class { name_index } => ConstantPoolInfo::Class {
                name_index: *name_index,
            },
            ConstantPoolInfo::FieldRef { class_index, name_and_type_index } =>
                ConstantPoolInfo::FieldRef {
                    class_index: *class_index,
                    name_and_type_index: *name_and_type_index,
                },
            ConstantPoolInfo::MethodRef { class_index, name_and_type_index } =>
                ConstantPoolInfo::MethodRef {
                    class_index: *class_index,
                    name_and_type_index: *name_and_type_index,
                },
            ConstantPoolInfo::InterfaceMethodRef { class_index, name_and_type_index } =>
                ConstantPoolInfo::InterfaceMethodRef {
                    class_index: *class_index,
                    name_and_type_index: *name_and_type_index,
                },
            ConstantPoolInfo::String { string_index } => ConstantPoolInfo::String {
                string_index: *string_index,
            },
            ConstantPoolInfo::Integer { data } => ConstantPoolInfo::Integer { data: *data },
            ConstantPoolInfo::Float { bits } => ConstantPoolInfo::Float { bits: *bits },
            ConstantPoolInfo::Long { data } => ConstantPoolInfo::Long { data: *data },
            ConstantPoolInfo::Double { bits } => ConstantPoolInfo::Double { bits: *bits },
            ConstantPoolInfo::NameAndType { name_index, descriptor_index } =>
                ConstantPoolInfo::NameAndType {
                    name_index: *name_index,
                    descriptor_index: *descriptor_index,
                },
            ConstantPoolInfo::Utf8 { length, string } => ConstantPoolInfo::Utf8 {
                length: *length,
                string: string.clone(),
            },
            ConstantPoolInfo::MethodHandle { reference_kind, reference_index } =>
                ConstantPoolInfo::MethodHandle {
                    reference_kind: *reference_kind,
                    reference_index: *reference_index,
                },
            ConstantPoolInfo::MethodType { descriptor_index } => ConstantPoolInfo::MethodType {
                descriptor_index: *descriptor_index,
            },
            ConstantPoolInfo::InvokeDynamic { bootstrap_method_attr_index, name_and_type_index } =>
                ConstantPoolInfo::InvokeDynamic {
                bootstrap_method_attr_index: *bootstrap_method_attr_index,
                name_and_type_index: *name_and_type_index,
            },
        }
    }
}

/// The entries of a class file's constant pool, by index. Index 0 and the slot after
/// each `Long` or `Double` hold nothing.
#[derive(Debug)]
pub struct ConstantPool {
    data: Vec<Option<ConstantPoolInfo>>,
}

#[derive(Debug, Clone)]
pub struct ConstClassData {
    pub name: String,
}

#[derive(Debug, Clone)]
pub struct ConstNameTypeData {
    pub name: String,
    pub descriptor: String,
}

#[derive(Debug, Clone)]
pub struct ConstFieldData {
    pub class: ConstClassData,
    pub name_and_type: ConstNameTypeData,
}

#[derive(Debug, Clone)]
pub struct ConstMethodData {
    pub class: ConstClassData,
    pub name_and_type: ConstNameTypeData,
    pub is_interface: bool,
}

/// The model of a pool: slot `i` holds the entry at index `i`, if any.
pub type PoolView = Seq<Option<PoolEntry>>;

pub open spec fn entry_at(pool: PoolView, i: int) -> Option<PoolEntry> {
    if 0 <= i < pool.len() {
        pool[i]
    } else {
        None
    }
}

/// The text of the `Utf8` entry at `i`.
pub open spec fn utf8_at(pool: PoolView, i: int) -> Option<Seq<char>> {
    match entry_at(pool, i) {
        Some(PoolEntry::Utf8 { string, .. }) => Some(string),
        _ => None,
    }
}

/// The name of the class that the `Class` entry at `i` refers to.
pub open spec fn class_at(pool: PoolView, i: int) -> Option<Seq<char>> {
    match entry_at(pool, i) {
        Some(PoolEntry::Class { name_index }) => utf8_at(pool, name_index as int),
        _ => None,
    }
}

/// Name and descriptor of the `NameAndType` entry at `i`.
pub open spec fn name_type_at(pool: PoolView, i: int) -> Option<(Seq<char>, Seq<char>)> {
    match entry_at(pool, i) {
        Some(PoolEntry::NameAndType { name_index, descriptor_index }) => {
            match (utf8_at(pool, name_index as int), utf8_at(pool, descriptor_index as int)) {
                (Some(n), Some(d)) => Some((n, d)),
                _ => None,
            }
        },
        _ => None,
    }
}

/// Class, name and descriptor that a member reference names.
pub open spec fn member_of(pool: PoolView, class_index: u16, nt_index: u16) -> Option<
    (Seq<char>, (Seq<char>, Seq<char>)),
> {
    match (class_at(pool, class_index as int), name_type_at(pool, nt_index as int)) {
        (Some(c), Some(nt)) => Some((c, nt)),
        _ => None,
    }
}

/// Class, name and descriptor of the `FieldRef` entry at `i`.
pub open spec fn field_at(pool: PoolView, i: int) -> Option<(Seq<char>, (Seq<char>, Seq<char>))> {
    match entry_at(pool, i) {
        Some(PoolEntry::FieldRef { class_index, name_and_type_index }) => member_of(
            pool,
            class_index,
            name_and_type_index,
        ),
        _ => None,
    }
}

/// Class, name and descriptor of the `MethodRef` or `InterfaceMethodRef` entry at `i`, and
/// whether it is the latter.
pub open spec fn method_at(pool: PoolView, i: int) -> Option<
    ((Seq<char>, (Seq<char>, Seq<char>)), bool),
> {
    match entry_at(pool, i) {
        Some(PoolEntry::MethodRef { class_index, name_and_type_index }) => match member_of(
            pool,
            class_index,
            name_and_type_index,
        ) {
            Some(m) => Some((m, false)),
            None => None,
        },
        Some(PoolEntry::InterfaceMethodRef { class_index, name_and_type_index }) => match member_of(
            pool,
            class_index,
            name_and_type_index,
        ) {
            Some(m) => Some((m, true)),
            None => None,
        },
        _ => None,
    }
}

impl ConstClassData {
    pub open spec fn spec_name(&self) -> Seq<char> {
        self.name@
    }
}

impl ConstNameTypeData {
    pub open spec fn pair(&self) -> (Seq<char>, Seq<char>) {
        (self.name@, self.descriptor@)
    }
}

impl ConstFieldData {
    pub open spec fn triple(&self) -> (Seq<char>, (Seq<char>, Seq<char>)) {
        (self.class.name@, self.name_and_type.pair())
    }
}

impl ConstMethodData {
    pub open spec fn triple(&self) -> (Seq<char>, (Seq<char>, Seq<char>)) {
        (self.class.name@, self.name_and_type.pair())
    }
}

impl View for ConstantPool {
    type V = PoolView;

    closed spec fn view(&self) -> PoolView {
        self.data@.map_values(|o: Option<ConstantPoolInfo>| match o {
            Some(e) => Some(e@),
            None => None,
        })
    }
}

pub open spec fn invalid_entry<T>(r: Result<T, ClassFileError>) -> bool {
    r matches Err(e) && e == ClassFileError::InvalidCPEntry
}

impl ConstantPool {
    /// The entry at `index`, of whatever kind.
    pub fn get_entry(&self, index: u16) -> (r: Result<ConstantPoolInfo, ClassFileError>)
        ensures
            r is Ok <==> entry_at(self@, index as int) is Some,
            r matches Ok(e) ==> entry_at(self@, index as int) == Some(e@),
            r is Err ==> invalid_entry(r),
    {
        let i = index as usize;
        if i >= self.data.len() {
            return Err(ClassFileError::InvalidCPEntry);
        }
        match &self.data[i] {
            Some(e) => Ok(e.clone()),
            None => Err(ClassFileError::InvalidCPEntry),
        }
    }

    /// The text of the `Utf8` entry at `index`.
    pub fn get_utf8_entry(&self, index: u16) -> (r: Result<String, ClassFileError>)
        ensures
            r is Ok <==> utf8_at(self@, index as int) is Some,
            r matches Ok(s) ==> utf8_at(self@, index as int) == Some(s@),
            r is Err ==> invalid_entry(r),
    {
        let i = index as usize;
        if i >= self.data.len() {
            return Err(ClassFileError::InvalidCPEntry);
        }
        match &self.data[i] {
            Some(ConstantPoolInfo::Utf8 { string, .. }) => Ok(string.clone()),
            _ => Err(ClassFileError::InvalidCPEntry),
        }
    }

    /// The class that the `Class` entry at `index` names.
    pub fn get_class_entry(&self, index: u16) -> (r: Result<ConstClassData, ClassFileError>)
        ensures
            r is Ok <==> class_at(self@, index as int) is Some,
            r matches Ok(c) ==> class_at(self@, index as int) == Some(c.name@),
            r is Err ==> invalid_entry(r),
    {
        let i = index as usize;
        if i >= self.data.len() {
            return Err(ClassFileError::InvalidCPEntry);
        }
        match &self.data[i] {
            Some(ConstantPoolInfo::Class { name_index }) => {
                let name = self.get_utf8_entry(*name_index)?;
                Ok(ConstClassData { name })
            },
            _ => Err(ClassFileError::InvalidCPEntry),
        }
    }

    /// Name and descriptor of the `NameAndType` entry at `index`.
    pub fn get_name_type_entry(&self, index: u16) -> (r: Result<ConstNameTypeData, ClassFileError>)
        ensures
            r is Ok <==> name_type_at(self@, index as int) is Some,
            r matches Ok(nt) ==> name_type_at(self@, index as int) == Some(nt.pair()),
            r is Err ==> invalid_entry(r),
    {
        let i = index as usize;
        if i >= self.data.len() {
            return Err(ClassFileError::InvalidCPEntry);
        }
        match &self.data[i] {
            Some(ConstantPoolInfo::NameAndType { name_index, descriptor_index }) => {
                let name = self.get_utf8_entry(*name_index)?;
                let descriptor = self.get_utf8_entry(*descriptor_index)?;
                Ok(ConstNameTypeData { name, descriptor })
            },
            _ => Err(ClassFileError::InvalidCPEntry),
        }
    }

    fn get_member(&self, class_index: u16, nt_index: u16) -> (r: Result<
        (ConstClassData, ConstNameTypeData),
        ClassFileError,
    >)
        ensures
            r is Ok <==> member_of(self@, class_index, nt_index) is Some,
            r matches Ok((c, nt)) ==> member_of(self@, class_index, nt_index) == Some(
                (c.name@, nt.pair()),
            ),
            r is Err ==> invalid_entry(r),
    {
        let class = self.get_class_entry(class_index)?;
        let name_and_type = self.get_name_type_entry(nt_index)?;
        Ok((class, name_and_type))
    }

    /// Class, name and descriptor of the `FieldRef` entry at `index`.
    pub fn get_field_entry(&self, index: u16) -> (r: Result<ConstFieldData, ClassFileError>)
        ensures
            r is Ok <==> field_at(self@, index as int) is Some,
            r matches Ok(f) ==> field_at(self@, index as int) == Some(f.triple()),
            r is Err ==> invalid_entry(r),
    {
        let i = index as usize;
        if i >= self.data.len() {
            return Err(ClassFileError::InvalidCPEntry);
        }
        match &self.data[i] {
            Some(ConstantPoolInfo::FieldRef { class_index, name_and_type_index }) => {
                let (class, name_and_type) = self.get_member(*class_index, *name_and_type_index)?;
                Ok(ConstFieldData { class, name_and_type })
            },
            _ => Err(ClassFileError::InvalidCPEntry),
        }
    }

    /// The `MethodRef` or `InterfaceMethodRef` entry at `index`, resolved.
    pub fn get_method_or_interface_entry(&self, index: u16) -> (r: Result<
        ConstMethodData,
        ClassFileError,
    >)
        ensures
            r is Ok <==> method_at(self@, index as int) is Some,
            r matches Ok(m) ==> method_at(self@, index as int) == Some((m.triple(), m.is_interface)),
            r is Err ==> invalid_entry(r),
    {
        let i = index as usize;
        if i >= self.data.len() {
            return Err(ClassFileError::InvalidCPEntry);
        }
        match &self.data[i] {
            Some(ConstantPoolInfo::MethodRef { class_index, name_and_type_index }) => {
                let (class, name_and_type) = self.get_member(*class_index, *name_and_type_index)?;
                Ok(ConstMethodData { class, name_and_type, is_interface: false })
            },
            Some(ConstantPoolInfo::InterfaceMethodRef { class_index, name_and_type_index }) => {
                let (class, name_and_type) = self.get_member(*class_index, *name_and_type_index)?;
                Ok(ConstMethodData { class, name_and_type, is_interface: true })
            },
            _ => Err(ClassFileError::InvalidCPEntry),
        }
    }

    /// The number of entries stored.
    pub fn len(&self) -> (r: usize)
        ensures
            r == count_entries(self@),
    {
        let mut n: usize = 0;
        let mut i: usize = 0;
        while i < self.data.len()
            invariant
                i <= self.data@.len(),
                n == count_entries(self@.take(i as int)),
                n <= i,
            decreases self.data.len() - i,
        {
            assert(self@.take(i + 1).drop_last() =~= self@.take(i as int));
            assert(self@[i as int] is Some <==> self.data@[i as int] is Some);
            if self.data[i].is_some() {
                n = n + 1;
            }
            i = i + 1;
        }
        assert(self@.take(i as int) == self@);
        n
    }
}

/// How many slots of a pool hold an entry.
pub open spec fn count_entries(pool: PoolView) -> nat
    decreases pool.len(),
{
    if pool.len() == 0 {
        0
    } else {
        count_entries(pool.drop_last()) + if pool.last() is Some {
            1nat
        } else {
            0nat
        }
    }
}

/// A fixed-size entry: present when `n` bytes follow the tag.
pub open spec fn fixed(s: Seq<u8>, b: int, n: int, e: PoolEntry) -> Result<
    (PoolEntry, int),
    ClassFileError,
> {
    if present(s, b, n) {
        Ok((e, b + n))
    } else {
        Err(ClassFileError::EndOfFile)
    }
}

/// The 16-bit pool index at `b`.
pub open spec fn idx(s: Seq<u8>, b: int) -> u16 {
    be16(s, b) as u16
}

/// The entry that starts with its tag at `p`, and where the next one starts.
pub open spec fn pool_entry(s: Seq<u8>, p: int) -> Result<(PoolEntry, int), ClassFileError> {
    if !present(s, p, 1) {
        Err(ClassFileError::EndOfFile)
    } else {
        let t = s[p];
        let b = p + 1;
        if t == 1 {
            if !present(s, b, 2) {
                Err(ClassFileError::EndOfFile)
            } else {
                let n = be16(s, b);
                if !present(s, b + 2, n) {
                    Err(ClassFileError::EndOfFile)
                } else {
                    match decode_mutf8(s.subrange(b + 2, b + 2 + n)) {
                        Ok(cs) => Ok((PoolEntry::Utf8 { length: n as u16, string: cs }, b + 2 + n)),
                        Err(_) => Err(ClassFileError::MUtf8Format),
                    }
                }
            }
        } else if t == 3 {
            fixed(s, b, 4, PoolEntry::Integer { data: signed32(be32(s, b)) as i32 })
        } else if t == 4 {
            fixed(s, b, 4, PoolEntry::Float { bits: be32(s, b) as u32 })
        } else if t == 5 {
            fixed(
                s,
                b,
                8,
                PoolEntry::Long { data: signed64(be32(s, b) * 0x1_0000_0000 + be32(s, b + 4)) as i64 },
            )
        } else if t == 6 {
            fixed(s, b, 8, PoolEntry::Double { bits: (be32(s, b) * 0x1_0000_0000 + be32(s, b + 4)) as u64 })
        } else if t == 7 {
            fixed(s, b, 2, PoolEntry::Class { name_index: idx(s, b) })
        } else if t == 8 {
            fixed(s, b, 2, PoolEntry::String { string_index: idx(s, b) })
        } else if t == 9 {
            fixed(s, b, 4, PoolEntry::FieldRef { class_index: idx(s, b), name_and_type_index: idx(s, b + 2) })
        } else if t == 10 {
            fixed(s, b, 4, PoolEntry::MethodRef { class_index: idx(s, b), name_and_type_index: idx(s, b + 2) })
        } else if t == 11 {
            fixed(
                s,
                b,
                4,
                PoolEntry::InterfaceMethodRef { class_index: idx(s, b), name_and_type_index: idx(s, b + 2) },
            )
        } else if t == 12 {
            fixed(s, b, 4, PoolEntry::NameAndType { name_index: idx(s, b), descriptor_index: idx(s, b + 2) })
        } else if t == 15 {
            fixed(s, b, 3, PoolEntry::MethodHandle { reference_kind: s[b], reference_index: idx(s, b + 1) })
        } else if t == 16 {
            fixed(s, b, 2, PoolEntry::MethodType { descriptor_index: idx(s, b) })
        } else if t == 18 {
            fixed(
                s,
                b,
                4,
                PoolEntry::InvokeDynamic { bootstrap_method_attr_index: idx(s, b), name_and_type_index: idx(s, b + 2) },
            )
        } else {
            Err(ClassFileError::InvalidCPType)
        }
    }
}

/// `Long` and `Double` take two slots.
pub open spec fn is_wide(e: PoolEntry) -> bool {
    e is Long || e is Double
}

/// The slots filled by the entries from index `i` on, the first of them at byte `p`, after
/// the slots `acc` that came before.
pub open spec fn pool_from(s: Seq<u8>, p: int, i: int, count: int, acc: PoolView) -> Result<
    (PoolView, int),
    ClassFileError,
>
    decreases count - i,
{
    if i >= count {
        Ok((acc, p))
    } else {
        match pool_entry(s, p) {
            Err(e) => Err(e),
            Ok((e, q)) => {
                let acc2 = if is_wide(e) {
                    acc.push(Some(e)).push(None)
                } else {
                    acc.push(Some(e))
                };
                let j = if is_wide(e) {
                    i + 2
                } else {
                    i + 1
                };
                if j >= count {
                    Ok((acc2, q))
                } else {
                    pool_from(s, q, j, count, acc2)
                }
            },
        }
    }
}

/// The constant pool whose count stands at `p`, and where what follows it starts.
pub open spec fn pool_spec(s: Seq<u8>, p: int) -> Result<(PoolView, int), ClassFileError> {
    if !present(s, p, 2) {
        Err(ClassFileError::EndOfFile)
    } else {
        pool_from(s, p + 2, 1, be16(s, p), seq![None])
    }
}

fn read_entry(data: &[u8], pos: &mut usize) -> (r: Result<ConstantPoolInfo, ClassFileError>)
    ensures
        match (r, pool_entry(data@, *old(pos) as int)) {
            (Ok(e), Ok((m, q))) => e@ == m && *final(pos) == q,
            (Err(e), Err(e2)) => e == e2,
            _ => false,
        },
{
    let ghost s = data@;
    let ghost p = *pos as int;
    let tag = read_u8(data, pos)?;
    let entry = if tag == 1 {
        let length = read_u16(data, pos)?;
        let start = *pos;
        if start >= data.len() && length > 0 || data.len() - start < length as usize {
            return Err(ClassFileError::EndOfFile);
        }
        let end = start + length as usize;
        let bytes = slice_subrange(data, start, end);
        *pos = end;
        match to_string(bytes) {
            Ok(string) => ConstantPoolInfo::Utf8 { length, string },
            Err(_) => return Err(ClassFileError::MUtf8Format),
        }
    } else if tag == 3 {
        let v = read_u32(data, pos)?;
        ConstantPoolInfo::Integer { data: to_i32(v) }
    } else if tag == 4 {
        ConstantPoolInfo::Float { bits: read_u32(data, pos)? }
    } else if tag == 5 || tag == 6 {
        let high = read_u32(data, pos)?;
        let low = read_u32(data, pos)?;
        let v: u64 = (high as u64) * 0x1_0000_0000 + low as u64;
        if tag == 5 {
            ConstantPoolInfo::Long { data: to_i64(v) }
        } else {
            ConstantPoolInfo::Double { bits: v }
        }
    } else if tag == 7 {
        ConstantPoolInfo::Class { name_index: read_u16(data, pos)? }
    } else if tag == 8 {
        ConstantPoolInfo::String { string_index: read_u16(data, pos)? }
    } else if tag == 9 || tag == 10 || tag == 11 || tag == 12 || tag == 18 {
        let first = read_u16(data, pos)?;
        let second = read_u16(data, pos)?;
        if tag == 9 {
            ConstantPoolInfo::FieldRef { class_index: first, name_and_type_index: second }
        } else if tag == 10 {
            ConstantPoolInfo::MethodRef { class_index: first, name_and_type_index: second }
        } else if tag == 11 {
            ConstantPoolInfo::InterfaceMethodRef { class_index: first, name_and_type_index: second }
        } else if tag == 12 {
            ConstantPoolInfo::NameAndType { name_index: first, descriptor_index: second }
        } else {
            ConstantPoolInfo::InvokeDynamic {
                bootstrap_method_attr_index: first,
                name_and_type_index: second,
            }
        }
    } else if tag == 15 {
        let reference_kind = read_u8(data, pos)?;
        let reference_index = read_u16(data, pos)?;
        ConstantPoolInfo::MethodHandle { reference_kind, reference_index }
    } else if tag == 16 {
        ConstantPoolInfo::MethodType { descriptor_index: read_u16(data, pos)? }
    } else {
        return Err(ClassFileError::InvalidCPType);
    };
    Ok(entry)
}

/// A 32-bit pattern as a two's-complement number.
pub(crate) fn to_i32(v: u32) -> (r: i32)
    ensures
        r as int == signed32(v as int),
{
    if v >= 0x8000_0000 {
        ((v - 0x8000_0000) as i32) - 0x7FFF_FFFF - 1
    } else {
        v as i32
    }
}

/// A 64-bit pattern as a two's-complement number.
pub(crate) fn to_i64(v: u64) -> (r: i64)
    ensures
        r as int == signed64(v as int),
{
    if v >= 0x8000_0000_0000_0000 {
        ((v - 0x8000_0000_0000_0000) as i64) - 0x7FFF_FFFF_FFFF_FFFF - 1
    } else {
        v as i64
    }
}

/// Reads a constant pool: its count, then that many slots' worth of entries.
pub(crate) fn read_constant_pool(data: &[u8], pos: &mut usize) -> (r: Result<ConstantPool, ClassFileError>)
    ensures
        match (r, pool_spec(data@, *old(pos) as int)) {
            (Ok(c), Ok((m, q))) => c@ == m && *final(pos) == q,
            (Err(e), Err(e2)) => e == e2,
            _ => false,
        },
{
    let ghost s = data@;
    let ghost start = *pos as int;
    let count = read_u16(data, pos)?;
    let mut entries: Vec<Option<ConstantPoolInfo>> = Vec::new();
    entries.push(None);
    let mut i: u32 = 1;
    proof {
        assert(ConstantPool { data: entries }@ =~= seq![None]);
    }
    if i >= count as u32 {
        return Ok(ConstantPool { data: entries });
    }
    while i < count as u32
        invariant
            1 <= i < count as u32 + 2,
            start == *old(pos) as int,
            s == data@,
            pool_spec(s, start) == pool_from(s, *pos as int, i as int, count as int, ConstantPool { data: entries }@),
        decreases count as u32 + 2 - i,
    {
        let ghost before = ConstantPool { data: entries }@;
        let ghost p = *pos as int;
        let entry = match read_entry(data, pos) {
            Ok(e) => e,
            Err(e) => {
                assert(pool_from(s, p, i as int, count as int, before) == Err::<(PoolView, int), ClassFileError>(e));
                return Err(e);
            },
        };
        let wide = match &entry {
            ConstantPoolInfo::Long { .. } | ConstantPoolInfo::Double { .. } => true,
            _ => false,
        };
        entries.push(Some(entry));
        if wide {
            entries.push(None);
            i = i + 2;
        } else {
            i = i + 1;
        }
        proof {
            let after = ConstantPool { data: entries }@;
            let m = pool_entry(s, p)->Ok_0.0;
            if wide {
                assert(after =~= before.push(Some(m)).push(None));
            } else {
                assert(after =~= before.push(Some(m)));
            }
        }
    }
    Ok(ConstantPool { data: entries })
}


/// A wide entry (`Long` or `Double`) is never followed by an entry in the next slot, and
/// the slots do not end with one.
pub open spec fn wide_slots_reserved(pool: PoolView) -> bool {
    &&& forall|k: int| 0 <= k < pool.len() - 1 && #[trigger] wide_slot(pool[k]) ==> pool[k + 1] is None
    &&& pool.len() > 0 ==> !wide_slot(pool.last())
}

/// The slot holds a `Long` or a `Double`.
pub open spec fn wide_slot(o: Option<PoolEntry>) -> bool {
    o matches Some(e) && is_wide(e)
}

proof fn lemma_pool_from_reserves(s: Seq<u8>, p: int, i: int, count: int, acc: PoolView)
    requires
        wide_slots_reserved(acc),
        pool_from(s, p, i, count, acc) is Ok,
    ensures
        wide_slots_reserved(pool_from(s, p, i, count, acc)->Ok_0.0),
    decreases count - i,
{
    if i < count {
        let (e, q) = pool_entry(s, p)->Ok_0;
        let acc2 = if is_wide(e) {
            acc.push(Some(e)).push(None)
        } else {
            acc.push(Some(e))
        };
        assert(wide_slots_reserved(acc2)) by {
            assert forall|k: int|
                0 <= k < acc2.len() - 1 && #[trigger] wide_slot(acc2[k]) implies acc2[k + 1] is None by {
                if k < acc.len() - 1 {
                    assert(acc2[k] == acc[k] && acc2[k + 1] == acc[k + 1]);
                } else if k == acc.len() - 1 {
                    assert(acc2[k] == acc.last());
                }
            }
        }
        let j = if is_wide(e) {
            i + 2
        } else {
            i + 1
        };
        if j < count {
            lemma_pool_from_reserves(s, q, j, count, acc2);
        }
    }
}

/// When a pool holds a `Long` or `Double` at index `k`, nothing is stored at `k + 1`:
/// a lookup there fails with `InvalidCPEntry`.
pub proof fn lemma_wide_entry_reserves_next_slot(s: Seq<u8>, p: int, k: int)
    requires
        pool_spec(s, p) is Ok,
        wide_slot(entry_at(pool_spec(s, p)->Ok_0.0, k)),
    ensures
        entry_at(pool_spec(s, p)->Ok_0.0, k + 1) is None,
{
    let m = pool_spec(s, p)->Ok_0.0;
    assert(wide_slots_reserved(seq![None::<PoolEntry>]));
    lemma_pool_from_reserves(s, p + 2, 1, be16(s, p), seq![None]);
    if k + 1 < m.len() {
        assert(wide_slot(m[k]));
    }
}

/// The eight bytes of a `Long` are its high word and then its low word: the value read is
/// `(high << 32) | low`.
pub proof fn lemma_long_word_order(s: Seq<u8>, p: int)
    requires
        present(s, p, 9),
        s[p] == 5,
    ensures
        pool_entry(s, p) matches Ok((PoolEntry::Long { data }, q)) && q == p + 9 && data as u64 == (
        (be32(s, p + 1) as u64) << 32) | be32(s, p + 5) as u64,
{
    let h = be32(s, p + 1);
    let l = be32(s, p + 5);
    assert(0 <= h < 0x1_0000_0000 && 0 <= l < 0x1_0000_0000) by {
        assert(0 <= s[p + 1] < 256 && 0 <= s[p + 2] < 256 && 0 <= s[p + 3] < 256 && 0 <= s[p + 4] < 256);
        assert(0 <= s[p + 5] < 256 && 0 <= s[p + 6] < 256 && 0 <= s[p + 7] < 256 && 0 <= s[p + 8] < 256);
    }
    let hu = h as u64;
    let lu = l as u64;
    assert((hu << 32) | lu == hu * 0x1_0000_0000 + lu) by (bit_vector)
        requires
            hu < 0x1_0000_0000,
            lu < 0x1_0000_0000,
    ;
    let v: u64 = (hu * 0x1_0000_0000 + lu) as u64;
    let d = signed64(v as int) as i64;
    assert(d as u64 == v) by {
        if v >= 0x8000_0000_0000_0000 {
            let w: u64 = (v - 0x8000_0000_0000_0000) as u64;
            assert(((w as i64) - 0x7FFF_FFFF_FFFF_FFFFi64 - 1) as u64 == w + 0x8000_0000_0000_0000) by (bit_vector)
                requires
                    w < 0x8000_0000_0000_0000,
            ;
        }
    }
}


/// Bytes after an entry do not change how it reads.
pub proof fn lemma_pool_entry_prefix(s: Seq<u8>, t: Seq<u8>, p: int)
    requires
        pool_entry(s, p) is Ok,
    ensures
        pool_entry(s + t, p) == pool_entry(s, p),
{
    let u = s + t;
    if s[p] == 1 {
        let b = p + 1;
        let n = be16(s, b);
        assert(u.subrange(b + 2, b + 2 + n) =~= s.subrange(b + 2, b + 2 + n));
    }
}

/// Bytes after a run of entries do not change how it reads.
pub proof fn lemma_pool_from_prefix(s: Seq<u8>, t: Seq<u8>, p: int, i: int, count: int, acc: PoolView)
    requires
        pool_from(s, p, i, count, acc) is Ok,
    ensures
        pool_from(s + t, p, i, count, acc) == pool_from(s, p, i, count, acc),
    decreases count - i,
{
    if i < count {
        lemma_pool_entry_prefix(s, t, p);
        let (e, q) = pool_entry(s, p)->Ok_0;
        let acc2 = if is_wide(e) {
            acc.push(Some(e)).push(None)
        } else {
            acc.push(Some(e))
        };
        let j = if is_wide(e) {
            i + 2
        } else {
            i + 1
        };
        if j < count {
            lemma_pool_from_prefix(s, t, q, j, count, acc2);
        }
    }
}

/// Bytes after a constant pool do not change how it reads.
pub proof fn lemma_pool_spec_prefix(s: Seq<u8>, t: Seq<u8>, p: int)
    requires
        pool_spec(s, p) is Ok,
    ensures
        pool_spec(s + t, p) == pool_spec(s, p),
{
    lemma_pool_from_prefix(s, t, p + 2, 1, be16(s, p), seq![None]);
}

} // verus!
