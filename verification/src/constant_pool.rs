//! The constant pool: the class file's table of literals, names and symbolic
//! references, addressed by 1-based index.

use crate::atom::{available, be_u16, be_u32, be_u64, cut_of, spec_bytes, spec_u2, Cursor};
use crate::error::DecodeError;
use crate::text::{spec_text, utf8_str};
use vstd::prelude::*;
use vstd::utf8::{decode_utf8_encode_utf8, encode_utf8, valid_utf8};

verus! {

/// Tag of a `Utf8` entry.
pub const TAG_UTF8: u8 = 1;

/// Tag of an `Integer` entry.
pub const TAG_INTEGER: u8 = 3;

/// Tag of a `Float` entry.
pub const TAG_FLOAT: u8 = 4;

/// Tag of a `Long` entry.
pub const TAG_LONG: u8 = 5;

/// Tag of a `Double` entry.
pub const TAG_DOUBLE: u8 = 6;

/// Tag of a `ClassRef` entry.
pub const TAG_CLASS: u8 = 7;

/// Tag of a `StringRef` entry.
pub const TAG_STRING: u8 = 8;

/// Tag of a `FieldRef` entry.
pub const TAG_FIELD_REF: u8 = 9;

/// Tag of a `MethodRef` entry.
pub const TAG_METHOD_REF: u8 = 10;

/// Tag of an `InterfaceMethodRef` entry.
pub const TAG_INTERFACE_METHOD_REF: u8 = 11;

/// Tag of a `NameAndType` entry.
pub const TAG_NAME_AND_TYPE: u8 = 12;

/// Tag of a `MethodHandle` entry.
pub const TAG_METHOD_HANDLE: u8 = 15;

/// Tag of a `MethodType` entry.
pub const TAG_METHOD_TYPE: u8 = 16;

/// Tag of a `Dynamic` entry.
pub const TAG_DYNAMIC: u8 = 17;

/// Tag of an `InvokeDynamic` entry.
pub const TAG_INVOKE_DYNAMIC: u8 = 18;

/// Tag of a `Module` entry.
pub const TAG_MODULE: u8 = 19;

/// Tag of a `Package` entry.
pub const TAG_PACKAGE: u8 = 20;

/// One entry of the constant pool.
///
/// Numeric entries hold their payload as the unsigned big-endian value of its
/// bytes; for `Float` and `Double` that is the bit pattern of the number.
#[derive(Debug, PartialEq, Eq)]
pub enum Constant {
    /// A string, as the bytes that encode it.
    Utf8(Vec<u8>),
    /// A 32-bit integer.
    Integer(u32),
    /// A 32-bit floating-point number.
    Float(u32),
    /// A 64-bit integer. Takes two slots of the pool.
    Long(u64),
    /// A 64-bit floating-point number. Takes two slots of the pool.
    Double(u64),
    /// A class, by the index of its name.
    ClassRef(u16),
    /// A string literal, by the index of its text.
    StringRef(u16),
    /// A field, by the indices of its class and of its name and type.
    FieldRef(u16, u16),
    /// A method, by the indices of its class and of its name and type.
    MethodRef(u16, u16),
    /// An interface method, by the indices of its class and of its name and type.
    InterfaceMethodRef(u16, u16),
    /// A name and a descriptor, by their indices.
    NameAndType(u16, u16),
    /// A method handle: its kind and the index of what it refers to.
    MethodHandle(u8, u16),
    /// A method type, by the index of its descriptor.
    MethodType(u16),
    /// A dynamically computed constant: the index of its bootstrap method and
    /// that of its name and type.
    Dynamic(u16, u16),
    /// A dynamic call site: the index of its bootstrap method and that of its
    /// name and type.
    InvokeDynamic(u16, u16),
    /// A module, by the index of its name.
    Module(u16),
    /// A package, by the index of its name.
    Package(u16),
}

/// What a [`Constant`] stands for: the same entry with its bytes as a sequence.
pub ghost enum ConstantModel {
    Utf8(Seq<u8>),
    Integer(u32),
    Float(u32),
    Long(u64),
    Double(u64),
    ClassRef(u16),
    StringRef(u16),
    FieldRef(u16, u16),
    MethodRef(u16, u16),
    InterfaceMethodRef(u16, u16),
    NameAndType(u16, u16),
    MethodHandle(u8, u16),
    MethodType(u16),
    Dynamic(u16, u16),
    InvokeDynamic(u16, u16),
    Module(u16),
    Package(u16),
}

impl View for Constant {
    type V = ConstantModel;

    open spec fn view(&self) -> ConstantModel {
        match self {
            Constant::Utf8(bytes) => ConstantModel::Utf8(bytes@),
            Constant::Integer(v) => ConstantModel::Integer(*v),
            Constant::Float(v) => ConstantModel::Float(*v),
            Constant::Long(v) => ConstantModel::Long(*v),
            Constant::Double(v) => ConstantModel::Double(*v),
            Constant::ClassRef(name) => ConstantModel::ClassRef(*name),
            Constant::StringRef(text) => ConstantModel::StringRef(*text),
            Constant::FieldRef(class, name_and_type) => ConstantModel::FieldRef(*class, *name_and_type),
            Constant::MethodRef(class, name_and_type) => ConstantModel::MethodRef(*class, *name_and_type),
            Constant::InterfaceMethodRef(class, name_and_type) => ConstantModel::InterfaceMethodRef(
                *class,
                *name_and_type,
            ),
            Constant::NameAndType(name, descriptor) => ConstantModel::NameAndType(
                *name,
                *descriptor,
            ),
            Constant::MethodHandle(kind, reference) => ConstantModel::MethodHandle(
                *kind,
                *reference,
            ),
            Constant::MethodType(descriptor) => ConstantModel::MethodType(*descriptor),
            Constant::Dynamic(bootstrap, name_and_type) => ConstantModel::Dynamic(*bootstrap, *name_and_type),
            Constant::InvokeDynamic(bootstrap, name_and_type) => ConstantModel::InvokeDynamic(
                *bootstrap,
                *name_and_type,
            ),
            Constant::Module(name) => ConstantModel::Module(*name),
            Constant::Package(name) => ConstantModel::Package(*name),
        }
    }
}

/// The slots of a pool: slot `i` holds the entry with index `i`, or nothing
/// where no entry can be addressed.
pub type PoolModel = Seq<Option<ConstantModel>>;

/// Whether `tag` names a kind of entry whose payload has a fixed size.
pub open spec fn fixed_tag(tag: u8) -> bool {
    3 <= tag <= 12 || 15 <= tag <= 20
}

/// The size in bytes of the payload that follows the fixed-size tag `tag`.
pub open spec fn payload_len(tag: u8) -> int {
    if tag == TAG_LONG || tag == TAG_DOUBLE {
        8
    } else if tag == TAG_CLASS || tag == TAG_STRING || tag == TAG_METHOD_TYPE || tag == TAG_MODULE
        || tag == TAG_PACKAGE {
        2
    } else if tag == TAG_METHOD_HANDLE {
        3
    } else {
        4
    }
}

/// The entry that the fixed-size tag `tag` and the payload at `p` make up.
pub open spec fn fixed_constant(tag: u8, s: Seq<u8>, p: int) -> ConstantModel {
    let a = be_u16(s, p) as u16;
    let b = be_u16(s, p + 2) as u16;
    if tag == TAG_INTEGER {
        ConstantModel::Integer(be_u32(s, p) as u32)
    } else if tag == TAG_FLOAT {
        ConstantModel::Float(be_u32(s, p) as u32)
    } else if tag == TAG_LONG {
        ConstantModel::Long(be_u64(s, p) as u64)
    } else if tag == TAG_DOUBLE {
        ConstantModel::Double(be_u64(s, p) as u64)
    } else if tag == TAG_CLASS {
        ConstantModel::ClassRef(a)
    } else if tag == TAG_STRING {
        ConstantModel::StringRef(a)
    } else if tag == TAG_FIELD_REF {
        ConstantModel::FieldRef(a, b)
    } else if tag == TAG_METHOD_REF {
        ConstantModel::MethodRef(a, b)
    } else if tag == TAG_INTERFACE_METHOD_REF {
        ConstantModel::InterfaceMethodRef(a, b)
    } else if tag == TAG_NAME_AND_TYPE {
        ConstantModel::NameAndType(a, b)
    } else if tag == TAG_METHOD_HANDLE {
        ConstantModel::MethodHandle(s[p], be_u16(s, p + 1) as u16)
    } else if tag == TAG_METHOD_TYPE {
        ConstantModel::MethodType(a)
    } else if tag == TAG_DYNAMIC {
        ConstantModel::Dynamic(a, b)
    } else if tag == TAG_INVOKE_DYNAMIC {
        ConstantModel::InvokeDynamic(a, b)
    } else if tag == TAG_MODULE {
        ConstantModel::Module(a)
    } else {
        ConstantModel::Package(a)
    }
}

/// One entry at `pos`: a tag byte, then the payload that the tag calls for.
///
/// A `Utf8` entry is a two-byte length and that many bytes. A tag that names
/// no kind of entry is refused, before anything behind it is looked at.
pub open spec fn spec_constant(s: Seq<u8>, pos: int) -> Result<(ConstantModel, int), DecodeError> {
    if !available(s, pos, 1) {
        Err(DecodeError::UnexpectedEof)
    } else if s[pos] == TAG_UTF8 {
        if !available(s, pos + 1, 2) {
            Err(DecodeError::UnexpectedEof)
        } else {
            match spec_bytes(s, pos + 3, be_u16(s, pos + 1)) {
                Ok((text, next)) => Ok((ConstantModel::Utf8(text), next)),
                Err(e) => Err(e),
            }
        }
    } else if !fixed_tag(s[pos]) {
        Err(DecodeError::UnknownConstantTag)
    } else if !available(s, pos + 1, payload_len(s[pos])) {
        Err(DecodeError::UnexpectedEof)
    } else {
        Ok((fixed_constant(s[pos], s, pos + 1), pos + 1 + payload_len(s[pos])))
    }
}

/// Whether an entry takes two slots of the pool.
pub open spec fn is_wide(c: ConstantModel) -> bool {
    c is Long || c is Double
}

/// How many slots of the pool an entry takes.
pub open spec fn width(c: ConstantModel) -> int {
    if is_wide(c) {
        2
    } else {
        1
    }
}

/// The slots that one entry fills: itself, and behind a `Long` or `Double` one
/// slot that cannot be addressed.
pub open spec fn slots_of(c: ConstantModel) -> PoolModel {
    if is_wide(c) {
        seq![Some(c), None]
    } else {
        seq![Some(c)]
    }
}

/// The entries from slot `slot` up to, not including, slot `count`, read from
/// `pos` on.
pub open spec fn spec_entries(s: Seq<u8>, pos: int, slot: int, count: int) -> Result<
    (PoolModel, int),
    DecodeError,
>
    decreases count + 1 - slot,
{
    if slot >= count {
        Ok((Seq::empty(), pos))
    } else {
        match spec_constant(s, pos) {
            Err(e) => Err(e),
            Ok((c, p)) => match spec_entries(s, p, slot + width(c), count) {
                Err(e) => Err(e),
                Ok((rest, next)) => Ok((slots_of(c) + rest, next)),
            },
        }
    }
}

/// A constant pool at `pos`: a two-byte count, then the entries of the slots
/// from 1 up to, not including, the count. Slot 0 is never filled.
pub open spec fn spec_pool(s: Seq<u8>, pos: int) -> Result<(PoolModel, int), DecodeError> {
    match spec_u2(s, pos) {
        Err(e) => Err(e),
        Ok((count, p)) => match spec_entries(s, p, 1, count as int) {
            Err(e) => Err(e),
            Ok((slots, next)) => Ok((seq![None] + slots, next)),
        },
    }
}

/// A pool is well formed when every slot has a two-byte index, slot 0 is
/// empty, and the slot behind every `Long` or `Double` entry is there and
/// empty.
pub open spec fn pool_wf(pool: PoolModel) -> bool {
    &&& 1 <= pool.len() <= 0x1_0000
    &&& pool[0] is None
    &&& forall|i: int|
        0 <= i < pool.len() && (#[trigger] pool[i]) is Some && is_wide(pool[i]->0) ==> i + 1
            < pool.len() && pool[i + 1] is None
}

/// The entry at `index`.
pub open spec fn spec_get(pool: PoolModel, index: u16) -> Result<ConstantModel, DecodeError> {
    if index < pool.len() && pool[index as int] is Some {
        Ok(pool[index as int]->0)
    } else {
        Err(DecodeError::IndexOutOfRange)
    }
}

/// The bytes of the `Utf8` entry at `index`.
pub open spec fn spec_get_utf8(pool: PoolModel, index: u16) -> Result<Seq<u8>, DecodeError> {
    match spec_get(pool, index) {
        Err(e) => Err(e),
        Ok(ConstantModel::Utf8(bytes)) => Ok(bytes),
        Ok(_) => Err(DecodeError::TypeMismatch),
    }
}

/// The name index of the `ClassRef` entry at `index`.
pub open spec fn spec_get_class_ref(pool: PoolModel, index: u16) -> Result<u16, DecodeError> {
    match spec_get(pool, index) {
        Err(e) => Err(e),
        Ok(ConstantModel::ClassRef(name)) => Ok(name),
        Ok(_) => Err(DecodeError::TypeMismatch),
    }
}

/// The name index and the descriptor index of the `NameAndType` entry at
/// `index`.
pub open spec fn spec_get_name_and_type(pool: PoolModel, index: u16) -> Result<
    (u16, u16),
    DecodeError,
> {
    match spec_get(pool, index) {
        Err(e) => Err(e),
        Ok(ConstantModel::NameAndType(name, descriptor)) => Ok((name, descriptor)),
        Ok(_) => Err(DecodeError::TypeMismatch),
    }
}

/// The text that the `Utf8` entry at `index` encodes.
pub open spec fn spec_utf8_text(pool: PoolModel, index: u16) -> Result<Seq<char>, DecodeError> {
    match spec_get_utf8(pool, index) {
        Err(e) => Err(e),
        Ok(bytes) => match spec_text(bytes) {
            Some(text) => Ok(text),
            None => Err(DecodeError::TypeMismatch),
        },
    }
}

/// The text at `index`: that of a `Utf8` entry, or of the `Utf8` entry that a
/// `ClassRef` or `StringRef` entry names. Nothing else is text, and neither
/// are bytes that are not well-formed UTF-8.
pub open spec fn spec_get_str(pool: PoolModel, index: u16) -> Result<Seq<char>, DecodeError> {
    match spec_get(pool, index) {
        Err(e) => Err(e),
        Ok(ConstantModel::Utf8(_)) => spec_utf8_text(pool, index),
        Ok(ConstantModel::ClassRef(name)) => spec_utf8_text(pool, name),
        Ok(ConstantModel::StringRef(text)) => spec_utf8_text(pool, text),
        Ok(_) => Err(DecodeError::TypeMismatch),
    }
}

/// The slots that `spec_entries` fills: as many as lie between `slot` and
/// `count`, or one more where the last entry is a `Long` or `Double`; and
/// behind each `Long` or `Double` among them an empty slot.
pub proof fn lemma_entries_shape(s: Seq<u8>, pos: int, slot: int, count: int)
    ensures
        spec_entries(s, pos, slot, count) matches Ok((slots, _)) ==> {
            &&& slot < count ==> count - slot <= slots.len() <= count - slot + 1
            &&& slot >= count ==> slots.len() == 0
            &&& forall|i: int|
                0 <= i < slots.len() && (#[trigger] slots[i]) is Some && is_wide(slots[i]->0)
                    ==> i + 1 < slots.len() && slots[i + 1] is None
        },
    decreases count + 1 - slot,
{
    if slot < count {
        if let Ok((c, p)) = spec_constant(s, pos) {
            lemma_entries_shape(s, p, slot + width(c), count);
            if let Ok((rest, _)) = spec_entries(s, p, slot + width(c), count) {
                let slots = slots_of(c) + rest;
                assert forall|i: int|
                    0 <= i < slots.len() && (#[trigger] slots[i]) is Some && is_wide(
                        slots[i]->0,
                    ) implies i + 1 < slots.len() && slots[i + 1] is None by {
                    if i >= width(c) {
                        assert(slots[i] == rest[i - width(c)]);
                        assert(slots[i + 1] == rest[i + 1 - width(c)]);
                    }
                }
            }
        }
    }
}

/// Every pool that is decoded is well formed.
pub proof fn lemma_decoded_pool_wf(s: Seq<u8>, pos: int)
    ensures
        spec_pool(s, pos) matches Ok((pool, _)) ==> pool_wf(pool),
{
    if let Ok((count, p)) = spec_u2(s, pos) {
        lemma_entries_shape(s, p, 1, count as int);
        if let Ok((slots, _)) = spec_entries(s, p, 1, count as int) {
            let pool = seq![None::<ConstantModel>] + slots;
            assert forall|i: int|
                0 <= i < pool.len() && (#[trigger] pool[i]) is Some && is_wide(
                    pool[i]->0,
                ) implies i + 1 < pool.len() && pool[i + 1] is None by {
                assert(pool[i] == slots[i - 1]);
                assert(pool[i + 1] == slots[i]);
            }
        }
    }
}

/// An entry ends behind where it begins, and decoding it from a prefix of the
/// buffer gives the same entry or, where the prefix ends inside it, runs out
/// of bytes.
pub proof fn lemma_constant_cut(s: Seq<u8>, pos: int, k: int)
    requires
        0 <= k <= s.len(),
    ensures
        spec_constant(s, pos) matches Ok((_, next)) ==> pos < next <= s.len(),
        cut_of(spec_constant(s, pos), spec_constant(s.take(k), pos), k),
{
    if available(s, pos, 3) && s[pos] == TAG_UTF8 {
        let next = pos + 3 + be_u16(s, pos + 1);
        if next <= k {
            assert(s.take(k).subrange(pos + 3, next) =~= s.subrange(pos + 3, next));
        }
    }
}

/// A run of entries ends at or behind where it begins, and decoding it from a
/// prefix of the buffer gives the same entries or, where the prefix ends
/// inside them, runs out of bytes.
pub proof fn lemma_entries_cut(s: Seq<u8>, pos: int, slot: int, count: int, k: int)
    requires
        0 <= pos <= k <= s.len(),
    ensures
        spec_entries(s, pos, slot, count) matches Ok((_, next)) ==> pos <= next <= s.len(),
        cut_of(spec_entries(s, pos, slot, count), spec_entries(s.take(k), pos, slot, count), k),
    decreases count + 1 - slot,
{
    if slot < count {
        lemma_constant_cut(s, pos, k);
        if let Ok((c, p)) = spec_constant(s, pos) {
            lemma_entries_cut(
                s,
                p,
                slot + width(c),
                count,
                if p <= k {
                    k
                } else {
                    s.len() as int
                },
            );
        }
    }
}

/// A constant pool ends behind where it begins, and decoding it from a prefix
/// of the buffer gives the same pool or, where the prefix ends inside it,
/// runs out of bytes.
pub proof fn lemma_pool_cut(s: Seq<u8>, pos: int, k: int)
    requires
        0 <= k <= s.len(),
    ensures
        spec_pool(s, pos) matches Ok((_, next)) ==> pos < next <= s.len(),
        cut_of(spec_pool(s, pos), spec_pool(s.take(k), pos), k),
{
    if let Ok((count, p)) = spec_u2(s, pos) {
        lemma_entries_cut(
            s,
            p,
            1,
            count as int,
            if p <= k {
                k
            } else {
                s.len() as int
            },
        );
    }
}

/// Whether one of the entries that `spec_entries` decodes from `pos` on
/// begins at `at`, every entry before it being decoded without fault.
pub open spec fn entry_begins(s: Seq<u8>, pos: int, slot: int, count: int, at: int) -> bool
    decreases count + 1 - slot,
{
    slot < count && (at == pos || match spec_constant(s, pos) {
        Ok((c, p)) => entry_begins(s, p, slot + width(c), count, at),
        Err(_) => false,
    })
}

/// Whether `tag` names no kind of entry.
pub open spec fn unassigned_tag(tag: u8) -> bool {
    tag != TAG_UTF8 && !fixed_tag(tag)
}

/// An unassigned tag where an entry begins fails the run of entries, and with
/// nothing but an unknown tag: whatever the entry was and whatever follows.
pub proof fn lemma_entries_unknown_tag(
    s: Seq<u8>,
    pos: int,
    slot: int,
    count: int,
    at: int,
    tag: u8,
)
    requires
        0 <= pos,
        at < s.len(),
        entry_begins(s, pos, slot, count, at),
        unassigned_tag(tag),
    ensures
        pos <= at,
        spec_entries(s.update(at, tag), pos, slot, count) == Err::<(PoolModel, int), DecodeError>(
            DecodeError::UnknownConstantTag,
        ),
    decreases count + 1 - slot,
{
    if at != pos {
        let (c, p) = spec_constant(s, pos)->Ok_0;
        lemma_entries_unknown_tag(s, p, slot + width(c), count, at, tag);
        lemma_constant_cut(s, pos, at);
        lemma_constant_cut(s.update(at, tag), pos, at);
        assert(s.update(at, tag).take(at) =~= s.take(at));
    }
}

/// An unassigned tag where an entry of the pool begins fails the pool with
/// an unknown tag.
pub proof fn lemma_pool_unknown_tag(s: Seq<u8>, pos: int, at: int, tag: u8)
    requires
        at < s.len(),
        spec_u2(s, pos) is Ok,
        entry_begins(s, pos + 2, 1, spec_u2(s, pos)->Ok_0.0 as int, at),
        unassigned_tag(tag),
    ensures
        spec_pool(s.update(at, tag), pos) == Err::<(PoolModel, int), DecodeError>(
            DecodeError::UnknownConstantTag,
        ),
{
    lemma_entries_unknown_tag(s, pos + 2, 1, spec_u2(s, pos)->Ok_0.0 as int, at, tag);
}

/// The slot behind a `Long` or `Double` entry cannot be addressed, and the
/// entry changes nothing about the other slots: each of them that is filled
/// still answers with its own entry.
pub proof fn lemma_wide_entry_hides_next_slot(pool: PoolModel, index: u16)
    requires
        pool_wf(pool),
        spec_get(pool, index) is Ok,
        is_wide(spec_get(pool, index)->Ok_0),
    ensures
        index < u16::MAX,
        spec_get(pool, (index + 1) as u16) == Err::<ConstantModel, DecodeError>(
            DecodeError::IndexOutOfRange,
        ),
        forall|other: u16|
            other != index + 1 && other < pool.len() && (#[trigger] pool[other as int]) is Some
                ==> spec_get(pool, other) == Ok::<ConstantModel, DecodeError>(
                pool[other as int]->0,
            ),
{
    assert(pool[index as int] is Some);
}

/// Text that is found is the text that the entry encodes: encoding it again
/// gives the bytes of the `Utf8` entry back.
pub proof fn lemma_utf8_text_as_encoded(pool: PoolModel, index: u16)
    ensures
        spec_utf8_text(pool, index) matches Ok(text) ==> spec_get_utf8(pool, index) == Ok::<
            Seq<u8>,
            DecodeError,
        >(encode_utf8(text)),
{
    if let Ok(bytes) = spec_get_utf8(pool, index) {
        if valid_utf8(bytes) {
            decode_utf8_encode_utf8(bytes);
        }
    }
}

impl Constant {
    /// Decodes one entry: a tag byte and the payload that the tag calls for.
    pub fn read<'a>(cur: Cursor<'a>) -> (res: Result<(Constant, Cursor<'a>), DecodeError>)
        ensures
            match res {
                Ok((c, next)) => next.buffer() == cur.buffer() && spec_constant(
                    cur.buffer(),
                    cur.offset(),
                ) == Ok::<(ConstantModel, int), DecodeError>((c@, next.offset())),
                Err(e) => spec_constant(cur.buffer(), cur.offset()) == Err::<
                    (ConstantModel, int),
                    DecodeError,
                >(e),
            },
    {
        let (tag, cur) = cur.read_u1()?;
        if tag == TAG_UTF8 {
            let (len, cur) = cur.read_u2()?;
            let (bytes, cur) = cur.read_bytes(len as usize)?;
            Ok((Constant::Utf8(bytes), cur))
        } else if tag == TAG_INTEGER {
            let (v, cur) = cur.read_u4()?;
            Ok((Constant::Integer(v), cur))
        } else if tag == TAG_FLOAT {
            let (v, cur) = cur.read_u4()?;
            Ok((Constant::Float(v), cur))
        } else if tag == TAG_LONG {
            let (hi, cur) = cur.read_u4()?;
            let (lo, cur) = cur.read_u4()?;
            Ok((Constant::Long(hi as u64 * 0x1_0000_0000 + lo as u64), cur))
        } else if tag == TAG_DOUBLE {
            let (hi, cur) = cur.read_u4()?;
            let (lo, cur) = cur.read_u4()?;
            Ok((Constant::Double(hi as u64 * 0x1_0000_0000 + lo as u64), cur))
        } else if tag == TAG_CLASS {
            let (name, cur) = cur.read_u2()?;
            Ok((Constant::ClassRef(name), cur))
        } else if tag == TAG_STRING {
            let (text, cur) = cur.read_u2()?;
            Ok((Constant::StringRef(text), cur))
        } else if tag == TAG_FIELD_REF {
            let (class, cur) = cur.read_u2()?;
            let (name_and_type, cur) = cur.read_u2()?;
            Ok((Constant::FieldRef(class, name_and_type), cur))
        } else if tag == TAG_METHOD_REF {
            let (class, cur) = cur.read_u2()?;
            let (name_and_type, cur) = cur.read_u2()?;
            Ok((Constant::MethodRef(class, name_and_type), cur))
        } else if tag == TAG_INTERFACE_METHOD_REF {
            let (class, cur) = cur.read_u2()?;
            let (name_and_type, cur) = cur.read_u2()?;
            Ok((Constant::InterfaceMethodRef(class, name_and_type), cur))
        } else if tag == TAG_NAME_AND_TYPE {
            let (name, cur) = cur.read_u2()?;
            let (descriptor, cur) = cur.read_u2()?;
            Ok((Constant::NameAndType(name, descriptor), cur))
        } else if tag == TAG_METHOD_HANDLE {
            let (kind, cur) = cur.read_u1()?;
            let (reference, cur) = cur.read_u2()?;
            Ok((Constant::MethodHandle(kind, reference), cur))
        } else if tag == TAG_METHOD_TYPE {
            let (descriptor, cur) = cur.read_u2()?;
            Ok((Constant::MethodType(descriptor), cur))
        } else if tag == TAG_DYNAMIC {
            let (bootstrap, cur) = cur.read_u2()?;
            let (name_and_type, cur) = cur.read_u2()?;
            Ok((Constant::Dynamic(bootstrap, name_and_type), cur))
        } else if tag == TAG_INVOKE_DYNAMIC {
            let (bootstrap, cur) = cur.read_u2()?;
            let (name_and_type, cur) = cur.read_u2()?;
            Ok((Constant::InvokeDynamic(bootstrap, name_and_type), cur))
        } else if tag == TAG_MODULE {
            let (name, cur) = cur.read_u2()?;
            Ok((Constant::Module(name), cur))
        } else if tag == TAG_PACKAGE {
            let (name, cur) = cur.read_u2()?;
            Ok((Constant::Package(name), cur))
        } else {
            Err(DecodeError::UnknownConstantTag)
        }
    }
}

/// What a slot of the pool stands for.
pub open spec fn slot_model(slot: Option<Constant>) -> Option<ConstantModel> {
    match slot {
        Some(c) => Some(c@),
        None => None,
    }
}

/// What a run of slots stands for.
pub open spec fn slot_models(slots: Seq<Option<Constant>>) -> PoolModel {
    Seq::new(slots.len(), |i: int| slot_model(slots[i]))
}

/// A decoded constant pool.
///
/// Slot 0 is empty, and so is the slot behind every `Long` or `Double` entry:
/// no query reaches them.
#[derive(Debug, PartialEq, Eq)]
pub struct ConstantPool {
    slots: Vec<Option<Constant>>,
}

impl View for ConstantPool {
    type V = PoolModel;

    closed spec fn view(&self) -> PoolModel {
        slot_models(self.slots@)
    }
}

impl ConstantPool {
    /// Every pool is well formed, however it was come by.
    #[verifier::type_invariant]
    spec fn well_formed(&self) -> bool {
        pool_wf(self@)
    }

    /// Decodes a constant pool: a two-byte count, then the entries.
    pub fn read<'a>(cur: Cursor<'a>) -> (res: Result<(ConstantPool, Cursor<'a>), DecodeError>)
        ensures
            match res {
                Ok((pool, next)) => {
                    &&& next.buffer() == cur.buffer()
                    &&& spec_pool(cur.buffer(), cur.offset()) == Ok::<(PoolModel, int), DecodeError>(
                        (pool@, next.offset()),
                    )
                    &&& pool_wf(pool@)
                },
                Err(e) => spec_pool(cur.buffer(), cur.offset()) == Err::<(PoolModel, int), DecodeError>(
                    e,
                ),
            },
    {
        let (count, first) = cur.read_u2()?;
        let ghost s = cur.buffer();
        let ghost start = first.offset();
        let mut slots: Vec<Option<Constant>> = Vec::new();
        slots.push(None);
        let mut at = first;
        let mut slot: u32 = 1;
        while slot < count as u32
            invariant
                s == cur.buffer(),
                at.buffer() == s,
                spec_u2(s, cur.offset()) == Ok::<(u16, int), DecodeError>((count, start)),
                1 <= slot <= count + 1,
                slots@.len() == slot,
                slots@[0] is None,
                spec_entries(s, start, 1, count as int) == match spec_entries(
                    s,
                    at.offset(),
                    slot as int,
                    count as int,
                ) {
                    Ok((rest, next)) => Ok::<(PoolModel, int), DecodeError>(
                        (slot_models(slots@).skip(1) + rest, next),
                    ),
                    Err(e) => Err(e),
                },
            decreases count + 1 - slot,
        {
            let ghost before = slot_models(slots@);
            let (c, next) = Constant::read(at)?;
            let wide: bool = match c {
                Constant::Long(_) => true,
                Constant::Double(_) => true,
                _ => false,
            };
            let ghost model = c@;
            slots.push(Some(c));
            if wide {
                slots.push(None);
                slot += 2;
            } else {
                slot += 1;
            }
            at = next;
            proof {
                assert(slot_models(slots@) =~= before + slots_of(model));
                match spec_entries(s, at.offset(), slot as int, count as int) {
                    Ok((rest, _)) => {
                        assert(slot_models(slots@).skip(1) + rest =~= before.skip(1) + (slots_of(
                            model,
                        ) + rest));
                    },
                    Err(_) => {},
                }
            }
        }
        proof {
            let filled = slot_models(slots@).skip(1);
            assert(filled + Seq::<Option<ConstantModel>>::empty() =~= filled);
            assert(seq![None::<ConstantModel>] + filled =~= slot_models(slots@));
            lemma_decoded_pool_wf(s, cur.offset());
        }
        Ok((ConstantPool { slots }, at))
    }

    /// The number of slots, the empty ones included.
    pub fn len(&self) -> (n: usize)
        ensures
            n == self@.len(),
            pool_wf(self@),
    {
        proof {
            use_type_invariant(self);
        }
        self.slots.len()
    }

    /// The entry at `index`.
    ///
    /// No entry is found at index 0, behind the last slot, or in the slot
    /// behind a `Long` or `Double` entry.
    pub fn get(&self, index: u16) -> (res: Result<&Constant, DecodeError>)
        ensures
            match res {
                Ok(c) => spec_get(self@, index) == Ok::<ConstantModel, DecodeError>(c@),
                Err(e) => spec_get(self@, index) == Err::<ConstantModel, DecodeError>(e),
            },
            pool_wf(self@),
    {
        proof {
            use_type_invariant(self);
        }
        if (index as usize) < self.slots.len() {
            match &self.slots[index as usize] {
                Some(c) => Ok(c),
                None => Err(DecodeError::IndexOutOfRange),
            }
        } else {
            Err(DecodeError::IndexOutOfRange)
        }
    }

    /// The bytes of the `Utf8` entry at `index`.
    pub fn get_utf8(&self, index: u16) -> (res: Result<&[u8], DecodeError>)
        ensures
            match res {
                Ok(bytes) => spec_get_utf8(self@, index) == Ok::<Seq<u8>, DecodeError>(bytes@),
                Err(e) => spec_get_utf8(self@, index) == Err::<Seq<u8>, DecodeError>(e),
            },
    {
        match self.get(index)? {
            Constant::Utf8(bytes) => Ok(bytes.as_slice()),
            _ => Err(DecodeError::TypeMismatch),
        }
    }

    /// The name index of the `ClassRef` entry at `index`.
    pub fn get_class_ref(&self, index: u16) -> (res: Result<u16, DecodeError>)
        ensures
            res == spec_get_class_ref(self@, index),
    {
        match self.get(index)? {
            Constant::ClassRef(name) => Ok(*name),
            _ => Err(DecodeError::TypeMismatch),
        }
    }

    /// The name index and the descriptor index of the `NameAndType` entry at
    /// `index`.
    pub fn get_name_and_type(&self, index: u16) -> (res: Result<(u16, u16), DecodeError>)
        ensures
            res == spec_get_name_and_type(self@, index),
    {
        match self.get(index)? {
            Constant::NameAndType(name, descriptor) => Ok((*name, *descriptor)),
            _ => Err(DecodeError::TypeMismatch),
        }
    }

    /// The text that the `Utf8` entry at `index` encodes.
    fn utf8_text(&self, index: u16) -> (res: Result<&str, DecodeError>)
        ensures
            match res {
                Ok(text) => spec_utf8_text(self@, index) == Ok::<Seq<char>, DecodeError>(text@),
                Err(e) => spec_utf8_text(self@, index) == Err::<Seq<char>, DecodeError>(e),
            },
    {
        match utf8_str(self.get_utf8(index)?) {
            Some(text) => Ok(text),
            None => Err(DecodeError::TypeMismatch),
        }
    }

    /// The text at `index`: that of a `Utf8` entry, or of the `Utf8` entry
    /// that a `ClassRef` or `StringRef` entry names.
    ///
    /// A reference is followed once, and must lead to a `Utf8` entry. The
    /// bytes of that entry are read as UTF-8; bytes that are not well-formed
    /// UTF-8 are no text and count as a mismatch of type. They can still be
    /// had from [`ConstantPool::get_utf8`].
    pub fn get_str(&self, index: u16) -> (res: Result<&str, DecodeError>)
        ensures
            match res {
                Ok(text) => spec_get_str(self@, index) == Ok::<Seq<char>, DecodeError>(text@),
                Err(e) => spec_get_str(self@, index) == Err::<Seq<char>, DecodeError>(e),
            },
    {
        match self.get(index)? {
            Constant::Utf8(_) => self.utf8_text(index),
            Constant::ClassRef(name) => self.utf8_text(*name),
            Constant::StringRef(text) => self.utf8_text(*text),
            _ => Err(DecodeError::TypeMismatch),
        }
    }
}

} // verus!
