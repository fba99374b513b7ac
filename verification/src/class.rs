//! The class: everything a class file holds, decoded in one pass, and the
//! queries on it.

use crate::atom::{available, be_u16, be_u32, cut_of, spec_u2, Cursor};
use crate::attribute::{
    attribute_models, lemma_attributes_cut, read_attributes, spec_attributes, AttributeModel,
    Attributes,
};
use crate::constant_pool::{
    entry_begins, lemma_decoded_pool_wf, lemma_pool_cut, lemma_pool_unknown_tag, pool_wf,
    unassigned_tag, spec_get, spec_get_str, spec_pool, ConstantModel,
    ConstantPool, PoolModel,
};
use crate::error::DecodeError;
use crate::field::{field_models, read_fields, Fields};
use crate::interface::{lemma_interfaces_cut, read_interfaces, spec_interfaces, Interfaces};
use crate::member::{
    lemma_members_cut, lemma_members_resolved, member_resolved, spec_members, MemberModel,
};
use crate::method::{method_models, read_methods, Method, Methods};
use crate::text::str_eq;
use vstd::prelude::*;
use vstd::utf8::{decode_utf8, decode_utf8_encode_utf8, encode_utf8, valid_utf8};

verus! {

/// A decoded class. Nothing changes it once it is decoded.
#[derive(Debug, PartialEq, Eq)]
pub struct Class {
    magic_number: u32,
    minor_version: u16,
    major_version: u16,
    constant_pool: ConstantPool,
    access_flag: u16,
    this_class: u16,
    super_class: u16,
    interfaces: Interfaces,
    fields: Fields,
    methods: Methods,
    attributes: Attributes,
}

/// What a [`Class`] stands for.
pub ghost struct ClassModel {
    pub magic_number: u32,
    pub minor_version: u16,
    pub major_version: u16,
    pub constant_pool: PoolModel,
    pub access_flag: u16,
    pub this_class: u16,
    pub super_class: u16,
    pub interfaces: Seq<u16>,
    pub fields: Seq<MemberModel>,
    pub methods: Seq<MemberModel>,
    pub attributes: Seq<AttributeModel>,
}

impl View for Class {
    type V = ClassModel;

    closed spec fn view(&self) -> ClassModel {
        ClassModel {
            magic_number: self.magic_number,
            minor_version: self.minor_version,
            major_version: self.major_version,
            constant_pool: self.constant_pool@,
            access_flag: self.access_flag,
            this_class: self.this_class,
            super_class: self.super_class,
            interfaces: self.interfaces@,
            fields: field_models(self.fields@),
            methods: method_models(self.methods@),
            attributes: attribute_models(self.attributes@),
        }
    }
}

/// A class file at the start of `s`, and where it ends: four bytes of magic
/// number, two of minor and two of major version, the constant pool, two
/// bytes each of access flags, of the index of the class itself and of the
/// index of its superclass, then the tables of interfaces, fields, methods
/// and attributes.
///
/// The first fault in this order is the one reported. The magic number is
/// kept as it is.
pub open spec fn spec_class_file(s: Seq<u8>) -> Result<(ClassModel, int), DecodeError> {
    if !available(s, 0, 8) {
        Err(DecodeError::UnexpectedEof)
    } else {
        match spec_pool(s, 8) {
            Err(e) => Err(e),
            Ok((constant_pool, p)) => if !available(s, p, 6) {
                Err(DecodeError::UnexpectedEof)
            } else {
                match spec_interfaces(s, p + 6) {
                    Err(e) => Err(e),
                    Ok((interfaces, q)) => match spec_members(s, q, constant_pool) {
                        Err(e) => Err(e),
                        Ok((fields, r)) => match spec_members(s, r, constant_pool) {
                            Err(e) => Err(e),
                            Ok((methods, t)) => match spec_attributes(s, t, constant_pool) {
                                Err(e) => Err(e),
                                Ok((attributes, end)) => Ok(
                                    (
                                        ClassModel {
                                            magic_number: be_u32(s, 0) as u32,
                                            minor_version: be_u16(s, 4) as u16,
                                            major_version: be_u16(s, 6) as u16,
                                            constant_pool,
                                            access_flag: be_u16(s, p) as u16,
                                            this_class: be_u16(s, p + 2) as u16,
                                            super_class: be_u16(s, p + 4) as u16,
                                            interfaces,
                                            fields,
                                            methods,
                                            attributes,
                                        },
                                        end,
                                    ),
                                ),
                            },
                        },
                    },
                }
            },
        }
    }
}

/// The class that `s` holds: the class file at its start. Bytes behind the
/// class file are not looked at.
pub open spec fn spec_class(s: Seq<u8>) -> Result<ClassModel, DecodeError> {
    match spec_class_file(s) {
        Ok((class, _)) => Ok(class),
        Err(e) => Err(e),
    }
}

/// A class is well formed when its constant pool is, and the name and the
/// descriptor of every field and method are what their indices resolve to.
///
/// Nothing is asked of the class's own index or of its superclass's: they are
/// resolved when they are asked for.
pub open spec fn class_wf(class: ClassModel) -> bool {
    &&& pool_wf(class.constant_pool)
    &&& forall|i: int|
        0 <= i < class.fields.len() ==> member_resolved(
            #[trigger] class.fields[i],
            class.constant_pool,
        )
    &&& forall|i: int|
        0 <= i < class.methods.len() ==> member_resolved(
            #[trigger] class.methods[i],
            class.constant_pool,
        )
}

/// Whether `res` is what decoding `bytes` gives: the class that they hold, or
/// the first fault in them.
pub open spec fn decoded(bytes: Seq<u8>, res: Result<Class, DecodeError>) -> bool {
    match res {
        Ok(class) => spec_class(bytes) == Ok::<ClassModel, DecodeError>(class@),
        Err(e) => spec_class(bytes) == Err::<ClassModel, DecodeError>(e),
    }
}

/// The name of the class: the text that its own index resolves to.
pub open spec fn spec_class_name(class: ClassModel) -> Result<Seq<char>, DecodeError> {
    spec_get_str(class.constant_pool, class.this_class)
}

/// Whether a method has this name and this descriptor.
pub open spec fn has_signature(method: MemberModel, name: Seq<char>, descriptor: Seq<char>) -> bool {
    method.name == name && method.descriptor == descriptor
}

/// Whether method `i` is the first one with this name and this descriptor.
pub open spec fn is_first_match(
    methods: Seq<MemberModel>,
    name: Seq<char>,
    descriptor: Seq<char>,
    i: int,
) -> bool {
    &&& 0 <= i < methods.len()
    &&& has_signature(methods[i], name, descriptor)
    &&& forall|k: int| 0 <= k < i ==> !has_signature(#[trigger] methods[k], name, descriptor)
}

/// Decodes a class file.
///
/// Either the whole class comes back or the first fault does; nothing is
/// handed out half decoded.
pub fn decode(bytes: &[u8]) -> (res: Result<Class, DecodeError>)
    ensures
        decoded(bytes@, res),
        res matches Ok(class) ==> class_wf(class@),
{
    proof {
        lemma_decoded_class_wf(bytes@);
    }
    let cur = Cursor::new(bytes);
    let (magic_number, cur) = cur.read_u4()?;
    let (minor_version, cur) = cur.read_u2()?;
    let (major_version, cur) = cur.read_u2()?;
    let (constant_pool, cur) = ConstantPool::read(cur)?;
    let (access_flag, cur) = cur.read_u2()?;
    let (this_class, cur) = cur.read_u2()?;
    let (super_class, cur) = cur.read_u2()?;
    let (interfaces, cur) = read_interfaces(cur)?;
    let (fields, cur) = read_fields(cur, &constant_pool)?;
    let (methods, cur) = read_methods(cur, &constant_pool)?;
    let (attributes, _) = read_attributes(cur, &constant_pool)?;
    Ok(
        Class {
            magic_number,
            minor_version,
            major_version,
            constant_pool,
            access_flag,
            this_class,
            super_class,
            interfaces,
            fields,
            methods,
            attributes,
        },
    )
}

impl Class {
    /// Every class is well formed, however it was come by.
    #[verifier::type_invariant]
    spec fn well_formed(&self) -> bool {
        class_wf(self@)
    }

    /// Decodes a class file that is held in a vector.
    pub fn from_vec(bytes: Vec<u8>) -> (res: Result<Class, DecodeError>)
        ensures
            decoded(bytes@, res),
            res matches Ok(class) ==> class_wf(class@),
    {
        decode(bytes.as_slice())
    }

    /// The magic number that the file starts with.
    pub fn magic_number(&self) -> (res: u32)
        ensures
            res == self@.magic_number,
    {
        self.magic_number
    }

    /// The minor version of the class-file format.
    pub fn minor_version(&self) -> (res: u16)
        ensures
            res == self@.minor_version,
    {
        self.minor_version
    }

    /// The major version of the class-file format.
    pub fn major_version(&self) -> (res: u16)
        ensures
            res == self@.major_version,
    {
        self.major_version
    }

    /// The constant pool.
    pub fn constant_pool(&self) -> (res: &ConstantPool)
        ensures
            res@ == self@.constant_pool,
            class_wf(self@),
    {
        proof {
            use_type_invariant(self);
        }
        &self.constant_pool
    }

    /// The access flags of the class, as a bit mask.
    pub fn access_flag(&self) -> (res: u16)
        ensures
            res == self@.access_flag,
    {
        self.access_flag
    }

    /// The index of the class's own `ClassRef` entry.
    pub fn this_class(&self) -> (res: u16)
        ensures
            res == self@.this_class,
    {
        self.this_class
    }

    /// The index of the superclass's `ClassRef` entry; 0 where there is none.
    pub fn super_class(&self) -> (res: u16)
        ensures
            res == self@.super_class,
    {
        self.super_class
    }

    /// The interfaces, in the order of the file.
    pub fn interfaces(&self) -> (res: &Interfaces)
        ensures
            res@ == self@.interfaces,
    {
        &self.interfaces
    }

    /// The fields, in the order of the file.
    pub fn fields(&self) -> (res: &Fields)
        ensures
            field_models(res@) == self@.fields,
            class_wf(self@),
    {
        proof {
            use_type_invariant(self);
        }
        &self.fields
    }

    /// The methods, in the order of the file.
    pub fn methods(&self) -> (res: &Methods)
        ensures
            method_models(res@) == self@.methods,
            class_wf(self@),
    {
        proof {
            use_type_invariant(self);
        }
        &self.methods
    }

    /// The attributes of the class itself, in the order of the file.
    pub fn attributes(&self) -> (res: &Attributes)
        ensures
            attribute_models(res@) == self@.attributes,
    {
        &self.attributes
    }

    /// The name of the class: the text that its own index resolves to in the
    /// constant pool, which is the name of its `ClassRef` entry.
    ///
    /// The index is resolved as [`ConstantPool::get_str`] resolves any index,
    /// and fails as it does: a class whose own index names nothing, or names
    /// an entry that is not text, has no name.
    pub fn get_class_name(&self) -> (res: Result<&str, DecodeError>)
        ensures
            match res {
                Ok(name) => spec_class_name(self@) == Ok::<Seq<char>, DecodeError>(name@),
                Err(e) => spec_class_name(self@) == Err::<Seq<char>, DecodeError>(e),
            },
    {
        self.constant_pool.get_str(self.this_class)
    }

    /// The first method with this name and this descriptor.
    ///
    /// Where several methods have both, only the first is ever found.
    pub fn get_method(&self, method_name: &str, method_descriptor: &str) -> (res: Result<
        &Method,
        DecodeError,
    >)
        ensures
            match res {
                Ok(method) => exists|i: int|
                    is_first_match(self@.methods, method_name@, method_descriptor@, i)
                        && self@.methods[i] == method@,
                Err(e) => e == DecodeError::MethodNotFound && forall|i: int|
                    0 <= i < self@.methods.len() ==> !has_signature(
                        #[trigger] self@.methods[i],
                        method_name@,
                        method_descriptor@,
                    ),
            },
            class_wf(self@),
    {
        proof {
            use_type_invariant(self);
        }
        let mut i: usize = 0;
        while i < self.methods.len()
            invariant
                class_wf(self@),
                i <= self.methods@.len(),
                forall|k: int|
                    0 <= k < i ==> !has_signature(
                        #[trigger] self@.methods[k],
                        method_name@,
                        method_descriptor@,
                    ),
            decreases self.methods@.len() - i,
        {
            let method: &Method = &self.methods[i];
            assert(self@.methods[i as int] == method@);
            if str_eq(method.name.as_str(), method_name) && str_eq(
                method.descriptor.as_str(),
                method_descriptor,
            ) {
                assert(is_first_match(self@.methods, method_name@, method_descriptor@, i as int));
                return Ok(method);
            }
            i += 1;
        }
        Err(DecodeError::MethodNotFound)
    }
}

/// Every class that is decoded is well formed.
pub proof fn lemma_decoded_class_wf(s: Seq<u8>)
    ensures
        spec_class(s) matches Ok(class) ==> class_wf(class),
{
    lemma_decoded_pool_wf(s, 8);
    if let Ok((pool, p)) = spec_pool(s, 8) {
        if let Ok((_, q)) = spec_interfaces(s, p + 6) {
            if let Ok((count, q1)) = spec_u2(s, q) {
                lemma_members_resolved(s, q1, count as nat, pool);
            }
            if let Ok((_, r)) = spec_members(s, q, pool) {
                if let Ok((count, r1)) = spec_u2(s, r) {
                    lemma_members_resolved(s, r1, count as nat, pool);
                }
            }
        }
    }
}

/// A class file ends behind where it begins, and a prefix of the buffer gives
/// the same class or, where it ends inside the class file, runs out of bytes.
pub proof fn lemma_class_file_cut(s: Seq<u8>, k: int)
    requires
        0 <= k <= s.len(),
    ensures
        spec_class_file(s) matches Ok((_, end)) ==> 0 < end <= s.len(),
        cut_of(spec_class_file(s), spec_class_file(s.take(k)), k),
{
    lemma_pool_cut(s, 8, k);
    if let Ok((pool, p)) = spec_pool(s, 8) {
        lemma_interfaces_cut(s, p + 6, k);
        if let Ok((_, q)) = spec_interfaces(s, p + 6) {
            lemma_members_cut(s, q, pool, k);
            if let Ok((_, r)) = spec_members(s, q, pool) {
                lemma_members_cut(s, r, pool, k);
                if let Ok((_, t)) = spec_members(s, r, pool) {
                    lemma_attributes_cut(s, t, pool, k);
                }
            }
        }
    }
}

/// A class file that is cut short anywhere runs out of bytes: nothing else
/// goes wrong, and no class comes out of it.
pub proof fn lemma_cut_class_is_eof(s: Seq<u8>, k: int)
    requires
        spec_class_file(s) is Ok,
        0 <= k < spec_class_file(s)->Ok_0.1,
    ensures
        spec_class(s.take(k)) == Err::<ClassModel, DecodeError>(DecodeError::UnexpectedEof),
{
    lemma_class_file_cut(s, s.len() as int);
    lemma_class_file_cut(s, k);
}

/// A buffer that is cut short inside its constant pool runs out of bytes,
/// whatever stands behind the pool.
pub proof fn lemma_cut_in_pool_is_eof(s: Seq<u8>, k: int)
    requires
        spec_pool(s, 8) is Ok,
        0 <= k < spec_pool(s, 8)->Ok_0.1,
    ensures
        spec_class(s.take(k)) == Err::<ClassModel, DecodeError>(DecodeError::UnexpectedEof),
{
    lemma_pool_cut(s, 8, s.len() as int);
    lemma_pool_cut(s, 8, k);
}

/// A tag byte of the constant pool that is set to an unassigned value fails
/// the class with an unknown tag, whichever entry it is and whatever the rest
/// of the buffer holds.
pub proof fn lemma_unassigned_tag_fails_class(s: Seq<u8>, at: int, tag: u8)
    requires
        at < s.len(),
        spec_u2(s, 8) is Ok,
        entry_begins(s, 10, 1, spec_u2(s, 8)->Ok_0.0 as int, at),
        unassigned_tag(tag),
    ensures
        spec_class(s.update(at, tag)) == Err::<ClassModel, DecodeError>(
            DecodeError::UnknownConstantTag,
        ),
{
    lemma_pool_unknown_tag(s, 8, at, tag);
}

/// Bytes behind a class file change nothing: where a buffer holds a class,
/// the buffer with more bytes behind it holds the same class.
pub proof fn lemma_bytes_behind_class_ignored(s: Seq<u8>, more: Seq<u8>)
    requires
        spec_class(s) is Ok,
    ensures
        spec_class(s + more) == spec_class(s),
{
    assert((s + more).take(s.len() as int) =~= s);
    lemma_class_file_cut(s + more, s.len() as int);
}

/// Decoding depends on the bytes alone: two decodes of one buffer give the
/// same class, or the same fault.
pub proof fn lemma_decode_repeatable(
    bytes: Seq<u8>,
    first: Result<Class, DecodeError>,
    second: Result<Class, DecodeError>,
)
    requires
        decoded(bytes, first),
        decoded(bytes, second),
    ensures
        match (first, second) {
            (Ok(a), Ok(b)) => a@ == b@,
            (Err(e), Err(f)) => e == f,
            _ => false,
        },
{
}

/// The name of a class is the text of its `Utf8` entry, exactly as the entry
/// encodes it: where the class's own index names a `ClassRef` entry whose
/// name is well-formed UTF-8, the class name is found, and encoding it gives
/// the entry's bytes back.
pub proof fn lemma_class_name_as_encoded(class: ClassModel, name_index: u16, name: Seq<u8>)
    requires
        spec_get(class.constant_pool, class.this_class) == Ok::<ConstantModel, DecodeError>(
            ConstantModel::ClassRef(name_index),
        ),
        spec_get(class.constant_pool, name_index) == Ok::<ConstantModel, DecodeError>(
            ConstantModel::Utf8(name),
        ),
        valid_utf8(name),
    ensures
        spec_class_name(class) == Ok::<Seq<char>, DecodeError>(decode_utf8(name)),
        encode_utf8(decode_utf8(name)) == name,
{
    decode_utf8_encode_utf8(name);
}

} // verus!
