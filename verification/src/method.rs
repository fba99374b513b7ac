//! Methods: their decoding, their access flags and their code.

use crate::atom::{spec_u2, Cursor};
use crate::attribute::{
    attribute_models, lemma_nested_models, read_attributes, Attribute, AttributeModel, Attributes,
    ExceptionHandler,
};
use crate::constant_pool::ConstantPool;
use crate::error::DecodeError;
use crate::member::{spec_member, spec_members, spec_members_n, MemberModel};
use std::sync::Arc;
use vstd::prelude::*;

verus! {

/// Declared public; may be accessed from outside its package.
pub const ACC_PUBLIC: u16 = 0x0001;

/// Declared private; accessible only within the defining class.
pub const ACC_PRIVATE: u16 = 0x0002;

/// Declared protected; may be accessed within subclasses.
pub const ACC_PROTECTED: u16 = 0x0004;

/// Declared static.
pub const ACC_STATIC: u16 = 0x0008;

/// Declared final; must not be overridden.
pub const ACC_FINAL: u16 = 0x0010;

/// Declared synchronized; invocation is wrapped by a monitor use.
pub const ACC_SYNCHRONIZED: u16 = 0x0020;

/// A bridge method, generated by the compiler.
pub const ACC_BRIDGE: u16 = 0x0040;

/// Declared with variable number of arguments.
pub const ACC_VARARGS: u16 = 0x0080;

/// Declared native; implemented in a language other than Java.
pub const ACC_NATIVE: u16 = 0x0100;

/// Declared abstract; no implementation is provided.
pub const ACC_ABSTRACT: u16 = 0x0400;

/// Declared strictfp; floating-point mode is FP-strict.
pub const ACC_STRICT: u16 = 0x0800;

/// Declared synthetic; not present in the source code.
pub const ACC_SYNTHETIC: u16 = 0x1000;

/// A method of a class.
#[derive(Debug, PartialEq, Eq)]
pub struct Method {
    /// The access flags, as a bit mask.
    pub access_flag: u16,
    /// Index of the method's name in the constant pool.
    pub name_index: u16,
    /// Index of the method's descriptor in the constant pool.
    pub descriptor_index: u16,
    /// The name that `name_index` resolves to.
    pub name: String,
    /// The descriptor that `descriptor_index` resolves to.
    pub descriptor: String,
    /// The method's attributes.
    pub attributes: Attributes,
}

/// A class's methods, in the order of the file. Each one is shared, so that a
/// caller can keep a method without keeping the class.
pub type Methods = Vec<Arc<Method>>;

/// What a `Code` attribute holds: the operand stack's depth, the number of
/// local variables, the bytecode, the exception table and the attributes of
/// the code.
pub type CodeSegment = (u16, u16, Arc<Vec<u8>>, Arc<Vec<ExceptionHandler>>, Arc<Attributes>);

impl View for Method {
    type V = MemberModel;

    open spec fn view(&self) -> MemberModel {
        MemberModel {
            access_flag: self.access_flag,
            name_index: self.name_index,
            descriptor_index: self.descriptor_index,
            name: self.name@,
            descriptor: self.descriptor@,
            attributes: attribute_models(self.attributes@),
        }
    }
}

/// What a table of methods stands for.
pub open spec fn method_models(methods: Seq<Arc<Method>>) -> Seq<MemberModel> {
    Seq::new(methods.len(), |i: int| methods[i]@)
}

/// What a code segment stands for: the `Code` attribute with these parts.
pub open spec fn segment_model(segment: CodeSegment) -> AttributeModel {
    AttributeModel::Code {
        max_stack: segment.0,
        max_locals: segment.1,
        code: segment.2@,
        handlers: segment.3@,
        attributes: attribute_models(segment.4@),
    }
}

/// Whether attribute `i` of `attributes` is a `Code` attribute, and the first
/// one.
pub open spec fn is_first_code(attributes: Seq<AttributeModel>, i: int) -> bool {
    &&& 0 <= i < attributes.len()
    &&& attributes[i] is Code
    &&& forall|k: int| 0 <= k < i ==> !(#[trigger] attributes[k] is Code)
}

/// Whether every bit of `mask` is set in `flags`.
pub open spec fn has_flag(flags: u16, mask: u16) -> bool {
    flags & mask == mask
}

/// Each of the six flags that a method can be asked for is one bit of the
/// mask: the answer depends on that bit alone.
pub proof fn lemma_flags_are_single_bits(flags: u16)
    ensures
        has_flag(flags, ACC_PUBLIC) <==> flags % 2 == 1,
        has_flag(flags, ACC_PROTECTED) <==> (flags / 0x4) % 2 == 1,
        has_flag(flags, ACC_STATIC) <==> (flags / 0x8) % 2 == 1,
        has_flag(flags, ACC_FINAL) <==> (flags / 0x10) % 2 == 1,
        has_flag(flags, ACC_SYNCHRONIZED) <==> (flags / 0x20) % 2 == 1,
        has_flag(flags, ACC_NATIVE) <==> (flags / 0x100) % 2 == 1,
{
    assert((flags & 0x1 == 0x1) <==> flags % 2 == 1) by (bit_vector);
    assert((flags & 0x4 == 0x4) <==> (flags / 0x4) % 2 == 1) by (bit_vector);
    assert((flags & 0x8 == 0x8) <==> (flags / 0x8) % 2 == 1) by (bit_vector);
    assert((flags & 0x10 == 0x10) <==> (flags / 0x10) % 2 == 1) by (bit_vector);
    assert((flags & 0x20 == 0x20) <==> (flags / 0x20) % 2 == 1) by (bit_vector);
    assert((flags & 0x100 == 0x100) <==> (flags / 0x100) % 2 == 1) by (bit_vector);
}

impl Method {
    /// Decodes one method.
    pub fn read<'a>(cur: Cursor<'a>, pool: &ConstantPool) -> (res: Result<
        (Method, Cursor<'a>),
        DecodeError,
    >)
        ensures
            match res {
                Ok((method, next)) => next.buffer() == cur.buffer() && spec_member(
                    cur.buffer(),
                    cur.offset(),
                    pool@,
                ) == Ok::<(MemberModel, int), DecodeError>((method@, next.offset())),
                Err(e) => spec_member(cur.buffer(), cur.offset(), pool@) == Err::<
                    (MemberModel, int),
                    DecodeError,
                >(e),
            },
    {
        let (access_flag, at) = cur.read_u2()?;
        let (name_index, at) = at.read_u2()?;
        let (descriptor_index, at) = at.read_u2()?;
        let name = pool.get_str(name_index)?.to_owned();
        let descriptor = pool.get_str(descriptor_index)?.to_owned();
        let (attributes, at) = read_attributes(at, pool)?;
        Ok(
            (
                Method { access_flag, name_index, descriptor_index, name, descriptor, attributes },
                at,
            ),
        )
    }

    /// The method's code: the parts of its first `Code` attribute, or nothing
    /// where it has none, as an abstract or a native method does.
    pub fn get_code(&self) -> (res: Option<CodeSegment>)
        ensures
            match res {
                Some(segment) => exists|i: int|
                    is_first_code(self@.attributes, i) && self@.attributes[i] == segment_model(
                        segment,
                    ),
                None => forall|i: int|
                    0 <= i < self@.attributes.len() ==> !(#[trigger] self@.attributes[i] is Code),
            },
    {
        let mut i: usize = 0;
        while i < self.attributes.len()
            invariant
                i <= self.attributes@.len(),
                forall|k: int| 0 <= k < i ==> !(#[trigger] self@.attributes[k] is Code),
            decreases self.attributes@.len() - i,
        {
            match &self.attributes[i] {
                Attribute::Code(max_stack, max_locals, code, handlers, attributes) => {
                    let segment: CodeSegment = (
                        *max_stack,
                        *max_locals,
                        Arc::clone(code),
                        Arc::clone(handlers),
                        Arc::clone(attributes),
                    );
                    proof {
                        lemma_nested_models(self.attributes@[i as int]);
                        assert(self@.attributes[i as int] == segment_model(segment));
                        assert(is_first_code(self@.attributes, i as int));
                    }
                    return Some(segment);
                },
                _ => {
                    assert(self@.attributes[i as int] == self.attributes@[i as int]@);
                },
            }
            i += 1;
        }
        None
    }

    /// The method's name, its descriptor and its access flags.
    pub fn get_name_and_descriptor(&self) -> (res: (&str, &str, u16))
        ensures
            res.0@ == self@.name,
            res.1@ == self@.descriptor,
            res.2 == self@.access_flag,
    {
        (self.name.as_str(), self.descriptor.as_str(), self.access_flag)
    }

    /// Whether the method is declared public.
    pub fn is_public(&self) -> (res: bool)
        ensures
            res == has_flag(self@.access_flag, ACC_PUBLIC),
    {
        self.access_flag & ACC_PUBLIC == ACC_PUBLIC
    }

    /// Whether the method is declared protected.
    pub fn is_protected(&self) -> (res: bool)
        ensures
            res == has_flag(self@.access_flag, ACC_PROTECTED),
    {
        self.access_flag & ACC_PROTECTED == ACC_PROTECTED
    }

    /// Whether the method is declared final.
    pub fn is_final(&self) -> (res: bool)
        ensures
            res == has_flag(self@.access_flag, ACC_FINAL),
    {
        self.access_flag & ACC_FINAL == ACC_FINAL
    }

    /// Whether the method is declared static.
    pub fn is_static(&self) -> (res: bool)
        ensures
            res == has_flag(self@.access_flag, ACC_STATIC),
    {
        self.access_flag & ACC_STATIC == ACC_STATIC
    }

    /// Whether the method is declared native.
    pub fn is_native(&self) -> (res: bool)
        ensures
            res == has_flag(self@.access_flag, ACC_NATIVE),
    {
        self.access_flag & ACC_NATIVE == ACC_NATIVE
    }

    /// Whether the method is declared synchronized.
    pub fn is_synchronized(&self) -> (res: bool)
        ensures
            res == has_flag(self@.access_flag, ACC_SYNCHRONIZED),
    {
        self.access_flag & ACC_SYNCHRONIZED == ACC_SYNCHRONIZED
    }
}

/// Decodes a table of methods: a two-byte count, then the methods.
pub fn read_methods<'a>(cur: Cursor<'a>, pool: &ConstantPool) -> (res: Result<
    (Methods, Cursor<'a>),
    DecodeError,
>)
    ensures
        match res {
            Ok((methods, next)) => next.buffer() == cur.buffer() && spec_members(
                cur.buffer(),
                cur.offset(),
                pool@,
            ) == Ok::<(Seq<MemberModel>, int), DecodeError>(
                (method_models(methods@), next.offset()),
            ),
            Err(e) => spec_members(cur.buffer(), cur.offset(), pool@) == Err::<
                (Seq<MemberModel>, int),
                DecodeError,
            >(e),
        },
{
    let (count, first) = cur.read_u2()?;
    let ghost s = cur.buffer();
    let ghost start = first.offset();
    let mut methods: Vec<Arc<Method>> = Vec::with_capacity(count as usize);
    let mut at = first;
    let mut i: u16 = 0;
    while i < count
        invariant
            s == cur.buffer(),
            at.buffer() == s,
            spec_u2(s, cur.offset()) == Ok::<(u16, int), DecodeError>((count, start)),
            i <= count,
            methods@.len() == i,
            spec_members_n(s, start, count as nat, pool@) == match spec_members_n(
                s,
                at.offset(),
                (count - i) as nat,
                pool@,
            ) {
                Ok((rest, next)) => Ok::<(Seq<MemberModel>, int), DecodeError>(
                    (method_models(methods@) + rest, next),
                ),
                Err(e) => Err(e),
            },
        decreases count - i,
    {
        let ghost before = method_models(methods@);
        let (method, next) = Method::read(at, pool)?;
        let ghost model = method@;
        methods.push(Arc::new(method));
        at = next;
        i += 1;
        proof {
            assert(method_models(methods@) =~= before.push(model));
            match spec_members_n(s, at.offset(), (count - i) as nat, pool@) {
                Ok((rest, _)) => {
                    assert(method_models(methods@) + rest =~= before + (seq![model] + rest));
                },
                Err(_) => {},
            }
        }
    }
    proof {
        assert(method_models(methods@) + Seq::<MemberModel>::empty() =~= method_models(methods@));
    }
    Ok((methods, at))
}

} // verus!
