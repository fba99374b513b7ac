//! Attributes: named, length-prefixed blocks of bytes that hang off a class,
//! a field, a method or a `Code` attribute.
//!
//! Only the `Code` attribute is interpreted. Every other attribute is kept as
//! the bytes it came with.

use crate::atom::{available, be_u16, be_u32, cut_of, spec_bytes, spec_u2, Cursor};
use crate::constant_pool::{spec_get_str, ConstantPool, PoolModel};
use crate::error::DecodeError;
use crate::text::str_eq;
use std::sync::Arc;
use vstd::prelude::*;

verus! {

/// One row of a method's exception table: the range of code that it protects
/// and where control goes when something is thrown there.
#[derive(Clone, Copy, Debug, PartialEq, Eq, Structural)]
pub struct ExceptionHandler {
    /// First protected offset in the code.
    pub start_pc: u16,
    /// First offset behind the protected range.
    pub end_pc: u16,
    /// Offset of the handler.
    pub handler_pc: u16,
    /// Index of the class that is caught; 0 catches everything.
    pub catch_type: u16,
}

/// A table of attributes, in the order of the file.
pub type Attributes = Vec<Attribute>;

/// One attribute.
#[derive(Debug, PartialEq, Eq)]
pub enum Attribute {
    /// A method's code: the operand stack's depth, the number of local
    /// variables, the bytecode, the exception table and the attributes of the
    /// code itself. The three tables are shared, so handing them out copies
    /// no bytes.
    Code(u16, u16, Arc<Vec<u8>>, Arc<Vec<ExceptionHandler>>, Arc<Attributes>),
    /// Any other attribute: the index of its name and its bytes, untouched.
    Opaque(u16, Vec<u8>),
}

/// What an [`Attribute`] stands for.
pub ghost enum AttributeModel {
    Code {
        max_stack: u16,
        max_locals: u16,
        code: Seq<u8>,
        handlers: Seq<ExceptionHandler>,
        attributes: Seq<AttributeModel>,
    },
    Opaque { name_index: u16, bytes: Seq<u8> },
}

impl Attribute {
    /// What the attribute stands for.
    pub open spec fn model(&self) -> AttributeModel
        decreases self,
    {
        match self {
            Attribute::Code(max_stack, max_locals, code, handlers, attributes) => {
                AttributeModel::Code {
                    max_stack: *max_stack,
                    max_locals: *max_locals,
                    code: code@,
                    handlers: handlers@,
                    attributes: Seq::new(
                        attributes@.len(),
                        |i: int|
                            if 0 <= i < attributes@.len() {
                                attributes[i].model()
                            } else {
                                arbitrary()
                            },
                    ),
                }
            },
            Attribute::Opaque(name_index, bytes) => AttributeModel::Opaque {
                name_index: *name_index,
                bytes: bytes@,
            },
        }
    }
}

impl View for Attribute {
    type V = AttributeModel;

    open spec fn view(&self) -> AttributeModel {
        self.model()
    }
}

/// What a table of attributes stands for.
pub open spec fn attribute_models(attributes: Seq<Attribute>) -> Seq<AttributeModel> {
    Seq::new(attributes.len(), |i: int| attributes[i]@)
}

/// The attributes inside a `Code` attribute stand for what a table of them
/// stands for anywhere else.
pub proof fn lemma_nested_models(attribute: Attribute)
    requires
        attribute is Code,
    ensures
        attribute@->Code_attributes == attribute_models(attribute->Code_4@),
{
    assert(attribute@->Code_attributes =~= attribute_models(attribute->Code_4@));
}

/// The name that marks the attribute that holds a method's code.
pub open spec fn code_name() -> Seq<char> {
    seq!['C', 'o', 'd', 'e']
}

/// The exception handler in the eight bytes at `pos`.
pub open spec fn handler_at(s: Seq<u8>, pos: int) -> ExceptionHandler {
    ExceptionHandler {
        start_pc: be_u16(s, pos) as u16,
        end_pc: be_u16(s, pos + 2) as u16,
        handler_pc: be_u16(s, pos + 4) as u16,
        catch_type: be_u16(s, pos + 6) as u16,
    }
}

/// An exception table at `pos`: a two-byte count, then that many handlers of
/// eight bytes each.
pub open spec fn spec_handlers(s: Seq<u8>, pos: int) -> Result<
    (Seq<ExceptionHandler>, int),
    DecodeError,
> {
    if !available(s, pos, 2) {
        Err(DecodeError::UnexpectedEof)
    } else if !available(s, pos + 2, 8 * be_u16(s, pos)) {
        Err(DecodeError::UnexpectedEof)
    } else {
        Ok(
            (
                Seq::new(be_u16(s, pos) as nat, |i: int| handler_at(s, pos + 2 + 8 * i)),
                pos + 2 + 8 * be_u16(s, pos),
            ),
        )
    }
}

/// The length that the attribute at `pos` declares for its body.
pub open spec fn declared_len(s: Seq<u8>, pos: int) -> int {
    be_u32(s, pos + 2)
}

/// One attribute at `pos`: the two-byte index of its name, the four-byte
/// length of its body, and the body.
///
/// The name is resolved in `pool` before the body is looked at. The body is
/// the next `declared_len` bytes whatever it holds; under the name `Code` it
/// is decoded by [`spec_code`], which sees those bytes and no others.
pub open spec fn spec_attribute(s: Seq<u8>, pos: int, pool: PoolModel) -> Result<
    (AttributeModel, int),
    DecodeError,
>
    decreases s.len(), 0nat,
{
    if !available(s, pos, 6) {
        Err(DecodeError::UnexpectedEof)
    } else {
        match spec_get_str(pool, be_u16(s, pos) as u16) {
            Err(e) => Err(e),
            Ok(name) => {
                if !available(s, pos + 6, declared_len(s, pos)) {
                    Err(DecodeError::UnexpectedEof)
                } else {
                    let next = pos + 6 + declared_len(s, pos);
                    let body = s.subrange(pos + 6, next);
                    if name == code_name() {
                        match spec_code(body, 0, pool) {
                            Err(e) => Err(e),
                            Ok(code) => Ok((code, next)),
                        }
                    } else {
                        Ok(
                            (
                                AttributeModel::Opaque {
                                    name_index: be_u16(s, pos) as u16,
                                    bytes: body,
                                },
                                next,
                            ),
                        )
                    }
                }
            },
        }
    }
}

/// The body of a `Code` attribute at `pos`: two bytes of stack depth, two of
/// local variables, a four-byte length and that many bytes of code, an
/// exception table, and a table of attributes.
///
/// Bytes of `s` behind the attribute table are not looked at.
pub open spec fn spec_code(s: Seq<u8>, pos: int, pool: PoolModel) -> Result<
    AttributeModel,
    DecodeError,
>
    decreases s.len(), 0x1_0002nat,
{
    if !available(s, pos, 8) {
        Err(DecodeError::UnexpectedEof)
    } else {
        match spec_bytes(s, pos + 8, be_u32(s, pos + 4)) {
            Err(e) => Err(e),
            Ok((code, p)) => match spec_handlers(s, p) {
                Err(e) => Err(e),
                Ok((handlers, q)) => match spec_attributes(s, q, pool) {
                    Err(e) => Err(e),
                    Ok((attributes, _)) => Ok(
                        AttributeModel::Code {
                            max_stack: be_u16(s, pos) as u16,
                            max_locals: be_u16(s, pos + 2) as u16,
                            code,
                            handlers,
                            attributes,
                        },
                    ),
                },
            },
        }
    }
}

/// A table of attributes at `pos`: a two-byte count, then that many
/// attributes.
pub open spec fn spec_attributes(s: Seq<u8>, pos: int, pool: PoolModel) -> Result<
    (Seq<AttributeModel>, int),
    DecodeError,
>
    decreases s.len(), 0x1_0001nat,
{
    match spec_u2(s, pos) {
        Err(e) => Err(e),
        Ok((count, p)) => spec_attributes_n(s, p, count as nat, pool),
    }
}

/// `n` attributes in a row, from `pos` on.
pub open spec fn spec_attributes_n(s: Seq<u8>, pos: int, n: nat, pool: PoolModel) -> Result<
    (Seq<AttributeModel>, int),
    DecodeError,
>
    decreases s.len(), n + 1,
{
    if n == 0 {
        Ok((Seq::empty(), pos))
    } else {
        match spec_attribute(s, pos, pool) {
            Err(e) => Err(e),
            Ok((first, p)) => match spec_attributes_n(s, p, (n - 1) as nat, pool) {
                Err(e) => Err(e),
                Ok((rest, next)) => Ok((seq![first] + rest, next)),
            },
        }
    }
}

/// Whatever an attribute holds, decoding it moves on by the six bytes of its
/// header and the length that the header declares, whether or not the body is
/// read as code.
pub proof fn lemma_attribute_advances_by_declared_len(s: Seq<u8>, pos: int, pool: PoolModel)
    ensures
        spec_attribute(s, pos, pool) matches Ok((_, next)) ==> next == pos + 6 + declared_len(
            s,
            pos,
        ),
{
}

/// An exception table ends behind where it begins, and a prefix of the buffer
/// gives the same table or, where it ends inside the table, runs out of
/// bytes.
pub proof fn lemma_handlers_cut(s: Seq<u8>, pos: int, k: int)
    requires
        0 <= k <= s.len(),
    ensures
        spec_handlers(s, pos) matches Ok((_, next)) ==> pos < next <= s.len(),
        cut_of(spec_handlers(s, pos), spec_handlers(s.take(k), pos), k),
{
    if let Ok((handlers, next)) = spec_handlers(s, pos) {
        if next <= k {
            assert(spec_handlers(s.take(k), pos)->Ok_0.0 =~= handlers);
        }
    }
}

/// An attribute ends behind where it begins, and a prefix of the buffer gives
/// the same attribute or, where it ends inside the attribute, runs out of
/// bytes.
pub proof fn lemma_attribute_cut(s: Seq<u8>, pos: int, pool: PoolModel, k: int)
    requires
        0 <= k <= s.len(),
    ensures
        spec_attribute(s, pos, pool) matches Ok((_, next)) ==> pos < next <= s.len(),
        cut_of(spec_attribute(s, pos, pool), spec_attribute(s.take(k), pos, pool), k),
{
    if available(s, pos, 6) {
        let next = pos + 6 + declared_len(s, pos);
        if next <= k {
            assert(s.take(k).subrange(pos + 6, next) =~= s.subrange(pos + 6, next));
        }
    }
}

/// A run of attributes ends at or behind where it begins, and a prefix of the
/// buffer gives the same attributes or, where it ends inside them, runs out
/// of bytes.
pub proof fn lemma_attributes_n_cut(s: Seq<u8>, pos: int, n: nat, pool: PoolModel, k: int)
    requires
        0 <= pos <= k <= s.len(),
    ensures
        spec_attributes_n(s, pos, n, pool) matches Ok((_, next)) ==> pos <= next <= s.len(),
        cut_of(
            spec_attributes_n(s, pos, n, pool),
            spec_attributes_n(s.take(k), pos, n, pool),
            k,
        ),
    decreases n,
{
    if n > 0 {
        lemma_attribute_cut(s, pos, pool, k);
        if let Ok((_, p)) = spec_attribute(s, pos, pool) {
            lemma_attributes_n_cut(
                s,
                p,
                (n - 1) as nat,
                pool,
                if p <= k {
                    k
                } else {
                    s.len() as int
                },
            );
        }
    }
}

/// A table of attributes ends behind where it begins, and a prefix of the
/// buffer gives the same table or, where it ends inside the table, runs out
/// of bytes.
pub proof fn lemma_attributes_cut(s: Seq<u8>, pos: int, pool: PoolModel, k: int)
    requires
        0 <= k <= s.len(),
    ensures
        spec_attributes(s, pos, pool) matches Ok((_, next)) ==> pos < next <= s.len(),
        cut_of(spec_attributes(s, pos, pool), spec_attributes(s.take(k), pos, pool), k),
{
    if let Ok((count, p)) = spec_u2(s, pos) {
        lemma_attributes_n_cut(
            s,
            p,
            count as nat,
            pool,
            if p <= k {
                k
            } else {
                s.len() as int
            },
        );
    }
}

/// Decodes an exception table: a two-byte count, then the handlers.
pub fn read_handlers<'a>(cur: Cursor<'a>) -> (res: Result<
    (Vec<ExceptionHandler>, Cursor<'a>),
    DecodeError,
>)
    ensures
        match res {
            Ok((handlers, next)) => next.buffer() == cur.buffer() && spec_handlers(
                cur.buffer(),
                cur.offset(),
            ) == Ok::<(Seq<ExceptionHandler>, int), DecodeError>((handlers@, next.offset())),
            Err(e) => spec_handlers(cur.buffer(), cur.offset()) == Err::<
                (Seq<ExceptionHandler>, int),
                DecodeError,
            >(e),
        },
{
    let (count, first) = cur.read_u2()?;
    let ghost s = cur.buffer();
    let ghost start = first.offset();
    let mut handlers: Vec<ExceptionHandler> = Vec::new();
    let mut at = first;
    let mut i: u16 = 0;
    while i < count
        invariant
            s == cur.buffer(),
            at.buffer() == s,
            available(s, cur.offset(), 2),
            count == be_u16(s, cur.offset()),
            start == cur.offset() + 2,
            i <= count,
            at.offset() == start + 8 * i,
            at.offset() <= s.len(),
            handlers@.len() == i,
            forall|k: int| 0 <= k < i ==> handlers@[k] == handler_at(s, start + 8 * k),
        decreases count - i,
    {
        let (start_pc, next) = at.read_u2()?;
        let (end_pc, next) = next.read_u2()?;
        let (handler_pc, next) = next.read_u2()?;
        let (catch_type, next) = next.read_u2()?;
        handlers.push(ExceptionHandler { start_pc, end_pc, handler_pc, catch_type });
        at = next;
        i += 1;
    }
    assert(handlers@ =~= spec_handlers(s, cur.offset())->Ok_0.0);
    Ok((handlers, at))
}

/// Decodes a table of attributes: a two-byte count, then the attributes.
pub fn read_attributes<'a>(cur: Cursor<'a>, pool: &ConstantPool) -> (res: Result<
    (Attributes, Cursor<'a>),
    DecodeError,
>)
    ensures
        match res {
            Ok((attributes, next)) => next.buffer() == cur.buffer() && spec_attributes(
                cur.buffer(),
                cur.offset(),
                pool@,
            ) == Ok::<(Seq<AttributeModel>, int), DecodeError>(
                (attribute_models(attributes@), next.offset()),
            ),
            Err(e) => spec_attributes(cur.buffer(), cur.offset(), pool@) == Err::<
                (Seq<AttributeModel>, int),
                DecodeError,
            >(e),
        },
    decreases cur.buffer().len(), 0x1_0001nat,
{
    let (count, first) = cur.read_u2()?;
    let ghost s = cur.buffer();
    let ghost start = first.offset();
    let mut attributes: Vec<Attribute> = Vec::new();
    let mut at = first;
    let mut i: u16 = 0;
    while i < count
        invariant
            s == cur.buffer(),
            at.buffer() == s,
            spec_u2(s, cur.offset()) == Ok::<(u16, int), DecodeError>((count, start)),
            i <= count,
            attributes@.len() == i,
            spec_attributes_n(s, start, count as nat, pool@) == match spec_attributes_n(
                s,
                at.offset(),
                (count - i) as nat,
                pool@,
            ) {
                Ok((rest, next)) => Ok::<(Seq<AttributeModel>, int), DecodeError>(
                    (attribute_models(attributes@) + rest, next),
                ),
                Err(e) => Err(e),
            },
        decreases count - i,
    {
        let ghost before = attribute_models(attributes@);
        let (attribute, next) = Attribute::read(at, pool)?;
        let ghost model = attribute@;
        attributes.push(attribute);
        at = next;
        i += 1;
        proof {
            assert(attribute_models(attributes@) =~= before.push(model));
            match spec_attributes_n(s, at.offset(), (count - i) as nat, pool@) {
                Ok((rest, _)) => {
                    assert(attribute_models(attributes@) + rest =~= before + (seq![model] + rest));
                },
                Err(_) => {},
            }
        }
    }
    proof {
        assert(attribute_models(attributes@) + Seq::<AttributeModel>::empty() =~= attribute_models(
            attributes@,
        ));
    }
    Ok((attributes, at))
}

impl Attribute {
    /// Decodes one attribute: the index of its name, the length of its body,
    /// and the body.
    ///
    /// Whatever the body holds, the cursor that comes back stands right behind
    /// the declared length. A body that is read as code sees its own bytes
    /// and no others, and may hold attributes of its own, which are decoded
    /// in the same way, as deep as they go.
    pub fn read<'a>(cur: Cursor<'a>, pool: &ConstantPool) -> (res: Result<
        (Attribute, Cursor<'a>),
        DecodeError,
    >)
        ensures
            match res {
                Ok((attribute, next)) => {
                    &&& next.buffer() == cur.buffer()
                    &&& spec_attribute(cur.buffer(), cur.offset(), pool@) == Ok::<
                        (AttributeModel, int),
                        DecodeError,
                    >((attribute@, next.offset()))
                    &&& next.offset() == cur.offset() + 6 + declared_len(
                        cur.buffer(),
                        cur.offset(),
                    )
                },
                Err(e) => spec_attribute(cur.buffer(), cur.offset(), pool@) == Err::<
                    (AttributeModel, int),
                    DecodeError,
                >(e),
            },
        decreases cur.buffer().len(), 0nat,
    {
        let (name_index, after_name) = cur.read_u2()?;
        let (length, after_length) = after_name.read_u4()?;
        let name = pool.get_str(name_index)?;
        proof {
            reveal_strlit("Code");
            assert("Code"@ =~= code_name());
        }
        if str_eq(name, "Code") {
            let (body, rest) = after_length.take(length as usize)?;
            let code = Attribute::read_code(body, pool)?;
            Ok((code, rest))
        } else {
            let (bytes, rest) = after_length.read_bytes(length as usize)?;
            Ok((Attribute::Opaque(name_index, bytes), rest))
        }
    }

    /// Decodes the body of a `Code` attribute from the bytes that `cur` can
    /// reach.
    pub fn read_code<'a>(cur: Cursor<'a>, pool: &ConstantPool) -> (res: Result<
        Attribute,
        DecodeError,
    >)
        ensures
            match res {
                Ok(code) => spec_code(cur.buffer(), cur.offset(), pool@) == Ok::<
                    AttributeModel,
                    DecodeError,
                >(code@),
                Err(e) => spec_code(cur.buffer(), cur.offset(), pool@) == Err::<
                    AttributeModel,
                    DecodeError,
                >(e),
            },
        decreases cur.buffer().len(), 0x1_0002nat,
    {
        let (max_stack, at) = cur.read_u2()?;
        let (max_locals, at) = at.read_u2()?;
        let (code_length, at) = at.read_u4()?;
        let (code, at) = at.read_bytes(code_length as usize)?;
        let (handlers, at) = read_handlers(at)?;
        let (attributes, _) = read_attributes(at, pool)?;
        let code = Attribute::Code(
            max_stack,
            max_locals,
            Arc::new(code),
            Arc::new(handlers),
            Arc::new(attributes),
        );
        proof {
            lemma_nested_models(code);
        }
        Ok(code)
    }
}

} // verus!
