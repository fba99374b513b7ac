//! Fields: their decoding, with name and descriptor resolved in the constant
//! pool.

use crate::atom::{spec_u2, Cursor};
use crate::attribute::{attribute_models, read_attributes, Attributes};
use crate::constant_pool::ConstantPool;
use crate::error::DecodeError;
use crate::member::{spec_member, spec_members, spec_members_n, MemberModel};
use vstd::prelude::*;

verus! {

/// A field of a class.
#[derive(Debug, PartialEq, Eq)]
pub struct Field {
    /// The access flags, as a bit mask.
    pub access_flag: u16,
    /// Index of the field's name in the constant pool.
    pub name_index: u16,
    /// Index of the field's descriptor in the constant pool.
    pub descriptor_index: u16,
    /// The name that `name_index` resolves to.
    pub name: String,
    /// The descriptor that `descriptor_index` resolves to.
    pub descriptor: String,
    /// The field's attributes.
    pub attributes: Attributes,
}

/// A class's fields, in the order of the file.
pub type Fields = Vec<Field>;

impl View for Field {
    type V = MemberModel;

    open spec fn view(&self) -> MemberModel {
        MemberModel {
            access_flag: self.access_flag,
            name_index: self.name_index,
            descriptor_index: self.descriptor_index,
            name: self.name@,
            descriptor: self.descriptor@,
            attributes: attribute_models(self.attributes@),
        }
    }
}

/// What a table of fields stands for.
pub open spec fn field_models(fields: Seq<Field>) -> Seq<MemberModel> {
    Seq::new(fields.len(), |i: int| fields[i]@)
}

impl Field {
    /// Decodes one field.
    pub fn read<'a>(cur: Cursor<'a>, pool: &ConstantPool) -> (res: Result<
        (Field, Cursor<'a>),
        DecodeError,
    >)
        ensures
            match res {
                Ok((field, next)) => next.buffer() == cur.buffer() && spec_member(
                    cur.buffer(),
                    cur.offset(),
                    pool@,
                ) == Ok::<(MemberModel, int), DecodeError>((field@, next.offset())),
                Err(e) => spec_member(cur.buffer(), cur.offset(), pool@) == Err::<
                    (MemberModel, int),
                    DecodeError,
                >(e),
            },
    {
        let (access_flag, at) = cur.read_u2()?;
        let (name_index, at) = at.read_u2()?;
        let (descriptor_index, at) = at.read_u2()?;
        let name = pool.get_str(name_index)?.to_owned();
        let descriptor = pool.get_str(descriptor_index)?.to_owned();
        let (attributes, at) = read_attributes(at, pool)?;
        Ok((Field { access_flag, name_index, descriptor_index, name, descriptor, attributes }, at))
    }
}

/// Decodes a table of fields: a two-byte count, then the fields.
pub fn read_fields<'a>(cur: Cursor<'a>, pool: &ConstantPool) -> (res: Result<
    (Fields, Cursor<'a>),
    DecodeError,
>)
    ensures
        match res {
            Ok((fields, next)) => next.buffer() == cur.buffer() && spec_members(
                cur.buffer(),
                cur.offset(),
                pool@,
            ) == Ok::<(Seq<MemberModel>, int), DecodeError>(
                (field_models(fields@), next.offset()),
            ),
            Err(e) => spec_members(cur.buffer(), cur.offset(), pool@) == Err::<
                (Seq<MemberModel>, int),
                DecodeError,
            >(e),
        },
{
    let (count, first) = cur.read_u2()?;
    let ghost s = cur.buffer();
    let ghost start = first.offset();
    let mut fields: Vec<Field> = Vec::new();
    let mut at = first;
    let mut i: u16 = 0;
    while i < count
        invariant
            s == cur.buffer(),
            at.buffer() == s,
            spec_u2(s, cur.offset()) == Ok::<(u16, int), DecodeError>((count, start)),
            i <= count,
            fields@.len() == i,
            spec_members_n(s, start, count as nat, pool@) == match spec_members_n(
                s,
                at.offset(),
                (count - i) as nat,
                pool@,
            ) {
                Ok((rest, next)) => Ok::<(Seq<MemberModel>, int), DecodeError>(
                    (field_models(fields@) + rest, next),
                ),
                Err(e) => Err(e),
            },
        decreases count - i,
    {
        let ghost before = field_models(fields@);
        let (field, next) = Field::read(at, pool)?;
        let ghost model = field@;
        fields.push(field);
        at = next;
        i += 1;
        proof {
            assert(field_models(fields@) =~= before.push(model));
            match spec_members_n(s, at.offset(), (count - i) as nat, pool@) {
                Ok((rest, _)) => {
                    assert(field_models(fields@) + rest =~= before + (seq![model] + rest));
                },
                Err(_) => {},
            }
        }
    }
    proof {
        assert(field_models(fields@) + Seq::<MemberModel>::empty() =~= field_models(fields@));
    }
    Ok((fields, at))
}

} // verus!
