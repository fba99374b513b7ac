//! The record that fields and methods share: access flags, a name, a
//! descriptor and a table of attributes.

use crate::atom::{available, be_u16, cut_of, spec_u2};
use crate::attribute::{lemma_attributes_cut, spec_attributes, AttributeModel};
use crate::constant_pool::{spec_get_str, PoolModel};
use crate::error::DecodeError;
use vstd::prelude::*;

verus! {

/// What a field or a method stands for.
pub ghost struct MemberModel {
    pub access_flag: u16,
    pub name_index: u16,
    pub descriptor_index: u16,
    pub name: Seq<char>,
    pub descriptor: Seq<char>,
    pub attributes: Seq<AttributeModel>,
}

/// One field or method at `pos`: two bytes of access flags, the two-byte
/// index of its name, the two-byte index of its descriptor, and a table of
/// attributes.
///
/// Name and descriptor are resolved in `pool`, the name first, before the
/// attributes are looked at.
pub open spec fn spec_member(s: Seq<u8>, pos: int, pool: PoolModel) -> Result<
    (MemberModel, int),
    DecodeError,
> {
    if !available(s, pos, 6) {
        Err(DecodeError::UnexpectedEof)
    } else {
        match spec_get_str(pool, be_u16(s, pos + 2) as u16) {
            Err(e) => Err(e),
            Ok(name) => match spec_get_str(pool, be_u16(s, pos + 4) as u16) {
                Err(e) => Err(e),
                Ok(descriptor) => match spec_attributes(s, pos + 6, pool) {
                    Err(e) => Err(e),
                    Ok((attributes, next)) => Ok(
                        (
                            MemberModel {
                                access_flag: be_u16(s, pos) as u16,
                                name_index: be_u16(s, pos + 2) as u16,
                                descriptor_index: be_u16(s, pos + 4) as u16,
                                name,
                                descriptor,
                                attributes,
                            },
                            next,
                        ),
                    ),
                },
            },
        }
    }
}

/// `n` fields or methods in a row, from `pos` on.
pub open spec fn spec_members_n(s: Seq<u8>, pos: int, n: nat, pool: PoolModel) -> Result<
    (Seq<MemberModel>, int),
    DecodeError,
>
    decreases n,
{
    if n == 0 {
        Ok((Seq::empty(), pos))
    } else {
        match spec_member(s, pos, pool) {
            Err(e) => Err(e),
            Ok((first, p)) => match spec_members_n(s, p, (n - 1) as nat, pool) {
                Err(e) => Err(e),
                Ok((rest, next)) => Ok((seq![first] + rest, next)),
            },
        }
    }
}

/// A table of fields or of methods at `pos`: a two-byte count, then that many
/// records.
pub open spec fn spec_members(s: Seq<u8>, pos: int, pool: PoolModel) -> Result<
    (Seq<MemberModel>, int),
    DecodeError,
> {
    match spec_u2(s, pos) {
        Err(e) => Err(e),
        Ok((count, p)) => spec_members_n(s, p, count as nat, pool),
    }
}

/// Whether a member's name and descriptor are the texts that its two
/// indices resolve to in `pool`.
pub open spec fn member_resolved(member: MemberModel, pool: PoolModel) -> bool {
    &&& spec_get_str(pool, member.name_index) == Ok::<Seq<char>, DecodeError>(member.name)
    &&& spec_get_str(pool, member.descriptor_index) == Ok::<Seq<char>, DecodeError>(
        member.descriptor,
    )
}

/// A table that is decoded has as many members as its count says, and each
/// one's name and descriptor are what its indices resolve to.
pub proof fn lemma_members_resolved(s: Seq<u8>, pos: int, n: nat, pool: PoolModel)
    ensures
        spec_members_n(s, pos, n, pool) matches Ok((members, _)) ==> {
            &&& members.len() == n
            &&& forall|i: int|
                0 <= i < members.len() ==> member_resolved(#[trigger] members[i], pool)
        },
    decreases n,
{
    if n > 0 {
        if let Ok((first, p)) = spec_member(s, pos, pool) {
            lemma_members_resolved(s, p, (n - 1) as nat, pool);
            if let Ok((rest, _)) = spec_members_n(s, p, (n - 1) as nat, pool) {
                let members = seq![first] + rest;
                assert forall|i: int| 0 <= i < members.len() implies member_resolved(
                    #[trigger] members[i],
                    pool,
                ) by {
                    if i > 0 {
                        assert(members[i] == rest[i - 1]);
                    }
                }
            }
        }
    }
}

/// A field or method ends behind where it begins, and a prefix of the buffer
/// gives the same one or, where it ends inside it, runs out of bytes.
pub proof fn lemma_member_cut(s: Seq<u8>, pos: int, pool: PoolModel, k: int)
    requires
        0 <= k <= s.len(),
    ensures
        spec_member(s, pos, pool) matches Ok((_, next)) ==> pos < next <= s.len(),
        cut_of(spec_member(s, pos, pool), spec_member(s.take(k), pos, pool), k),
{
    lemma_attributes_cut(s, pos + 6, pool, k);
}

/// A run of fields or methods ends at or behind where it begins, and a prefix
/// of the buffer gives the same ones or, where it ends inside them, runs out
/// of bytes.
pub proof fn lemma_members_n_cut(s: Seq<u8>, pos: int, n: nat, pool: PoolModel, k: int)
    requires
        0 <= pos <= k <= s.len(),
    ensures
        spec_members_n(s, pos, n, pool) matches Ok((_, next)) ==> pos <= next <= s.len(),
        cut_of(spec_members_n(s, pos, n, pool), spec_members_n(s.take(k), pos, n, pool), k),
    decreases n,
{
    if n > 0 {
        lemma_member_cut(s, pos, pool, k);
        if let Ok((_, p)) = spec_member(s, pos, pool) {
            lemma_members_n_cut(
                s,
                p,
                (n - 1) as nat,
                pool,
                if p <= k {
                    k
                } else {
                    s.len() as int
                },
            );
        }
    }
}

/// A table of fields or methods ends behind where it begins, and a prefix of
/// the buffer gives the same table or, where it ends inside the table, runs
/// out of bytes.
pub proof fn lemma_members_cut(s: Seq<u8>, pos: int, pool: PoolModel, k: int)
    requires
        0 <= k <= s.len(),
    ensures
        spec_members(s, pos, pool) matches Ok((_, next)) ==> pos < next <= s.len(),
        cut_of(spec_members(s, pos, pool), spec_members(s.take(k), pos, pool), k),
{
    if let Ok((count, p)) = spec_u2(s, pos) {
        lemma_members_n_cut(
            s,
            p,
            count as nat,
            pool,
            if p <= k {
                k
            } else {
                s.len() as int
            },
        );
    }
}

} // verus!
