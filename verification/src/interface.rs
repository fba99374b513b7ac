//! The interfaces that a class implements, as indices into the constant pool.

use crate::atom::{available, be_u16, cut_of, Cursor};
use crate::error::DecodeError;
use vstd::prelude::*;

verus! {

/// A class's interfaces: the index of each one's `ClassRef` entry, in the
/// order of the file.
pub type Interfaces = Vec<u16>;

/// An interface table at `pos`: a two-byte count, then that many two-byte
/// indices.
pub open spec fn spec_interfaces(s: Seq<u8>, pos: int) -> Result<(Seq<u16>, int), DecodeError> {
    if !available(s, pos, 2) {
        Err(DecodeError::UnexpectedEof)
    } else if !available(s, pos + 2, 2 * be_u16(s, pos)) {
        Err(DecodeError::UnexpectedEof)
    } else {
        Ok(
            (
                Seq::new(be_u16(s, pos) as nat, |i: int| be_u16(s, pos + 2 + 2 * i) as u16),
                pos + 2 + 2 * be_u16(s, pos),
            ),
        )
    }
}

/// An interface table ends behind where it begins, and a prefix of the buffer
/// gives the same table or, where it ends inside the table, runs out of
/// bytes.
pub proof fn lemma_interfaces_cut(s: Seq<u8>, pos: int, k: int)
    requires
        0 <= k <= s.len(),
    ensures
        spec_interfaces(s, pos) matches Ok((_, next)) ==> pos < next <= s.len(),
        cut_of(spec_interfaces(s, pos), spec_interfaces(s.take(k), pos), k),
{
    if let Ok((interfaces, next)) = spec_interfaces(s, pos) {
        if next <= k {
            assert(spec_interfaces(s.take(k), pos)->Ok_0.0 =~= interfaces);
        }
    }
}

/// Decodes an interface table: a two-byte count, then the indices.
pub fn read_interfaces<'a>(cur: Cursor<'a>) -> (res: Result<(Interfaces, Cursor<'a>), DecodeError>)
    ensures
        match res {
            Ok((interfaces, next)) => next.buffer() == cur.buffer() && spec_interfaces(
                cur.buffer(),
                cur.offset(),
            ) == Ok::<(Seq<u16>, int), DecodeError>((interfaces@, next.offset())),
            Err(e) => spec_interfaces(cur.buffer(), cur.offset()) == Err::<
                (Seq<u16>, int),
                DecodeError,
            >(e),
        },
{
    let (count, first) = cur.read_u2()?;
    let ghost s = cur.buffer();
    let ghost start = first.offset();
    let mut interfaces: Vec<u16> = Vec::new();
    let mut at = first;
    let mut i: u16 = 0;
    while i < count
        invariant
            s == cur.buffer(),
            at.buffer() == s,
            available(s, cur.offset(), 2),
            count == be_u16(s, cur.offset()),
            start == cur.offset() + 2,
            i <= count,
            at.offset() == start + 2 * i,
            at.offset() <= s.len(),
            interfaces@.len() == i,
            forall|k: int| 0 <= k < i ==> interfaces@[k] == be_u16(s, start + 2 * k) as u16,
        decreases count - i,
    {
        let (index, next) = at.read_u2()?;
        interfaces.push(index);
        at = next;
        i += 1;
    }
    assert(interfaces@ =~= spec_interfaces(s, cur.offset())->Ok_0.0);
    Ok((interfaces, at))
}

} // verus!
