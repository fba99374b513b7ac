//! Text in the constant pool: byte strings read as UTF-8, and comparison of
//! strings.

use vstd::prelude::*;
use vstd::utf8::{decode_utf8, encode_utf8_decode_utf8, valid_utf8};

verus! {

/// The text that the bytes `b` encode, if they are well-formed UTF-8.
pub open spec fn spec_text(b: Seq<u8>) -> Option<Seq<char>> {
    if valid_utf8(b) {
        Some(decode_utf8(b))
    } else {
        None
    }
}

/// Reads `b` as UTF-8 by calling `core::str::from_utf8`.
///
/// Not proved: that the call succeeds exactly on well-formed UTF-8, and that
/// the string it then returns is the one that `b` encodes.
#[verifier::external_body]
pub(crate) fn utf8_str(b: &[u8]) -> (res: Option<&str>)
    ensures
        match res {
            Some(s) => spec_text(b@) == Some(s@),
            None => spec_text(b@) is None,
        },
{
    core::str::from_utf8(b).ok()
}

/// Whether two byte strings are the same.
pub(crate) fn bytes_eq(a: &[u8], b: &[u8]) -> (same: bool)
    ensures
        same == (a@ == b@),
{
    if a.len() != b.len() {
        return false;
    }
    let mut i: usize = 0;
    while i < a.len()
        invariant
            a@.len() == b@.len(),
            i <= a@.len(),
            forall|k: int| 0 <= k < i ==> a@[k] == b@[k],
        decreases a@.len() - i,
    {
        if a[i] != b[i] {
            return false;
        }
        i += 1;
    }
    assert(a@ =~= b@);
    true
}

/// Whether two strings hold the same characters.
pub(crate) fn str_eq(a: &str, b: &str) -> (same: bool)
    ensures
        same == (a@ == b@),
{
    let same = bytes_eq(a.as_bytes(), b.as_bytes());
    proof {
        encode_utf8_decode_utf8(a@);
        encode_utf8_decode_utf8(b@);
    }
    same
}

} // verus!
