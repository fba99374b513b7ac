//! The ways in which decoding a class file, or querying a decoded class, fails.

use vstd::prelude::*;

verus! {

/// Why a decode or a query failed.
///
/// Every failure is final: no partially decoded value is ever handed out.
#[derive(Clone, Copy, Debug, PartialEq, Eq, Structural)]
pub enum DecodeError {
    /// A read ran past the end of the buffer.
    UnexpectedEof,
    /// A constant pool entry starts with a tag byte that names no kind of entry.
    UnknownConstantTag,
    /// An index names no addressable slot of the constant pool: slot 0, a slot
    /// past the end, or the slot that follows a `Long` or `Double` entry.
    IndexOutOfRange,
    /// A typed lookup found an entry of another kind.
    TypeMismatch,
    /// No method has the name and descriptor that were asked for.
    MethodNotFound,
}

} // verus!
