//! The primitive reader: big-endian unsigned integers of one, two and four
//! bytes, taken from a forward-only cursor over a byte buffer.

use crate::error::DecodeError;
use vstd::prelude::*;
use vstd::slice::{slice_subrange, slice_to_vec};

verus! {

/// Whether `s` holds `n` bytes from offset `pos` on.
pub open spec fn available(s: Seq<u8>, pos: int, n: int) -> bool {
    0 <= pos && 0 <= n && pos + n <= s.len()
}

/// The big-endian value of the two bytes of `s` at `pos`.
pub open spec fn be_u16(s: Seq<u8>, pos: int) -> int {
    s[pos] as int * 0x100 + s[pos + 1] as int
}

/// The big-endian value of the four bytes of `s` at `pos`.
pub open spec fn be_u32(s: Seq<u8>, pos: int) -> int {
    be_u16(s, pos) * 0x1_0000 + be_u16(s, pos + 2)
}

/// The big-endian value of the eight bytes of `s` at `pos`.
pub open spec fn be_u64(s: Seq<u8>, pos: int) -> int {
    be_u32(s, pos) * 0x1_0000_0000 + be_u32(s, pos + 4)
}

/// Reading one byte at `pos`: the byte and the offset behind it.
pub open spec fn spec_u1(s: Seq<u8>, pos: int) -> Result<(u8, int), DecodeError> {
    if available(s, pos, 1) {
        Ok((s[pos], pos + 1))
    } else {
        Err(DecodeError::UnexpectedEof)
    }
}

/// Reading a two-byte integer at `pos`: its value and the offset behind it.
pub open spec fn spec_u2(s: Seq<u8>, pos: int) -> Result<(u16, int), DecodeError> {
    if available(s, pos, 2) {
        Ok((be_u16(s, pos) as u16, pos + 2))
    } else {
        Err(DecodeError::UnexpectedEof)
    }
}

/// Reading a four-byte integer at `pos`: its value and the offset behind it.
pub open spec fn spec_u4(s: Seq<u8>, pos: int) -> Result<(u32, int), DecodeError> {
    if available(s, pos, 4) {
        Ok((be_u32(s, pos) as u32, pos + 4))
    } else {
        Err(DecodeError::UnexpectedEof)
    }
}

/// Reading `n` raw bytes at `pos`: the bytes and the offset behind them.
pub open spec fn spec_bytes(s: Seq<u8>, pos: int, n: int) -> Result<(Seq<u8>, int), DecodeError> {
    if available(s, pos, n) {
        Ok((s.subrange(pos, pos + n), pos + n))
    } else {
        Err(DecodeError::UnexpectedEof)
    }
}

/// How decoding a prefix of `k` bytes of a buffer compares with decoding the
/// whole buffer.
///
/// Where the whole buffer decodes, the prefix gives the same value if the
/// value ends within it, and else runs out of bytes. Where the prefix
/// decodes, the whole buffer gives the same.
pub open spec fn cut_of<T>(
    whole: Result<(T, int), DecodeError>,
    cut: Result<(T, int), DecodeError>,
    k: int,
) -> bool {
    &&& whole matches Ok((_, next)) ==> cut == if next <= k {
        whole
    } else {
        Err(DecodeError::UnexpectedEof)
    }
    &&& cut is Ok ==> cut == whole
}

/// A position in a byte buffer that only moves forward.
///
/// A read consumes the cursor and, where it succeeds, hands back the cursor
/// behind what was read. A cursor cannot be copied, so nothing is read twice
/// and nothing is read after a failure.
pub struct Cursor<'a> {
    bytes: &'a [u8],
    pos: usize,
}

impl<'a> Cursor<'a> {
    /// A cursor never stands behind the end of its buffer.
    #[verifier::type_invariant]
    spec fn in_bounds(&self) -> bool {
        self.pos <= self.bytes@.len()
    }

    /// The whole buffer that the cursor walks over.
    pub closed spec fn buffer(&self) -> Seq<u8> {
        self.bytes@
    }

    /// How many bytes of the buffer lie behind the cursor.
    pub closed spec fn offset(&self) -> int {
        self.pos as int
    }

    /// A cursor at the start of `bytes`.
    pub fn new(bytes: &'a [u8]) -> (cur: Cursor<'a>)
        ensures
            cur.buffer() == bytes@,
            cur.offset() == 0,
    {
        Cursor { bytes, pos: 0 }
    }

    /// The number of bytes consumed so far.
    pub fn position(&self) -> (p: usize)
        ensures
            p == self.offset(),
            p <= self.buffer().len(),
    {
        proof {
            use_type_invariant(self);
        }
        self.pos
    }

    /// Reads one byte.
    pub fn read_u1(self) -> (res: Result<(u8, Cursor<'a>), DecodeError>)
        ensures
            match res {
                Ok((v, next)) => next.buffer() == self.buffer() && spec_u1(
                    self.buffer(),
                    self.offset(),
                ) == Ok::<(u8, int), DecodeError>((v, next.offset())),
                Err(e) => spec_u1(self.buffer(), self.offset()) == Err::<(u8, int), DecodeError>(e),
            },
    {
        if self.pos < self.bytes.len() {
            let v: u8 = self.bytes[self.pos];
            Ok((v, Cursor { bytes: self.bytes, pos: self.pos + 1 }))
        } else {
            Err(DecodeError::UnexpectedEof)
        }
    }

    /// Reads a two-byte big-endian integer.
    pub fn read_u2(self) -> (res: Result<(u16, Cursor<'a>), DecodeError>)
        ensures
            match res {
                Ok((v, next)) => next.buffer() == self.buffer() && spec_u2(
                    self.buffer(),
                    self.offset(),
                ) == Ok::<(u16, int), DecodeError>((v, next.offset())),
                Err(e) => spec_u2(self.buffer(), self.offset()) == Err::<(u16, int), DecodeError>(
                    e,
                ),
            },
    {
        proof {
            use_type_invariant(&self);
        }
        if self.bytes.len() - self.pos >= 2 {
            let hi: u16 = self.bytes[self.pos] as u16;
            let lo: u16 = self.bytes[self.pos + 1] as u16;
            Ok((hi * 0x100 + lo, Cursor { bytes: self.bytes, pos: self.pos + 2 }))
        } else {
            Err(DecodeError::UnexpectedEof)
        }
    }

    /// Reads a four-byte big-endian integer.
    pub fn read_u4(self) -> (res: Result<(u32, Cursor<'a>), DecodeError>)
        ensures
            match res {
                Ok((v, next)) => next.buffer() == self.buffer() && spec_u4(
                    self.buffer(),
                    self.offset(),
                ) == Ok::<(u32, int), DecodeError>((v, next.offset())),
                Err(e) => spec_u4(self.buffer(), self.offset()) == Err::<(u32, int), DecodeError>(
                    e,
                ),
            },
    {
        proof {
            use_type_invariant(&self);
        }
        if self.bytes.len() - self.pos >= 4 {
            let b0: u32 = self.bytes[self.pos] as u32;
            let b1: u32 = self.bytes[self.pos + 1] as u32;
            let b2: u32 = self.bytes[self.pos + 2] as u32;
            let b3: u32 = self.bytes[self.pos + 3] as u32;
            Ok(
                (
                    b0 * 0x100_0000 + b1 * 0x1_0000 + b2 * 0x100 + b3,
                    Cursor { bytes: self.bytes, pos: self.pos + 4 },
                ),
            )
        } else {
            Err(DecodeError::UnexpectedEof)
        }
    }

    /// Reads `n` raw bytes.
    pub fn read_bytes(self, n: usize) -> (res: Result<(Vec<u8>, Cursor<'a>), DecodeError>)
        ensures
            match res {
                Ok((v, next)) => next.buffer() == self.buffer() && spec_bytes(
                    self.buffer(),
                    self.offset(),
                    n as int,
                ) == Ok::<(Seq<u8>, int), DecodeError>((v@, next.offset())),
                Err(e) => spec_bytes(self.buffer(), self.offset(), n as int) == Err::<
                    (Seq<u8>, int),
                    DecodeError,
                >(e),
            },
    {
        proof {
            use_type_invariant(&self);
        }
        if self.bytes.len() - self.pos >= n {
            let end: usize = self.pos + n;
            let v: Vec<u8> = slice_to_vec(slice_subrange(self.bytes, self.pos, end));
            Ok((v, Cursor { bytes: self.bytes, pos: end }))
        } else {
            Err(DecodeError::UnexpectedEof)
        }
    }

    /// Splits off the next `n` bytes as a buffer of their own.
    ///
    /// Hands back a cursor at the start of those bytes, which cannot read past
    /// their end, and the cursor behind them.
    pub fn take(self, n: usize) -> (res: Result<(Cursor<'a>, Cursor<'a>), DecodeError>)
        ensures
            match res {
                Ok((window, rest)) => {
                    &&& available(self.buffer(), self.offset(), n as int)
                    &&& window.buffer() == self.buffer().subrange(
                        self.offset(),
                        self.offset() + n,
                    )
                    &&& window.offset() == 0
                    &&& rest.buffer() == self.buffer()
                    &&& rest.offset() == self.offset() + n
                },
                Err(e) => e == DecodeError::UnexpectedEof && !available(
                    self.buffer(),
                    self.offset(),
                    n as int,
                ),
            },
    {
        proof {
            use_type_invariant(&self);
        }
        if self.bytes.len() - self.pos >= n {
            let end: usize = self.pos + n;
            let window: &'a [u8] = slice_subrange(self.bytes, self.pos, end);
            Ok((Cursor { bytes: window, pos: 0 }, Cursor { bytes: self.bytes, pos: end }))
        } else {
            Err(DecodeError::UnexpectedEof)
        }
    }
}

} // verus!
