//! A sequential, bounds-checked, little-endian reader over an immutable
//! buffer. Every read either hands out the bytes asked for and advances past
//! them, or fails and leaves the position where it was.

use vstd::prelude::*;
use crate::error::AceParseError;

verus! {

/// The unsigned little-endian value of the four bytes of `s` that start at `at`.
pub open spec fn le_u32(s: Seq<u8>, at: int) -> int {
    s[at] + 0x100 * s[at + 1] + 0x1_0000 * s[at + 2] + 0x100_0000 * s[at + 3]
}

/// The two's-complement little-endian value of the four bytes of `s` that
/// start at `at`.
pub open spec fn le_i32(s: Seq<u8>, at: int) -> int {
    if le_u32(s, at) >= 0x8000_0000 {
        le_u32(s, at) - 0x1_0000_0000
    } else {
        le_u32(s, at)
    }
}

/// The unsigned little-endian value of the eight bytes of `s` that start at `at`.
pub open spec fn le_u64(s: Seq<u8>, at: int) -> int {
    le_u32(s, at) + 0x1_0000_0000 * le_u32(s, at + 4)
}

/// A read position in a borrowed buffer.
pub struct ByteCursor<'a> {
    data: &'a [u8],
    pos: usize,
}

impl<'a> ByteCursor<'a> {
    #[verifier::type_invariant]
    spec fn in_bounds(self) -> bool {
        self.pos <= self.data@.len()
    }

    /// The whole buffer the cursor reads from.
    pub closed spec fn bytes(&self) -> Seq<u8> {
        self.data@
    }

    /// Number of bytes already read.
    pub closed spec fn offset(&self) -> nat {
        if self.pos <= self.data@.len() {
            self.pos as nat
        } else {
            self.data@.len()
        }
    }

    /// The position never lies behind the end of the buffer.
    pub proof fn lemma_offset_in_bounds(&self)
        ensures
            self.offset() <= self.bytes().len(),
    {
    }

    /// A cursor at the start of `data`.
    pub fn new(data: &'a [u8]) -> (c: Self)
        ensures
            c.bytes() == data@,
            c.offset() == 0,
    {
        ByteCursor { data, pos: 0 }
    }

    /// Number of bytes already read; never more than the buffer holds.
    pub fn position(&self) -> (p: usize)
        ensures
            p == self.offset(),
            p <= self.bytes().len(),
    {
        proof {
            use_type_invariant(self);
        }
        self.pos
    }

    /// Number of bytes not yet read.
    pub fn remaining(&self) -> (n: usize)
        ensures
            n == self.bytes().len() - self.offset(),
    {
        proof {
            use_type_invariant(self);
        }
        self.data.len() - self.pos
    }

    /// Hands out the next `n` bytes and advances past them.
    pub fn read_bytes(&mut self, n: usize) -> (r: Result<&'a [u8], AceParseError>)
        ensures
            final(self).bytes() == old(self).bytes(),
            match r {
                Ok(s) => {
                    &&& old(self).offset() + n <= old(self).bytes().len()
                    &&& s@ == old(self).bytes().subrange(
                        old(self).offset() as int,
                        old(self).offset() + n,
                    )
                    &&& final(self).offset() == old(self).offset() + n
                },
                Err(e) => {
                    &&& e is UnexpectedEnd
                    &&& old(self).offset() + n > old(self).bytes().len()
                    &&& final(self).offset() == old(self).offset()
                },
            },
    {
        proof {
            use_type_invariant(&*self);
        }
        let data: &'a [u8] = self.data;
        if n > data.len() - self.pos {
            return Err(AceParseError::UnexpectedEnd);
        }
        let start = self.pos;
        let end = start + n;
        self.pos = end;
        Ok(&data[start..end])
    }

    /// Reads four bytes as an unsigned little-endian integer.
    pub fn read_u32(&mut self) -> (r: Result<u32, AceParseError>)
        ensures
            final(self).bytes() == old(self).bytes(),
            match r {
                Ok(v) => {
                    &&& old(self).offset() + 4 <= old(self).bytes().len()
                    &&& v == le_u32(old(self).bytes(), old(self).offset() as int)
                    &&& final(self).offset() == old(self).offset() + 4
                },
                Err(e) => {
                    &&& e is UnexpectedEnd
                    &&& old(self).offset() + 4 > old(self).bytes().len()
                    &&& final(self).offset() == old(self).offset()
                },
            },
    {
        match self.read_bytes(4) {
            Ok(s) => {
                let v: u32 = s[0] as u32 + 0x100 * (s[1] as u32) + 0x1_0000 * (s[2] as u32)
                    + 0x100_0000 * (s[3] as u32);
                Ok(v)
            },
            Err(e) => Err(e),
        }
    }

    /// Reads four bytes as a two's-complement little-endian integer.
    pub fn read_i32(&mut self) -> (r: Result<i32, AceParseError>)
        ensures
            final(self).bytes() == old(self).bytes(),
            match r {
                Ok(v) => {
                    &&& old(self).offset() + 4 <= old(self).bytes().len()
                    &&& v == le_i32(old(self).bytes(), old(self).offset() as int)
                    &&& final(self).offset() == old(self).offset() + 4
                },
                Err(e) => {
                    &&& e is UnexpectedEnd
                    &&& old(self).offset() + 4 > old(self).bytes().len()
                    &&& final(self).offset() == old(self).offset()
                },
            },
    {
        match self.read_u32() {
            Ok(v) => {
                if v >= 0x8000_0000 {
                    let low: i32 = (v - 0x8000_0000) as i32;
                    Ok(low - 0x7FFF_FFFF - 1)
                } else {
                    Ok(v as i32)
                }
            },
            Err(e) => Err(e),
        }
    }

    /// Reads eight bytes as an unsigned little-endian integer.
    pub fn read_u64(&mut self) -> (r: Result<u64, AceParseError>)
        ensures
            final(self).bytes() == old(self).bytes(),
            match r {
                Ok(v) => {
                    &&& old(self).offset() + 8 <= old(self).bytes().len()
                    &&& v == le_u64(old(self).bytes(), old(self).offset() as int)
                    &&& final(self).offset() == old(self).offset() + 8
                },
                Err(e) => {
                    &&& e is UnexpectedEnd
                    &&& old(self).offset() + 8 > old(self).bytes().len()
                    &&& final(self).offset() == old(self).offset()
                },
            },
    {
        match self.read_bytes(8) {
            Ok(s) => {
                let low: u64 = s[0] as u64 + 0x100 * (s[1] as u64) + 0x1_0000 * (s[2] as u64)
                    + 0x100_0000 * (s[3] as u64);
                let high: u64 = s[4] as u64 + 0x100 * (s[5] as u64) + 0x1_0000 * (s[6] as u64)
                    + 0x100_0000 * (s[7] as u64);
                Ok(low + 0x1_0000_0000 * high)
            },
            Err(e) => Err(e),
        }
    }
}

} // verus!
