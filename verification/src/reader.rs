//! A byte source over a buffer in memory, with the reads that the format
//! needs: bytes, and numbers of four and eight bytes, most significant byte
//! first.

use crate::error::ReadError;
use vstd::prelude::*;

verus! {

/// The unsigned number that the four bytes of `s` from index `at` on spell,
/// most significant byte first.
pub open spec fn be_u32_at(s: Seq<u8>, at: int) -> int {
    s[at] * 0x100_0000 + s[at + 1] * 0x1_0000 + s[at + 2] * 0x100 + s[at + 3]
}

/// The same four bytes read as a two's complement number.
pub open spec fn be_i32_at(s: Seq<u8>, at: int) -> int {
    let u = be_u32_at(s, at);
    if u < 0x8000_0000 {
        u
    } else {
        u - 0x1_0000_0000
    }
}

/// The two's complement number that the eight bytes of `s` from index `at`
/// on spell, most significant byte first.
pub open spec fn be_i64_at(s: Seq<u8>, at: int) -> int {
    let u = be_u32_at(s, at) * 0x1_0000_0000 + be_u32_at(s, at + 4);
    if u < 0x8000_0000_0000_0000 {
        u
    } else {
        u - 0x1_0000_0000_0000_0000
    }
}

/// A signed number of `width` bytes, where `width` is 4 or 8.
pub open spec fn be_int_at(s: Seq<u8>, at: int, width: int) -> int {
    if width == 8 {
        be_i64_at(s, at)
    } else {
        be_i32_at(s, at)
    }
}

/// A byte source over a buffer in memory: the bytes, and how many of them
/// have been read.
pub struct Reader {
    data: Vec<u8>,
    pos: usize,
}

impl Reader {
    #[verifier::type_invariant]
    pub open spec fn in_bounds(&self) -> bool {
        0 <= self.offset() <= self.source().len()
    }

    /// All bytes of the buffer, read or not.
    pub closed spec fn source(&self) -> Seq<u8> {
        self.data@
    }

    /// The number of bytes read so far.
    pub closed spec fn offset(&self) -> int {
        self.pos as int
    }

    /// Whether `n` more bytes can be read.
    pub open spec fn has(&self, n: int) -> bool {
        self.offset() + n <= self.source().len()
    }

    /// This reader is `before` after `n` more bytes were read.
    pub open spec fn is_after(&self, before: &Reader, n: int) -> bool {
        &&& self.source() == before.source()
        &&& self.offset() == before.offset() + n
    }

    /// A reader at the start of `data`.
    pub fn new(data: Vec<u8>) -> (r: Reader)
        ensures
            r.source() == data@,
            r.offset() == 0,
    {
        Reader { data, pos: 0 }
    }

    /// The number of bytes read so far.
    pub fn position(&self) -> (n: usize)
        ensures
            n == self.offset(),
            self.in_bounds(),
    {
        proof {
            use_type_invariant(self);
        }
        self.pos
    }

    /// The number of bytes that are still to be read.
    pub fn remaining_len(&self) -> (n: usize)
        ensures
            n == self.source().len() - self.offset(),
            self.in_bounds(),
    {
        proof {
            use_type_invariant(self);
        }
        self.data.len() - self.pos
    }

    /// Goes to a position within the buffer.
    pub(crate) fn restore(&mut self, position: usize)
        requires
            position <= old(self).source().len(),
        ensures
            final(self).source() == old(self).source(),
            final(self).offset() == position,
    {
        self.pos = position;
    }

    /// Passes over `n` bytes, or fails and stays where it is when fewer
    /// than `n` are left.
    pub fn skip(&mut self, n: u64) -> (r: Result<(), ReadError>)
        ensures
            match r {
                Ok(_) => old(self).has(n as int) && final(self).is_after(old(self), n as int),
                Err(e) => !old(self).has(n as int) && e == ReadError::UnexpectedEof
                    && final(self).is_after(old(self), 0),
            },
    {
        proof {
            use_type_invariant(&*self);
        }
        let left = self.data.len() - self.pos;
        if n > left as u64 {
            return Err(ReadError::UnexpectedEof);
        }
        self.pos = self.pos + n as usize;
        Ok(())
    }

    /// Reads the next `n` bytes, or fails and stays where it is when fewer
    /// than `n` are left.
    pub fn read_exact(&mut self, n: usize) -> (r: Result<Vec<u8>, ReadError>)
        ensures
            match r {
                Ok(bytes) => old(self).has(n as int) && final(self).is_after(old(self), n as int)
                    && bytes@ == old(self).source().subrange(
                    old(self).offset(),
                    old(self).offset() + n,
                ),
                Err(e) => !old(self).has(n as int) && e == ReadError::UnexpectedEof
                    && final(self).is_after(old(self), 0),
            },
    {
        proof {
            use_type_invariant(&*self);
        }
        let left = self.data.len() - self.pos;
        if n > left {
            return Err(ReadError::UnexpectedEof);
        }
        let start = self.pos;
        let mut bytes: Vec<u8> = Vec::new();
        let mut i: usize = 0;
        while i < n
            invariant
                i <= n,
                start + n <= self.data.len(),
                bytes@ == self.data@.subrange(start as int, start + i),
            decreases n - i,
        {
            bytes.push(self.data[start + i]);
            i = i + 1;
        }
        self.pos = start + n;
        Ok(bytes)
    }

    /// Reads one byte.
    pub fn read_u8(&mut self) -> (r: Result<u8, ReadError>)
        ensures
            match r {
                Ok(v) => old(self).has(1) && final(self).is_after(old(self), 1) && v == old(self).source()[old(self).offset()],
                Err(e) => !old(self).has(1) && e == ReadError::UnexpectedEof && final(self).is_after(old(self), 0),
            },
    {
        proof {
            use_type_invariant(&*self);
        }
        if self.pos >= self.data.len() {
            return Err(ReadError::UnexpectedEof);
        }
        let b = self.data[self.pos];
        self.pos = self.pos + 1;
        Ok(b)
    }

    /// Reads four bytes as an unsigned number, most significant byte first.
    pub fn read_be_u32(&mut self) -> (r: Result<u32, ReadError>)
        ensures
            match r {
                Ok(v) => old(self).has(4) && final(self).is_after(old(self), 4) && v == be_u32_at(
                    old(self).source(),
                    old(self).offset(),
                ),
                Err(e) => !old(self).has(4) && e == ReadError::UnexpectedEof && final(self).is_after(old(self), 0),
            },
    {
        proof {
            use_type_invariant(&*self);
        }
        if self.data.len() - self.pos < 4 {
            return Err(ReadError::UnexpectedEof);
        }
        let p = self.pos;
        let b0 = self.data[p] as u32;
        let b1 = self.data[p + 1] as u32;
        let b2 = self.data[p + 2] as u32;
        let b3 = self.data[p + 3] as u32;
        self.pos = p + 4;
        Ok(b0 * 0x100_0000 + b1 * 0x1_0000 + b2 * 0x100 + b3)
    }

    /// Reads four bytes as a two's complement number, most significant byte
    /// first.
    pub fn read_be_i32(&mut self) -> (r: Result<i32, ReadError>)
        ensures
            match r {
                Ok(v) => old(self).has(4) && final(self).is_after(old(self), 4) && v == be_i32_at(
                    old(self).source(),
                    old(self).offset(),
                ),
                Err(e) => !old(self).has(4) && e == ReadError::UnexpectedEof && final(self).is_after(old(self), 0),
            },
    {
        match self.read_be_u32() {
            Err(e) => Err(e),
            Ok(u) => if u < 0x8000_0000 {
                Ok(u as i32)
            } else {
                Ok(((u - 0x8000_0000) as i64 - 0x8000_0000) as i32)
            },
        }
    }

    /// Reads `width` bytes, four or eight, as a two's complement number,
    /// most significant byte first.
    pub fn read_be_int_n(&mut self, width: usize) -> (r: Result<i64, ReadError>)
        requires
            width == 4 || width == 8,
        ensures
            match r {
                Ok(v) => old(self).has(width as int) && final(self).is_after(
                    old(self),
                    width as int,
                ) && v == be_int_at(old(self).source(), old(self).offset(), width as int),
                Err(e) => !old(self).has(width as int) && e == ReadError::UnexpectedEof && final(self).is_after(old(self), 0),
            },
    {
        if width == 4 {
            return match self.read_be_i32() {
                Err(e) => Err(e),
                Ok(v) => Ok(v as i64),
            };
        }
        if self.remaining_len() < 8 {
            return Err(ReadError::UnexpectedEof);
        }
        let high = match self.read_be_u32() {
            Err(e) => { return Err(e); },
            Ok(v) => v as u64,
        };
        let low = match self.read_be_u32() {
            Err(e) => { return Err(e); },
            Ok(v) => v as u64,
        };
        let u = high * 0x1_0000_0000 + low;
        if u < 0x8000_0000_0000_0000 {
            Ok(u as i64)
        } else {
            Ok((u - 0x8000_0000_0000_0000) as i64 + i64::MIN)
        }
    }
}

} // verus!
