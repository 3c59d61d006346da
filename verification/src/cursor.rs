//! A read position in a borrowed byte buffer.

use vstd::prelude::*;
use crate::error::DecodeError;
use crate::wire;
use vstd::slice::slice_subrange;
use vstd::slice::slice_to_vec;

verus! {

/// A borrowed buffer and the offset of the next byte to read.
///
/// Every read either gives the value that the wire format puts at the
/// offset and moves the offset behind it, or fails and leaves the offset
/// where it was. No read looks past the end of the buffer.
pub struct ByteCursor<'a> {
    buf: &'a [u8],
    pos: usize,
}

/// What a read of a plain value owes: on success the value of `expected`
/// and the offset behind it, on failure the error of `expected` and the
/// offset unchanged.
pub open spec fn reads<T>(
    before: ByteCursor,
    after: ByteCursor,
    r: Result<T, DecodeError>,
    expected: Result<(T, int), DecodeError>,
) -> bool {
    match expected {
        Ok((v, next)) => r == Ok::<T, DecodeError>(v) && after.offset() == next,
        Err(e) => r == Err::<T, DecodeError>(e) && after.offset() == before.offset(),
    }
}

impl<'a> ByteCursor<'a> {
    #[verifier::type_invariant]
    spec fn in_bounds(self) -> bool {
        self.pos <= self.buf@.len()
    }

    /// The whole buffer, read or not.
    pub closed spec fn bytes(self) -> Seq<u8> {
        self.buf@
    }

    /// How many bytes have been read.
    pub closed spec fn offset(self) -> int {
        self.pos as int
    }

    /// A cursor at the start of `buf`.
    pub fn new(buf: &'a [u8]) -> (c: ByteCursor<'a>)
        ensures
            c.bytes() == buf@,
            c.offset() == 0,
    {
        ByteCursor { buf, pos: 0 }
    }

    /// The number of bytes read so far.
    pub fn position(&self) -> (n: usize)
        ensures
            n == self.offset(),
            n <= self.bytes().len(),
    {
        proof {
            use_type_invariant(self);
        }
        self.pos
    }

    /// The number of bytes not yet read.
    pub fn remaining(&self) -> (n: usize)
        ensures
            n == self.bytes().len() - self.offset(),
    {
        proof {
            use_type_invariant(self);
        }
        self.buf.len() - self.pos
    }

    /// Reads one byte.
    pub fn read_u8(&mut self) -> (r: Result<u8, DecodeError>)
        ensures
            final(self).bytes() == old(self).bytes(),
            reads(*old(self), *final(self), r, wire::read_u8(old(self).bytes(), old(self).offset())),
    {
        proof {
            use_type_invariant(&*self);
        }
        if self.buf.len() - self.pos < 1 {
            return Err(DecodeError::Truncated);
        }
        let v: u8 = self.buf[self.pos];
        self.pos = self.pos + 1;
        Ok(v)
    }

    /// Reads a 16-bit integer, least significant byte first.
    pub fn read_u16(&mut self) -> (r: Result<u16, DecodeError>)
        ensures
            final(self).bytes() == old(self).bytes(),
            reads(*old(self), *final(self), r, wire::read_u16(old(self).bytes(), old(self).offset())),
    {
        proof {
            use_type_invariant(&*self);
        }
        if self.buf.len() - self.pos < 2 {
            return Err(DecodeError::Truncated);
        }
        let b0: u16 = self.buf[self.pos] as u16;
        let b1: u16 = self.buf[self.pos + 1] as u16;
        self.pos = self.pos + 2;
        Ok(b0 + 0x100 * b1)
    }

    /// Reads a 24-bit integer, least significant byte first.
    pub fn read_u24(&mut self) -> (r: Result<u32, DecodeError>)
        ensures
            final(self).bytes() == old(self).bytes(),
            reads(*old(self), *final(self), r, wire::read_u24(old(self).bytes(), old(self).offset())),
    {
        proof {
            use_type_invariant(&*self);
        }
        if self.buf.len() - self.pos < 3 {
            return Err(DecodeError::Truncated);
        }
        let b0: u32 = self.buf[self.pos] as u32;
        let b1: u32 = self.buf[self.pos + 1] as u32;
        let b2: u32 = self.buf[self.pos + 2] as u32;
        self.pos = self.pos + 3;
        Ok(b0 + 0x100 * b1 + 0x1_0000 * b2)
    }

    /// Reads a 32-bit integer, least significant byte first.
    pub fn read_u32(&mut self) -> (r: Result<u32, DecodeError>)
        ensures
            final(self).bytes() == old(self).bytes(),
            reads(*old(self), *final(self), r, wire::read_u32(old(self).bytes(), old(self).offset())),
    {
        proof {
            use_type_invariant(&*self);
        }
        if self.buf.len() - self.pos < 4 {
            return Err(DecodeError::Truncated);
        }
        let b0: u32 = self.buf[self.pos] as u32;
        let b1: u32 = self.buf[self.pos + 1] as u32;
        let b2: u32 = self.buf[self.pos + 2] as u32;
        let b3: u32 = self.buf[self.pos + 3] as u32;
        self.pos = self.pos + 4;
        Ok(b0 + 0x100 * b1 + 0x1_0000 * b2 + 0x100_0000 * b3)
    }

    /// Reads a 64-bit integer, least significant byte first.
    pub fn read_u64(&mut self) -> (r: Result<u64, DecodeError>)
        ensures
            final(self).bytes() == old(self).bytes(),
            reads(*old(self), *final(self), r, wire::read_u64(old(self).bytes(), old(self).offset())),
    {
        proof {
            use_type_invariant(&*self);
        }
        if self.buf.len() - self.pos < 8 {
            return Err(DecodeError::Truncated);
        }
        let b0: u64 = self.buf[self.pos] as u64;
        let b1: u64 = self.buf[self.pos + 1] as u64;
        let b2: u64 = self.buf[self.pos + 2] as u64;
        let b3: u64 = self.buf[self.pos + 3] as u64;
        let b4: u64 = self.buf[self.pos + 4] as u64;
        let b5: u64 = self.buf[self.pos + 5] as u64;
        let b6: u64 = self.buf[self.pos + 6] as u64;
        let b7: u64 = self.buf[self.pos + 7] as u64;
        self.pos = self.pos + 8;
        Ok(
            b0 + 0x100 * b1 + 0x1_0000 * b2 + 0x100_0000 * b3 + 0x1_0000_0000 * b4
                + 0x100_0000_0000 * b5 + 0x1_0000_0000_0000 * b6 + 0x100_0000_0000_0000 * b7,
        )
    }

    /// Reads the next `n` bytes as they are.
    pub fn read_bytes(&mut self, n: usize) -> (r: Result<Vec<u8>, DecodeError>)
        ensures
            final(self).bytes() == old(self).bytes(),
            match wire::read_bytes(old(self).bytes(), old(self).offset(), n as nat) {
                Ok((bytes, next)) => r.is_ok() && r.unwrap()@ == bytes && final(self).offset()
                    == next,
                Err(e) => r == Err::<Vec<u8>, DecodeError>(e) && final(self).offset() == old(
                    self,
                ).offset(),
            },
    {
        proof {
            use_type_invariant(&*self);
        }
        if self.buf.len() - self.pos < n {
            return Err(DecodeError::Truncated);
        }
        let span = slice_subrange(self.buf, self.pos, self.pos + n);
        let bytes = slice_to_vec(span);
        self.pos = self.pos + n;
        Ok(bytes)
    }

    /// Reads a length-encoded integer; `None` is the wire's NULL.
    pub fn read_lenenc_int(&mut self) -> (r: Result<Option<u64>, DecodeError>)
        ensures
            final(self).bytes() == old(self).bytes(),
            reads(
                *old(self),
                *final(self),
                r,
                wire::read_lenenc_int(old(self).bytes(), old(self).offset()),
            ),
    {
        proof {
            use_type_invariant(&*self);
        }
        let start = self.pos;
        let first: u8 = match self.read_u8() {
            Ok(b) => b,
            Err(e) => {
                return Err(e);
            },
        };
        let r = if first <= 0xFA {
            Ok(Some(first as u64))
        } else if first == 0xFB {
            Ok(None)
        } else if first == 0xFC {
            match self.read_u16() {
                Ok(v) => Ok(Some(v as u64)),
                Err(e) => Err(e),
            }
        } else if first == 0xFD {
            match self.read_u24() {
                Ok(v) => Ok(Some(v as u64)),
                Err(e) => Err(e),
            }
        } else if first == 0xFE {
            match self.read_u64() {
                Ok(v) => Ok(Some(v)),
                Err(e) => Err(e),
            }
        } else {
            Err(DecodeError::InvalidLenenc)
        };
        if r.is_err() {
            self.pos = start;
        }
        r
    }

    /// Reads a length-encoded string; `None` is the wire's NULL. The bytes
    /// are not checked for UTF-8.
    pub fn read_lenenc_string(&mut self) -> (r: Result<Option<Vec<u8>>, DecodeError>)
        ensures
            final(self).bytes() == old(self).bytes(),
            match wire::read_lenenc_string(old(self).bytes(), old(self).offset()) {
                Ok((Some(bytes), next)) => r.is_ok() && r.unwrap().is_some()
                    && r.unwrap().unwrap()@ == bytes && final(self).offset() == next,
                Ok((None, next)) => r.is_ok() && r.unwrap().is_none() && final(self).offset()
                    == next,
                Err(e) => r == Err::<Option<Vec<u8>>, DecodeError>(e) && final(self).offset()
                    == old(self).offset(),
            },
    {
        proof {
            use_type_invariant(&*self);
        }
        let start = self.pos;
        let n: u64 = match self.read_lenenc_int() {
            Ok(Some(n)) => n,
            Ok(None) => {
                return Ok(None);
            },
            Err(e) => {
                return Err(e);
            },
        };
        if (self.remaining() as u64) < n {
            self.pos = start;
            return Err(DecodeError::Truncated);
        }
        match self.read_bytes(n as usize) {
            Ok(bytes) => Ok(Some(bytes)),
            Err(e) => {
                self.pos = start;
                Err(e)
            },
        }
    }
    /// Reads a null-terminated string: the bytes up to the next zero byte,
    /// which is consumed too.
    pub fn read_null_terminated(&mut self) -> (r: Result<Vec<u8>, DecodeError>)
        ensures
            final(self).bytes() == old(self).bytes(),
            match wire::read_null_terminated(old(self).bytes(), old(self).offset()) {
                Ok((bytes, next)) => r.is_ok() && r.unwrap()@ == bytes && final(self).offset()
                    == next,
                Err(e) => r == Err::<Vec<u8>, DecodeError>(e) && final(self).offset() == old(
                    self,
                ).offset(),
            },
    {
        proof {
            use_type_invariant(&*self);
        }
        let start: usize = self.pos;
        let mut end: usize = start;
        while end < self.buf.len() && self.buf[end] != 0
            invariant
                start <= end <= self.buf@.len(),
                self.buf == old(self).buf,
                self.pos == start,
                forall|k: int| start <= k < end ==> self.buf@[k] != 0,
            decreases self.buf@.len() - end,
        {
            end = end + 1;
        }
        if end == self.buf.len() {
            proof {
                wire::lemma_find_nul(self.buf@, start as int);
            }
            return Err(DecodeError::Truncated);
        }
        proof {
            wire::lemma_find_nul_is(self.buf@, start as int, end as int);
        }
        let bytes = slice_to_vec(slice_subrange(self.buf, start, end));
        self.pos = end + 1;
        Ok(bytes)
    }
}

} // verus!
