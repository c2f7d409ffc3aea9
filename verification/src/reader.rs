use vstd::prelude::*;

use crate::model::DecodeError;

verus! {

/// The value of two bytes read little-endian.
pub open spec fn le16(b0: u8, b1: u8) -> u16 {
    (b0 as int + 256 * b1 as int) as u16
}

/// The value of four bytes read little-endian.
pub open spec fn le32(b0: u8, b1: u8, b2: u8, b3: u8) -> u32 {
    (b0 as int + 256 * b1 as int + 65536 * b2 as int + 16777216 * b3 as int) as u32
}

/// One byte at cursor `p`, with the cursor after the read; end of data if the
/// buffer is too short.
pub open spec fn sp_u8(b: Seq<u8>, p: int) -> Result<(u8, int), DecodeError> {
    if 0 <= p && p + 1 <= b.len() {
        Ok((b[p], p + 1))
    } else {
        Err(DecodeError::UnexpectedEndOfData)
    }
}

/// A little-endian two-byte integer at cursor `p`.
pub open spec fn sp_u16(b: Seq<u8>, p: int) -> Result<(u16, int), DecodeError> {
    if 0 <= p && p + 2 <= b.len() {
        Ok((le16(b[p], b[p + 1]), p + 2))
    } else {
        Err(DecodeError::UnexpectedEndOfData)
    }
}

/// A little-endian four-byte integer at cursor `p`.
pub open spec fn sp_u32(b: Seq<u8>, p: int) -> Result<(u32, int), DecodeError> {
    if 0 <= p && p + 4 <= b.len() {
        Ok((le32(b[p], b[p + 1], b[p + 2], b[p + 3]), p + 4))
    } else {
        Err(DecodeError::UnexpectedEndOfData)
    }
}

/// `n` raw bytes starting at cursor `p`.
pub open spec fn sp_bytes(b: Seq<u8>, p: int, n: int) -> Result<(Seq<u8>, int), DecodeError> {
    if 0 <= p && 0 <= n && p + n <= b.len() {
        Ok((b.subrange(p, p + n), p + n))
    } else {
        Err(DecodeError::UnexpectedEndOfData)
    }
}

/// The cursor after skipping `n` bytes at cursor `p`.
pub open spec fn sp_skip(b: Seq<u8>, p: int, n: int) -> Result<int, DecodeError> {
    if 0 <= p && 0 <= n && p + n <= b.len() {
        Ok(p + n)
    } else {
        Err(DecodeError::UnexpectedEndOfData)
    }
}

/// Cursor-based reader over an immutable byte buffer. Every operation is
/// bounds checked: a read that would cross the end of the buffer fails with
/// `UnexpectedEndOfData` and leaves the cursor where it was.
pub struct ByteReader<'a> {
    pub data: &'a [u8],
    pub pos: usize,
}

impl<'a> ByteReader<'a> {
    /// The cursor never stands past the end of the buffer.
    pub open spec fn wf(&self) -> bool {
        self.pos <= self.data@.len()
    }

    pub fn new(data: &'a [u8]) -> (r: ByteReader<'a>)
        ensures
            r.wf(),
            r.data@ == data@,
            r.pos == 0,
    {
        ByteReader { data, pos: 0 }
    }

    /// How many bytes remain in front of the cursor.
    pub fn remaining(&self) -> (n: usize)
        requires
            self.wf(),
        ensures
            n == self.data@.len() - self.pos,
    {
        self.data.len() - self.pos
    }

    /// Read one unsigned byte.
    pub fn read_u8(&mut self) -> (r: Result<u8, DecodeError>)
        requires
            old(self).wf(),
        ensures
            final(self).wf(),
            final(self).data@ == old(self).data@,
            match sp_u8(old(self).data@, old(self).pos as int) {
                Ok(vp) => r == Ok::<u8, DecodeError>(vp.0) && final(self).pos == vp.1,
                Err(e) => r == Err::<u8, DecodeError>(e) && final(self).pos == old(self).pos,
            },
    {
        if self.data.len() - self.pos >= 1 {
            let v = self.data[self.pos];
            self.pos = self.pos + 1;
            Ok(v)
        } else {
            Err(DecodeError::UnexpectedEndOfData)
        }
    }

    /// Read one signed byte (the same bits as `read_u8`, reinterpreted).
    pub fn read_i8(&mut self) -> (r: Result<i8, DecodeError>)
        requires
            old(self).wf(),
        ensures
            final(self).wf(),
            final(self).data@ == old(self).data@,
            match sp_u8(old(self).data@, old(self).pos as int) {
                Ok(vp) => r == Ok::<i8, DecodeError>(vp.0 as i8) && final(self).pos == vp.1,
                Err(e) => r == Err::<i8, DecodeError>(e) && final(self).pos == old(self).pos,
            },
    {
        match self.read_u8() {
            Ok(v) => Ok(v as i8),
            Err(e) => Err(e),
        }
    }

    /// Read a two-byte little-endian integer.
    pub fn read_u16_le(&mut self) -> (r: Result<u16, DecodeError>)
        requires
            old(self).wf(),
        ensures
            final(self).wf(),
            final(self).data@ == old(self).data@,
            match sp_u16(old(self).data@, old(self).pos as int) {
                Ok(vp) => r == Ok::<u16, DecodeError>(vp.0) && final(self).pos == vp.1,
                Err(e) => r == Err::<u16, DecodeError>(e) && final(self).pos == old(self).pos,
            },
    {
        if self.data.len() - self.pos >= 2 {
            let b0 = self.data[self.pos];
            let b1 = self.data[self.pos + 1];
            self.pos = self.pos + 2;
            Ok(b0 as u16 + 256 * (b1 as u16))
        } else {
            Err(DecodeError::UnexpectedEndOfData)
        }
    }

    /// Read a four-byte little-endian integer.
    pub fn read_u32_le(&mut self) -> (r: Result<u32, DecodeError>)
        requires
            old(self).wf(),
        ensures
            final(self).wf(),
            final(self).data@ == old(self).data@,
            match sp_u32(old(self).data@, old(self).pos as int) {
                Ok(vp) => r == Ok::<u32, DecodeError>(vp.0) && final(self).pos == vp.1,
                Err(e) => r == Err::<u32, DecodeError>(e) && final(self).pos == old(self).pos,
            },
    {
        if self.data.len() - self.pos >= 4 {
            let b0 = self.data[self.pos];
            let b1 = self.data[self.pos + 1];
            let b2 = self.data[self.pos + 2];
            let b3 = self.data[self.pos + 3];
            self.pos = self.pos + 4;
            Ok(b0 as u32 + 256 * (b1 as u32) + 65536 * (b2 as u32) + 16777216 * (b3 as u32))
        } else {
            Err(DecodeError::UnexpectedEndOfData)
        }
    }

    /// Read `n` raw bytes into a fresh vector.
    pub fn read_bytes(&mut self, n: usize) -> (r: Result<Vec<u8>, DecodeError>)
        requires
            old(self).wf(),
        ensures
            final(self).wf(),
            final(self).data@ == old(self).data@,
            match sp_bytes(old(self).data@, old(self).pos as int, n as int) {
                Ok(vp) => r is Ok && r.unwrap()@ == vp.0 && final(self).pos == vp.1,
                Err(e) => r == Err::<Vec<u8>, DecodeError>(e) && final(self).pos == old(self).pos,
            },
    {
        if self.data.len() - self.pos >= n {
            let mut out: Vec<u8> = Vec::new();
            let end: usize = self.pos + n;
            let mut j: usize = self.pos;
            while j < end
                invariant
                    self.pos <= j <= end,
                    end == self.pos + n,
                    end <= self.data@.len(),
                    out@ == self.data@.subrange(self.pos as int, j as int),
                decreases end - j,
            {
                out.push(self.data[j]);
                proof {
                    assert(out@ =~= self.data@.subrange(self.pos as int, j + 1 as int));
                }
                j = j + 1;
            }
            self.pos = self.pos + n;
            Ok(out)
        } else {
            Err(DecodeError::UnexpectedEndOfData)
        }
    }

    /// Advance the cursor by `n` bytes without reading them.
    pub fn skip(&mut self, n: usize) -> (r: Result<(), DecodeError>)
        requires
            old(self).wf(),
        ensures
            final(self).wf(),
            final(self).data@ == old(self).data@,
            match sp_skip(old(self).data@, old(self).pos as int, n as int) {
                Ok(p) => r == Ok::<(), DecodeError>(()) && final(self).pos == p,
                Err(e) => r == Err::<(), DecodeError>(e) && final(self).pos == old(self).pos,
            },
    {
        if self.data.len() - self.pos >= n {
            self.pos = self.pos + n;
            Ok(())
        } else {
            Err(DecodeError::UnexpectedEndOfData)
        }
    }

    /// Look at the next byte without moving the cursor.
    pub fn peek_u8(&self) -> (r: Result<u8, DecodeError>)
        requires
            self.wf(),
        ensures
            match sp_u8(self.data@, self.pos as int) {
                Ok(vp) => r == Ok::<u8, DecodeError>(vp.0),
                Err(e) => r == Err::<u8, DecodeError>(e),
            },
    {
        if self.data.len() - self.pos >= 1 {
            Ok(self.data[self.pos])
        } else {
            Err(DecodeError::UnexpectedEndOfData)
        }
    }
}

} // verus!
