//! A forward-only reader over a byte buffer, and what each of its reads
//! gives on a sequence of bytes.

use vstd::prelude::*;
use vstd::slice::slice_subrange;
use vstd::slice::slice_to_vec;
use crate::error::DecodeError;
use crate::error::truncated_at;
use crate::error::step_outcome;
use crate::error::viewed_outcome;

verus! {

/// `n` bytes can be read from `s` at `pos`.
pub open spec fn available(s: Seq<u8>, pos: int, n: int) -> bool {
    0 <= pos && 0 <= n && pos + n <= s.len()
}

/// The big-endian 16-bit integer at `pos`.
pub open spec fn be_u16(s: Seq<u8>, pos: int) -> u16 {
    (s[pos] as int * 256 + s[pos + 1] as int) as u16
}

/// The big-endian 32-bit integer at `pos`.
pub open spec fn be_u32(s: Seq<u8>, pos: int) -> u32 {
    (s[pos] as int * 16777216 + s[pos + 1] as int * 65536 + s[pos + 2] as int * 256
        + s[pos + 3] as int) as u32
}

/// Reading one byte at `pos`.
pub open spec fn u8_at(s: Seq<u8>, pos: int) -> Result<(u8, int), DecodeError> {
    if available(s, pos, 1) {
        Ok((s[pos], pos + 1))
    } else {
        Err(truncated_at(pos))
    }
}

/// Reading a big-endian 16-bit integer at `pos`.
pub open spec fn u16_at(s: Seq<u8>, pos: int) -> Result<(u16, int), DecodeError> {
    if available(s, pos, 2) {
        Ok((be_u16(s, pos), pos + 2))
    } else {
        Err(truncated_at(pos))
    }
}

/// Reading a big-endian 32-bit integer at `pos`.
pub open spec fn u32_at(s: Seq<u8>, pos: int) -> Result<(u32, int), DecodeError> {
    if available(s, pos, 4) {
        Ok((be_u32(s, pos), pos + 4))
    } else {
        Err(truncated_at(pos))
    }
}

/// Reading `n` raw bytes at `pos`.
pub open spec fn bytes_at(s: Seq<u8>, pos: int, n: int) -> Result<(Seq<u8>, int), DecodeError> {
    if available(s, pos, n) {
        Ok((s.subrange(pos, pos + n), pos + n))
    } else {
        Err(truncated_at(pos))
    }
}

/// Passing over `n` bytes at `pos`.
pub open spec fn skip_at(s: Seq<u8>, pos: int, n: int) -> Result<((), int), DecodeError> {
    if available(s, pos, n) {
        Ok(((), pos + n))
    } else {
        Err(truncated_at(pos))
    }
}

/// What a cursor is: the buffer it reads and how far it has come.
pub struct CursorView {
    pub bytes: Seq<u8>,
    pub pos: int,
}

/// A forward-only reader over a byte buffer.
pub struct Cursor<'a> {
    data: &'a [u8],
    pos: usize,
}

impl<'a> View for Cursor<'a> {
    type V = CursorView;

    closed spec fn view(&self) -> CursorView {
        CursorView { bytes: self.data@, pos: self.pos as int }
    }
}

impl<'a> Cursor<'a> {
    /// The position lies within the buffer.
    pub open spec fn wf(&self) -> bool {
        0 <= self@.pos <= self@.bytes.len()
    }

    /// A cursor at the start of `data`.
    pub fn new(data: &'a [u8]) -> (c: Cursor<'a>)
        ensures
            c.wf(),
            c@.bytes == data@,
            c@.pos == 0,
    {
        Cursor { data, pos: 0 }
    }

    /// The number of bytes consumed so far.
    pub fn position(&self) -> (p: usize)
        ensures
            p == self@.pos,
    {
        self.pos
    }

    /// The number of bytes not yet consumed.
    pub fn remaining(&self) -> (n: usize)
        requires
            self.wf(),
        ensures
            n == self@.bytes.len() - self@.pos,
    {
        self.data.len() - self.pos
    }

    /// Reads one byte.
    pub fn read_u8(&mut self) -> (r: Result<u8, DecodeError>)
        requires
            old(self).wf(),
        ensures
            final(self).wf(),
            final(self)@.bytes == old(self)@.bytes,
            step_outcome(r, final(self)@.pos, u8_at(old(self)@.bytes, old(self)@.pos)),
    {
        if self.data.len() - self.pos < 1 {
            return Err(DecodeError::Truncated { offset: self.pos });
        }
        let v: u8 = self.data[self.pos];
        self.pos = self.pos + 1;
        Ok(v)
    }

    /// Reads a big-endian 16-bit integer.
    pub fn read_u16_be(&mut self) -> (r: Result<u16, DecodeError>)
        requires
            old(self).wf(),
        ensures
            final(self).wf(),
            final(self)@.bytes == old(self)@.bytes,
            step_outcome(r, final(self)@.pos, u16_at(old(self)@.bytes, old(self)@.pos)),
    {
        if self.data.len() - self.pos < 2 {
            return Err(DecodeError::Truncated { offset: self.pos });
        }
        let hi: u16 = self.data[self.pos] as u16;
        let lo: u16 = self.data[self.pos + 1] as u16;
        self.pos = self.pos + 2;
        Ok(hi * 256 + lo)
    }

    /// Reads a big-endian 32-bit integer.
    pub fn read_u32_be(&mut self) -> (r: Result<u32, DecodeError>)
        requires
            old(self).wf(),
        ensures
            final(self).wf(),
            final(self)@.bytes == old(self)@.bytes,
            step_outcome(r, final(self)@.pos, u32_at(old(self)@.bytes, old(self)@.pos)),
    {
        if self.data.len() - self.pos < 4 {
            return Err(DecodeError::Truncated { offset: self.pos });
        }
        let b0: u32 = self.data[self.pos] as u32;
        let b1: u32 = self.data[self.pos + 1] as u32;
        let b2: u32 = self.data[self.pos + 2] as u32;
        let b3: u32 = self.data[self.pos + 3] as u32;
        self.pos = self.pos + 4;
        Ok(b0 * 16777216 + b1 * 65536 + b2 * 256 + b3)
    }

    /// Reads `n` raw bytes.
    pub fn read_fixed_bytes(&mut self, n: usize) -> (r: Result<Vec<u8>, DecodeError>)
        requires
            old(self).wf(),
        ensures
            final(self).wf(),
            final(self)@.bytes == old(self)@.bytes,
            viewed_outcome(
                r,
                final(self)@.pos,
                bytes_at(old(self)@.bytes, old(self)@.pos, n as int),
            ),
    {
        if self.data.len() - self.pos < n {
            return Err(DecodeError::Truncated { offset: self.pos });
        }
        let v = slice_to_vec(slice_subrange(self.data, self.pos, self.pos + n));
        self.pos = self.pos + n;
        Ok(v)
    }

    /// Passes over `n` bytes.
    pub fn skip(&mut self, n: usize) -> (r: Result<(), DecodeError>)
        requires
            old(self).wf(),
        ensures
            final(self).wf(),
            final(self)@.bytes == old(self)@.bytes,
            step_outcome(r, final(self)@.pos, skip_at(old(self)@.bytes, old(self)@.pos, n as int)),
    {
        if self.data.len() - self.pos < n {
            return Err(DecodeError::Truncated { offset: self.pos });
        }
        self.pos = self.pos + n;
        Ok(())
    }

    /// Succeeds when every byte of the buffer has been consumed.
    pub fn assert_exhausted(&self) -> (r: Result<(), DecodeError>)
        requires
            self.wf(),
        ensures
            self@.pos == self@.bytes.len() ==> r == Ok::<(), DecodeError>(()),
            self@.pos < self@.bytes.len() ==> r == Err::<(), DecodeError>(
                DecodeError::TrailingData { remaining: (self@.bytes.len() - self@.pos) as usize },
            ),
    {
        if self.pos < self.data.len() {
            Err(DecodeError::TrailingData { remaining: self.data.len() - self.pos })
        } else {
            Ok(())
        }
    }
}

} // verus!
