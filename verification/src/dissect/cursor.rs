//! Bounds-checked reader over a packet slice. Every read returns the absolute
//! byte range it consumed so nodes can be built without offset arithmetic.
//! Lengths from the packet are treated as adversarial.

use std::ops::Range;

use vstd::prelude::*;

use crate::bytes;
use crate::bytes::{be16, be24, be32, be64, le16, le32};
use crate::text;

verus! {

/// Index of the byte buffer a node's range refers to. Zero is always the
/// captured frame; reassembly adds further sources.
pub type SourceId = u8;

/// Why a layer could not be read.
#[derive(Debug, Clone, Copy, PartialEq, Eq)]
pub enum DissectError {
    /// Needed `need` bytes at absolute offset `at`; only `have` remained.
    Truncated { at: usize, need: usize, have: usize },
    /// A length or value field is impossible (for example IHL < 5).
    Invalid { at: usize, what: &'static str },
}

impl DissectError {
    /// The message shown for an error.
    pub open spec fn message(self) -> Seq<char> {
        match self {
            DissectError::Truncated { at, need, have } => "truncated at offset "@ + text::dec(
                at as int,
            ) + ": need "@ + text::dec(need as int) + " bytes, "@ + text::dec(have as int)
                + " left"@,
            DissectError::Invalid { at, what } => "invalid "@ + what@ + " at offset "@ + text::dec(
                at as int,
            ),
        }
    }

    /// The message shown for this error.
    pub fn text(&self) -> (r: String)
        ensures
            r@ == self.message(),
    {
        match *self {
            DissectError::Truncated { at, need, have } => {
                let mut out: String = text::cat_dec("truncated at offset ", at as u64, ": need ");
                text::push_dec(&mut out, need as u64);
                out.push_str(" bytes, ");
                text::push_dec(&mut out, have as u64);
                out.push_str(" left");
                out
            },
            DissectError::Invalid { at, what } => {
                let mut out: String = text::cat("invalid ", what);
                out.push_str(" at offset ");
                text::push_dec(&mut out, at as u64);
                out
            },
        }
    }
}

/// A read position within `data`, whose first byte sits at absolute offset
/// `base` within the data source.
#[derive(Debug, Clone, Copy)]
pub struct Cursor<'a> {
    data: &'a [u8],
    pos: usize,
    base: usize,
    source: SourceId,
}

/// What a cursor stands for.
#[verifier::ext_equal]
pub struct CursorView {
    pub data: Seq<u8>,
    pub pos: int,
    pub base: int,
    pub source: SourceId,
}

impl CursorView {
    /// `n` more bytes remain.
    pub open spec fn has(self, n: int) -> bool {
        self.pos + n <= self.data.len()
    }

    /// Bytes not yet consumed.
    pub open spec fn left(self) -> int {
        self.data.len() - self.pos
    }

    /// Absolute offset of the next unread byte.
    pub open spec fn abs(self) -> int {
        self.base + self.pos
    }

    /// The same cursor `n` bytes further on.
    pub open spec fn advance(self, n: int) -> CursorView {
        CursorView { pos: self.pos + n, ..self }
    }

    /// The error for asking `n` bytes where fewer remain.
    pub open spec fn short(self, n: int) -> DissectError {
        DissectError::Truncated {
            at: self.abs() as usize,
            need: n as usize,
            have: self.left() as usize,
        }
    }

    /// A cursor over the next `n` bytes.
    pub open spec fn sub(self, n: int) -> CursorView {
        CursorView {
            data: self.data.subrange(self.pos, self.pos + n),
            pos: 0,
            base: self.abs(),
            source: self.source,
        }
    }

    /// The end of the next `n` bytes is an offset the machine can hold.
    pub open spec fn room(self, n: int) -> bool {
        self.has(n) ==> self.abs() + n <= usize::MAX
    }

    /// Every offset up to the end of the data is one the machine can hold.
    pub open spec fn fits(self) -> bool {
        &&& 0 <= self.pos <= self.data.len()
        &&& 0 <= self.base
        &&& self.base + self.data.len() <= usize::MAX
    }
}

/// The range `start..end`.
pub open spec fn spans(r: Range<usize>, start: int, end: int) -> bool {
    r.start == start && r.end == end
}

impl<'a> View for Cursor<'a> {
    type V = CursorView;

    closed spec fn view(&self) -> CursorView {
        CursorView {
            data: self.data@,
            pos: self.pos as int,
            base: self.base as int,
            source: self.source,
        }
    }
}

impl<'a> Cursor<'a> {
    /// The position is inside the data and has an absolute offset.
    pub open spec fn wf(&self) -> bool {
        &&& 0 <= self@.pos <= self@.data.len()
        &&& 0 <= self@.base
        &&& self@.abs() <= usize::MAX
        &&& self@.data.len() <= usize::MAX
    }

    pub fn new(data: &'a [u8], base: usize, source: SourceId) -> (r: Cursor<'a>)
        ensures
            r.wf(),
            r@ == (CursorView { data: data@, pos: 0, base: base as int, source }),
    {
        assert(data.len() == data@.len());
        Cursor { data, pos: 0, base, source }
    }

    pub fn source(&self) -> (r: SourceId)
        ensures
            r == self@.source,
    {
        self.source
    }

    /// Absolute offset of the next unread byte.
    pub fn abs(&self) -> (r: usize)
        requires
            self.wf(),
        ensures
            r == self@.abs(),
    {
        self.base + self.pos
    }

    /// Relative position within the slice this cursor was created over.
    pub fn pos(&self) -> (r: usize)
        ensures
            r == self@.pos,
    {
        self.pos
    }

    /// Bytes not yet consumed.
    pub fn remaining(&self) -> (r: usize)
        requires
            self.wf(),
        ensures
            r == self@.left(),
    {
        self.data.len() - self.pos
    }

    pub fn is_empty(&self) -> (r: bool)
        requires
            self.wf(),
        ensures
            r == (self@.left() == 0),
    {
        self.remaining() == 0
    }

    /// Everything not yet consumed.
    pub fn rest(&self) -> (r: &'a [u8])
        requires
            self.wf(),
        ensures
            r@ == self@.data.subrange(self@.pos, self@.data.len() as int),
    {
        vstd::slice::slice_subrange(self.data, self.pos, self.data.len())
    }

    /// Absolute range from `start_abs` to the current position.
    pub fn since(&self, start_abs: usize) -> (r: Range<usize>)
        requires
            self.wf(),
        ensures
            spans(
                r,
                start_abs as int,
                if self@.abs() > start_abs {
                    self@.abs()
                } else {
                    start_abs as int
                },
            ),
    {
        let end: usize = self.abs();
        start_abs..(if end > start_abs {
            end
        } else {
            start_abs
        })
    }

    /// Absolute range covering everything not yet consumed.
    pub fn rest_range(&self) -> (r: Range<usize>)
        requires
            self.wf(),
            self@.fits(),
        ensures
            spans(r, self@.abs(), self@.base + self@.data.len()),
    {
        self.abs()..self.abs() + self.remaining()
    }

    /// The next `n` bytes, without consuming them.
    pub fn peek(&self, n: usize) -> (r: Result<&'a [u8], DissectError>)
        requires
            self.wf(),
        ensures
            match r {
                Ok(s) => self@.has(n as int) && s@ == self@.data.subrange(
                    self@.pos,
                    self@.pos + n,
                ),
                Err(e) => !self@.has(n as int) && e == self@.short(n as int),
            },
    {
        if n <= self.remaining() {
            Ok(vstd::slice::slice_subrange(self.data, self.pos, self.pos + n))
        } else {
            Err(DissectError::Truncated { at: self.abs(), need: n, have: self.remaining() })
        }
    }

    /// Consume `n` bytes. A failed read consumes nothing.
    pub fn take(&mut self, n: usize) -> (r: Result<(&'a [u8], Range<usize>), DissectError>)
        requires
            old(self).wf(),
            old(self)@.room(n as int),
        ensures
            final(self).wf(),
            match r {
                Ok((s, range)) => {
                    &&& old(self)@.has(n as int)
                    &&& s@ == old(self)@.data.subrange(old(self)@.pos, old(self)@.pos + n)
                    &&& spans(range, old(self)@.abs(), old(self)@.abs() + n)
                    &&& final(self)@ == old(self)@.advance(n as int)
                },
                Err(e) => {
                    &&& !old(self)@.has(n as int)
                    &&& e == old(self)@.short(n as int)
                    &&& final(self)@ == old(self)@
                },
            },
    {
        let slice = self.peek(n)?;
        let start: usize = self.abs();
        let range = start..start + n;
        self.pos = self.pos + n;
        assert(self@ == old(self)@.advance(n as int));
        Ok((slice, range))
    }

    /// Consume `n` bytes without looking at them.
    pub fn skip(&mut self, n: usize) -> (r: Result<Range<usize>, DissectError>)
        requires
            old(self).wf(),
            old(self)@.room(n as int),
        ensures
            final(self).wf(),
            match r {
                Ok(range) => {
                    &&& old(self)@.has(n as int)
                    &&& spans(range, old(self)@.abs(), old(self)@.abs() + n)
                    &&& final(self)@ == old(self)@.advance(n as int)
                },
                Err(e) => {
                    &&& !old(self)@.has(n as int)
                    &&& e == old(self)@.short(n as int)
                    &&& final(self)@ == old(self)@
                },
            },
    {
        let (_, r) = self.take(n)?;
        Ok(r)
    }

    pub fn u8(&mut self) -> (r: Result<(u8, Range<usize>), DissectError>)
        requires
            old(self).wf(),
            old(self)@.room(1),
        ensures
            final(self).wf(),
            match r {
                Ok((v, range)) => {
                    &&& old(self)@.has(1)
                    &&& v == old(self)@.data[old(self)@.pos]
                    &&& spans(range, old(self)@.abs(), old(self)@.abs() + 1)
                    &&& final(self)@ == old(self)@.advance(1)
                },
                Err(e) => {
                    &&& !old(self)@.has(1)
                    &&& e == old(self)@.short(1)
                    &&& final(self)@ == old(self)@
                },
            },
    {
        let (b, r) = self.take(1)?;
        Ok((b[0], r))
    }

    pub fn u16(&mut self) -> (r: Result<(u16, Range<usize>), DissectError>)
        requires
            old(self).wf(),
            old(self)@.room(2),
        ensures
            final(self).wf(),
            match r {
                Ok((v, range)) => {
                    &&& old(self)@.has(2)
                    &&& v == be16(old(self)@.data, old(self)@.pos)
                    &&& spans(range, old(self)@.abs(), old(self)@.abs() + 2)
                    &&& final(self)@ == old(self)@.advance(2)
                },
                Err(e) => {
                    &&& !old(self)@.has(2)
                    &&& e == old(self)@.short(2)
                    &&& final(self)@ == old(self)@
                },
            },
    {
        let (b, r) = self.take(2)?;
        Ok((bytes::get_be16(b, 0), r))
    }

    pub fn u32(&mut self) -> (r: Result<(u32, Range<usize>), DissectError>)
        requires
            old(self).wf(),
            old(self)@.room(4),
        ensures
            final(self).wf(),
            match r {
                Ok((v, range)) => {
                    &&& old(self)@.has(4)
                    &&& v == be32(old(self)@.data, old(self)@.pos)
                    &&& spans(range, old(self)@.abs(), old(self)@.abs() + 4)
                    &&& final(self)@ == old(self)@.advance(4)
                },
                Err(e) => {
                    &&& !old(self)@.has(4)
                    &&& e == old(self)@.short(4)
                    &&& final(self)@ == old(self)@
                },
            },
    {
        let (b, r) = self.take(4)?;
        Ok((bytes::get_be32(b, 0), r))
    }

    pub fn u64(&mut self) -> (r: Result<(u64, Range<usize>), DissectError>)
        requires
            old(self).wf(),
            old(self)@.room(8),
        ensures
            final(self).wf(),
            match r {
                Ok((v, range)) => {
                    &&& old(self)@.has(8)
                    &&& v == be64(old(self)@.data, old(self)@.pos)
                    &&& spans(range, old(self)@.abs(), old(self)@.abs() + 8)
                    &&& final(self)@ == old(self)@.advance(8)
                },
                Err(e) => {
                    &&& !old(self)@.has(8)
                    &&& e == old(self)@.short(8)
                    &&& final(self)@ == old(self)@
                },
            },
    {
        let (b, r) = self.take(8)?;
        Ok((bytes::get_be64(b, 0), r))
    }

    pub fn u16_le(&mut self) -> (r: Result<(u16, Range<usize>), DissectError>)
        requires
            old(self).wf(),
            old(self)@.room(2),
        ensures
            final(self).wf(),
            match r {
                Ok((v, range)) => {
                    &&& old(self)@.has(2)
                    &&& v == le16(old(self)@.data, old(self)@.pos)
                    &&& spans(range, old(self)@.abs(), old(self)@.abs() + 2)
                    &&& final(self)@ == old(self)@.advance(2)
                },
                Err(e) => {
                    &&& !old(self)@.has(2)
                    &&& e == old(self)@.short(2)
                    &&& final(self)@ == old(self)@
                },
            },
    {
        let (b, r) = self.take(2)?;
        Ok((bytes::get_le16(b, 0), r))
    }

    pub fn u32_le(&mut self) -> (r: Result<(u32, Range<usize>), DissectError>)
        requires
            old(self).wf(),
            old(self)@.room(4),
        ensures
            final(self).wf(),
            match r {
                Ok((v, range)) => {
                    &&& old(self)@.has(4)
                    &&& v == le32(old(self)@.data, old(self)@.pos)
                    &&& spans(range, old(self)@.abs(), old(self)@.abs() + 4)
                    &&& final(self)@ == old(self)@.advance(4)
                },
                Err(e) => {
                    &&& !old(self)@.has(4)
                    &&& e == old(self)@.short(4)
                    &&& final(self)@ == old(self)@
                },
            },
    {
        let (b, r) = self.take(4)?;
        Ok((bytes::get_le32(b, 0), r))
    }

    /// 24-bit big-endian.
    pub fn u24(&mut self) -> (r: Result<(u32, Range<usize>), DissectError>)
        requires
            old(self).wf(),
            old(self)@.room(3),
        ensures
            final(self).wf(),
            match r {
                Ok((v, range)) => {
                    &&& old(self)@.has(3)
                    &&& v == be24(old(self)@.data, old(self)@.pos)
                    &&& v < 0x100_0000
                    &&& spans(range, old(self)@.abs(), old(self)@.abs() + 3)
                    &&& final(self)@ == old(self)@.advance(3)
                },
                Err(e) => {
                    &&& !old(self)@.has(3)
                    &&& e == old(self)@.short(3)
                    &&& final(self)@ == old(self)@
                },
            },
    {
        let (b, r) = self.take(3)?;
        Ok((bytes::get_be24(b, 0), r))
    }

    pub fn mac(&mut self) -> (r: Result<([u8; 6], Range<usize>), DissectError>)
        requires
            old(self).wf(),
            old(self)@.room(6),
        ensures
            final(self).wf(),
            match r {
                Ok((v, range)) => {
                    &&& old(self)@.has(6)
                    &&& v@ == old(self)@.data.subrange(old(self)@.pos, old(self)@.pos + 6)
                    &&& spans(range, old(self)@.abs(), old(self)@.abs() + 6)
                    &&& final(self)@ == old(self)@.advance(6)
                },
                Err(e) => {
                    &&& !old(self)@.has(6)
                    &&& e == old(self)@.short(6)
                    &&& final(self)@ == old(self)@
                },
            },
    {
        let (b, r) = self.take(6)?;
        let a: [u8; 6] = [b[0], b[1], b[2], b[3], b[4], b[5]];
        assert(a@ =~= b@);
        Ok((a, r))
    }

    pub fn ipv4(&mut self) -> (r: Result<([u8; 4], Range<usize>), DissectError>)
        requires
            old(self).wf(),
            old(self)@.room(4),
        ensures
            final(self).wf(),
            match r {
                Ok((v, range)) => {
                    &&& old(self)@.has(4)
                    &&& v@ == old(self)@.data.subrange(old(self)@.pos, old(self)@.pos + 4)
                    &&& spans(range, old(self)@.abs(), old(self)@.abs() + 4)
                    &&& final(self)@ == old(self)@.advance(4)
                },
                Err(e) => {
                    &&& !old(self)@.has(4)
                    &&& e == old(self)@.short(4)
                    &&& final(self)@ == old(self)@
                },
            },
    {
        let (b, r) = self.take(4)?;
        let a: [u8; 4] = [b[0], b[1], b[2], b[3]];
        assert(a@ =~= b@);
        Ok((a, r))
    }

    pub fn ipv6(&mut self) -> (r: Result<([u8; 16], Range<usize>), DissectError>)
        requires
            old(self).wf(),
            old(self)@.room(16),
        ensures
            final(self).wf(),
            match r {
                Ok((v, range)) => {
                    &&& old(self)@.has(16)
                    &&& v@ == old(self)@.data.subrange(old(self)@.pos, old(self)@.pos + 16)
                    &&& spans(range, old(self)@.abs(), old(self)@.abs() + 16)
                    &&& final(self)@ == old(self)@.advance(16)
                },
                Err(e) => {
                    &&& !old(self)@.has(16)
                    &&& e == old(self)@.short(16)
                    &&& final(self)@ == old(self)@
                },
            },
    {
        let (b, r) = self.take(16)?;
        let a: [u8; 16] = [
            b[0], b[1], b[2], b[3], b[4], b[5], b[6], b[7], b[8], b[9], b[10], b[11], b[12], b[13],
            b[14], b[15],
        ];
        assert(a@ =~= b@);
        Ok((a, r))
    }

    /// A sub-cursor over the next `n` bytes, consumed from this one.
    pub fn sub(&mut self, n: usize) -> (r: Result<Cursor<'a>, DissectError>)
        requires
            old(self).wf(),
            old(self)@.room(n as int),
        ensures
            final(self).wf(),
            match r {
                Ok(c) => {
                    &&& old(self)@.has(n as int)
                    &&& c.wf()
                    &&& c@ == old(self)@.sub(n as int)
                    &&& final(self)@ == old(self)@.advance(n as int)
                },
                Err(e) => {
                    &&& !old(self)@.has(n as int)
                    &&& e == old(self)@.short(n as int)
                    &&& final(self)@ == old(self)@
                },
            },
    {
        let base: usize = self.abs();
        let source: SourceId = self.source;
        let (slice, _) = self.take(n)?;
        Ok(Cursor { data: slice, pos: 0, base, source })
    }

    /// The error for an impossible value at the current position.
    pub fn invalid(&self, what: &'static str) -> (r: DissectError)
        requires
            self.wf(),
        ensures
            r == (DissectError::Invalid { at: self@.abs() as usize, what }),
    {
        DissectError::Invalid { at: self.abs(), what }
    }
}

} // verus!
