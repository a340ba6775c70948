use vstd::prelude::*;

use crate::errors::ProtoError;
use crate::varint::{
    lemma_read_varint_extend, lemma_varint_len_within_bounds, qp_read_varint32, qp_read_varint64,
    spec_read_varint32, spec_read_varint64, varint_len,
};

verus! {

/// A read position in a byte buffer: the next byte to read is `bytes[start]`,
/// and the message being read ends at `end`.
///
/// These are the two positions that quick_protobuf's `BytesReader` keeps, here
/// as plain values so that contracts can speak of them; the varints themselves
/// are read by quick_protobuf. As there, values are read from the buffer
/// itself, so a value that straddles `end` is still read; `end` only tells
/// when a message is over and bounds the fields that are skipped.
#[derive(Debug, Clone, Copy, PartialEq, Eq, Structural)]
pub struct BytesReader {
    pub start: usize,
    pub end: usize,
}

/// Where the reader stands after a varint read that gave `res`: past the
/// varint on success, ten bytes on when the varint was too long, at the end of
/// the buffer when it ran out.
pub open spec fn after_varint(r: BytesReader, s: Seq<u8>, len: Result<nat, ProtoError>) -> BytesReader {
    match len {
        Ok(n) => BytesReader { start: (r.start + n) as usize, end: r.end },
        Err(ProtoError::Varint) => BytesReader { start: (r.start + 10) as usize, end: r.end },
        Err(_) => BytesReader { start: s.len() as usize, end: r.end },
    }
}

/// Reading a varint32 at the reader's position.
pub open spec fn spec_read_varint32_at(r: BytesReader, s: Seq<u8>) -> (BytesReader, Result<u32, ProtoError>) {
    if r.start >= s.len() {
        (r, Err(ProtoError::UnexpectedEndOfBuffer))
    } else {
        let tail = s.skip(r.start as int);
        (
            after_varint(r, s, varint_len(tail)),
            match spec_read_varint32(tail) {
                Ok((v, _)) => Ok(v),
                Err(e) => Err(e),
            },
        )
    }
}

/// Reading a varint64 at the reader's position.
pub open spec fn spec_read_varint64_at(r: BytesReader, s: Seq<u8>) -> (BytesReader, Result<u64, ProtoError>) {
    if r.start >= s.len() {
        (r, Err(ProtoError::UnexpectedEndOfBuffer))
    } else {
        let tail = s.skip(r.start as int);
        (
            after_varint(r, s, varint_len(tail)),
            match spec_read_varint64(tail) {
                Ok((v, _)) => Ok(v),
                Err(e) => Err(e),
            },
        )
    }
}

/// Skipping `offset` bytes of the current message.
pub open spec fn spec_skip(r: BytesReader, offset: nat) -> (BytesReader, Result<(), ProtoError>) {
    if r.start > r.end {
        (r, Err(ProtoError::PositionOverflow))
    } else if r.end - r.start < offset {
        (r, Err(ProtoError::Varint))
    } else {
        (BytesReader { start: (r.start + offset) as usize, end: r.end }, Ok(()))
    }
}

/// Skipping a field of unknown number whose tag is `tag`, by its wire type
/// (the low three bits of the tag).
pub open spec fn spec_read_unknown(r: BytesReader, s: Seq<u8>, tag: u32) -> (BytesReader, Result<(), ProtoError>) {
    let wire_type = tag % 8;
    if wire_type == 0 {
        let (r1, v) = spec_read_varint64_at(r, s);
        (
            r1,
            match v {
                Ok(_) => Ok(()),
                Err(e) => Err(e),
            },
        )
    } else if wire_type == 1 {
        spec_skip(r, 8)
    } else if wire_type == 5 {
        spec_skip(r, 4)
    } else if wire_type == 2 {
        let (r1, v) = spec_read_varint64_at(r, s);
        match v {
            Err(e) => (r1, Err(e)),
            Ok(x) => if x > usize::MAX {
                (r1, Err(ProtoError::Varint))
            } else {
                spec_skip(r1, x as nat)
            },
        }
    } else if wire_type == 3 || wire_type == 4 {
        (r, Err(ProtoError::Deprecated))
    } else {
        (r, Err(ProtoError::UnknownWireType(wire_type as u8)))
    }
}

/// A successful varint read moves the reader forward, within the buffer.
pub proof fn lemma_read_varint_advances(r: BytesReader, s: Seq<u8>)
    requires
        s.len() <= usize::MAX,
    ensures
        spec_read_varint32_at(r, s).1 is Ok ==> r.start < spec_read_varint32_at(r, s).0.start
            <= s.len(),
        spec_read_varint64_at(r, s).1 is Ok ==> r.start < spec_read_varint64_at(r, s).0.start
            <= s.len(),
        spec_read_varint32_at(r, s).0.end == r.end,
        spec_read_varint64_at(r, s).0.end == r.end,
{
    if r.start < s.len() {
        lemma_varint_len_within_bounds(s.skip(r.start as int), 10);
    }
}

/// Skipping an unknown field never moves the reader back, nor changes its end.
pub proof fn lemma_read_unknown_advances(r: BytesReader, s: Seq<u8>, tag: u32)
    requires
        s.len() <= usize::MAX,
    ensures
        spec_read_unknown(r, s, tag).1 is Ok ==> r.start <= spec_read_unknown(r, s, tag).0.start,
        spec_read_unknown(r, s, tag).0.end == r.end,
{
    lemma_read_varint_advances(r, s);
}

/// The reader `r` moved `k` bytes on, with the end `end`.
pub open spec fn shifted(r: BytesReader, k: nat, end: usize) -> BytesReader {
    BytesReader { start: (r.start + k) as usize, end }
}

/// A varint that reads in full from `s` reads the same from `s` with bytes
/// before it (`w`, shifting the position) and after it (`t`).
pub proof fn lemma_read_varint_shift(r: BytesReader, s: Seq<u8>, w: Seq<u8>, t: Seq<u8>, end: usize)
    requires
        (w + s + t).len() <= usize::MAX,
    ensures
        spec_read_varint32_at(r, s).1 is Ok ==> spec_read_varint32_at(
            shifted(r, w.len(), end),
            w + s + t,
        ) == (shifted(spec_read_varint32_at(r, s).0, w.len(), end), spec_read_varint32_at(
            r,
            s,
        ).1),
        spec_read_varint64_at(r, s).1 is Ok ==> spec_read_varint64_at(
            shifted(r, w.len(), end),
            w + s + t,
        ) == (shifted(spec_read_varint64_at(r, s).0, w.len(), end), spec_read_varint64_at(
            r,
            s,
        ).1),
{
    if r.start < s.len() {
        let tail = s.skip(r.start as int);
        let s2 = w + s + t;
        assert(s2.skip(r.start + w.len()) =~= tail + t);
        if varint_len(tail) is Ok {
            lemma_read_varint_extend(tail, t);
            lemma_varint_len_within_bounds(tail, 10);
        }
    }
}

/// Skipping an unknown field that skips in full within `s` skips the same with
/// bytes before `s` and after it, when the end moves on by as much or more.
pub proof fn lemma_read_unknown_shift(
    r: BytesReader,
    s: Seq<u8>,
    tag: u32,
    w: Seq<u8>,
    t: Seq<u8>,
    end: usize,
)
    requires
        (w + s + t).len() <= usize::MAX,
        r.end + w.len() <= end,
    ensures
        spec_read_unknown(r, s, tag).1 is Ok ==> spec_read_unknown(
            shifted(r, w.len(), end),
            w + s + t,
            tag,
        ) == (shifted(spec_read_unknown(r, s, tag).0, w.len(), end), Ok::<(), ProtoError>(())),
{
    lemma_read_varint_shift(r, s, w, t, end);
    lemma_read_varint_advances(r, s);
}

impl BytesReader {
    /// A reader over the whole of `bytes`.
    pub fn from_bytes(bytes: &[u8]) -> (r: BytesReader)
        ensures
            r == (BytesReader { start: 0, end: bytes@.len() as usize }),
    {
        BytesReader { start: 0, end: bytes.len() }
    }

    /// Whether the reader stands at the end of the current message.
    pub fn is_eof(&self) -> (b: bool)
        ensures
            b == (self.start == self.end),
    {
        self.start == self.end
    }

    /// Reads a varint32 (read as quick_protobuf reads it).
    pub fn read_varint32(&mut self, bytes: &[u8]) -> (res: Result<u32, ProtoError>)
        ensures
            (*final(self), res) == spec_read_varint32_at(*old(self), bytes@),
    {
        if self.start >= bytes.len() {
            return Err(ProtoError::UnexpectedEndOfBuffer);
        }
        proof {
            lemma_varint_len_within_bounds(bytes@.skip(self.start as int), 10);
        }
        match qp_read_varint32(bytes, self.start) {
            Ok((v, left)) => {
                self.start = bytes.len() - left;
                Ok(v)
            },
            Err(ProtoError::Varint) => {
                self.start = self.start + 10;
                Err(ProtoError::Varint)
            },
            Err(e) => {
                self.start = bytes.len();
                Err(e)
            },
        }
    }

    /// Reads a varint64 (read as quick_protobuf reads it).
    pub fn read_varint64(&mut self, bytes: &[u8]) -> (res: Result<u64, ProtoError>)
        ensures
            (*final(self), res) == spec_read_varint64_at(*old(self), bytes@),
    {
        if self.start >= bytes.len() {
            return Err(ProtoError::UnexpectedEndOfBuffer);
        }
        proof {
            lemma_varint_len_within_bounds(bytes@.skip(self.start as int), 10);
        }
        match qp_read_varint64(bytes, self.start) {
            Ok((v, left)) => {
                self.start = bytes.len() - left;
                Ok(v)
            },
            Err(ProtoError::Varint) => {
                self.start = self.start + 10;
                Err(ProtoError::Varint)
            },
            Err(e) => {
                self.start = bytes.len();
                Err(e)
            },
        }
    }

    /// Reads the next field tag.
    pub fn next_tag(&mut self, bytes: &[u8]) -> (res: Result<u32, ProtoError>)
        ensures
            (*final(self), res) == spec_read_varint32_at(*old(self), bytes@),
    {
        self.read_varint32(bytes)
    }

    /// Reads a `uint64` field value.
    pub fn read_uint64(&mut self, bytes: &[u8]) -> (res: Result<u64, ProtoError>)
        ensures
            (*final(self), res) == spec_read_varint64_at(*old(self), bytes@),
    {
        self.read_varint64(bytes)
    }

    /// Skips `offset` bytes of the current message.
    fn skip(&mut self, offset: usize) -> (res: Result<(), ProtoError>)
        ensures
            (*final(self), res) == spec_skip(*old(self), offset as nat),
    {
        if self.start > self.end {
            return Err(ProtoError::PositionOverflow);
        }
        if self.end - self.start < offset {
            Err(ProtoError::Varint)
        } else {
            self.start = self.start + offset;
            Ok(())
        }
    }

    /// Skips a field of a number this message does not know, by the wire type in its tag.
    pub fn read_unknown(&mut self, bytes: &[u8], tag_value: u32) -> (res: Result<(), ProtoError>)
        ensures
            (*final(self), res) == spec_read_unknown(*old(self), bytes@, tag_value),
    {
        let wire_type: u32 = tag_value & 0x7;
        assert(wire_type == tag_value % 8) by (bit_vector)
            requires
                wire_type == tag_value & 0x7,
        ;
        if wire_type == 0 {
            match self.read_varint64(bytes) {
                Ok(_) => Ok(()),
                Err(e) => Err(e),
            }
        } else if wire_type == 1 {
            self.skip(8)
        } else if wire_type == 5 {
            self.skip(4)
        } else if wire_type == 2 {
            match self.read_varint64(bytes) {
                Err(e) => Err(e),
                Ok(x) => {
                    if x > usize::MAX as u64 {
                        Err(ProtoError::Varint)
                    } else {
                        self.skip(x as usize)
                    }
                },
            }
        } else if wire_type == 3 || wire_type == 4 {
            Err(ProtoError::Deprecated)
        } else {
            Err(ProtoError::UnknownWireType(wire_type as u8))
        }
    }
}

} // verus!
