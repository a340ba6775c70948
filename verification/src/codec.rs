use vstd::prelude::*;

use crate::buffer::{fits, lemma_written_concat, lemma_written_len, written};
use crate::errors::ProtoError;
use crate::reader::{BytesReader, spec_read_varint32_at};
use crate::varint::{qp_write_varint, varint_bytes};

verus! {

/// A message that can be read from protobuf bytes.
pub trait MessageRead: Sized {
    /// What reading the message's fields with the reader `r` over `bytes`
    /// gives: where the reader ends up, and the message or the failure.
    spec fn spec_from_reader(r: BytesReader, bytes: Seq<u8>) -> (BytesReader, Result<Self, ProtoError>);

    /// Reads the message's fields from `r.start` up to `r.end`, with no length
    /// prefix before them.
    fn from_reader(r: &mut BytesReader, bytes: &[u8]) -> (res: Result<Self, ProtoError>)
        ensures
            (*final(r), res) == Self::spec_from_reader(*old(r), bytes@),
    ;
}

/// A message that can be written as protobuf bytes.
pub trait MessageWrite {
    /// The protobuf encoding of the message's fields, without length prefix.
    spec fn spec_encoding(&self) -> Seq<u8>;

    /// The number of bytes of the encoding.
    fn get_size(&self) -> (n: usize)
        ensures
            n == self.spec_encoding().len(),
    ;

    /// Writes the encoding into `buf` from `pos` on, as far as it fits.
    /// Succeeds, with the position after the encoding, exactly when it fits.
    fn write_message(&self, buf: &mut [u8], pos: usize) -> (res: Result<usize, ProtoError>)
        requires
            pos <= old(buf)@.len(),
        ensures
            final(buf)@ == written(old(buf)@, pos as int, self.spec_encoding()),
            res is Ok <==> fits(
                old(buf)@.len() as int,
                pos as int,
                self.spec_encoding().len() as int,
            ),
            res matches Ok(p) ==> p == pos + self.spec_encoding().len(),
            res matches Err(e) ==> e == ProtoError::Io,
    ;
}

/// Reading a length-prefixed nested message: the length as a varint32, then
/// the message's fields up to that length, after which the reader continues
/// in the enclosing message.
pub open spec fn spec_read_message<M: MessageRead>(r: BytesReader, s: Seq<u8>) -> (BytesReader, Result<M, ProtoError>) {
    let (r1, len) = spec_read_varint32_at(r, s);
    match len {
        Err(e) => (r1, Err(e)),
        Ok(l) => if r1.start + l > usize::MAX {
            (r1, Err(ProtoError::PositionOverflow))
        } else {
            let (r2, m) = M::spec_from_reader(
                BytesReader { start: r1.start, end: (r1.start + l) as usize },
                s,
            );
            match m {
                Err(e) => (r2, Err(e)),
                Ok(x) => (BytesReader { start: r2.end, end: r1.end }, Ok(x)),
            }
        },
    }
}

impl BytesReader {
    /// Reads a length-prefixed nested message.
    pub fn read_message<M: MessageRead>(&mut self, bytes: &[u8]) -> (res: Result<M, ProtoError>)
        ensures
            (*final(self), res) == spec_read_message::<M>(*old(self), bytes@),
    {
        let len = self.read_varint32(bytes)?;
        let cur_end = self.end;
        match self.start.checked_add(len as usize) {
            None => {
                return Err(ProtoError::PositionOverflow);
            },
            Some(nested_end) => {
                self.end = nested_end;
            },
        }
        let v = M::from_reader(self, bytes)?;
        self.start = self.end;
        self.end = cur_end;
        Ok(v)
    }
}

/// The encoding of a length-prefixed nested message.
pub open spec fn nested_encoding(inner: Seq<u8>) -> Seq<u8> {
    varint_bytes(inner.len()) + inner
}

/// Writes `v` as a varint into `buf` from `pos` on; on success returns the
/// position after it.
pub fn write_varint_at(buf: &mut [u8], pos: usize, v: u64) -> (res: Result<usize, ProtoError>)
    requires
        pos <= old(buf)@.len(),
    ensures
        final(buf)@ == written(old(buf)@, pos as int, varint_bytes(v as nat)),
        res is Ok <==> fits(
            old(buf)@.len() as int,
            pos as int,
            varint_bytes(v as nat).len() as int,
        ),
        res matches Ok(p) ==> p == pos + varint_bytes(v as nat).len(),
        res matches Err(e) ==> e == ProtoError::Io,
{
    proof {
        lemma_written_len(old(buf)@, pos as int, varint_bytes(v as nat));
    }
    let left = qp_write_varint(buf, pos, v)?;
    Ok(buf.len() - left)
}

/// Writes `m` as a length-prefixed nested message into `buf` from `pos` on.
pub fn write_message_at<M: MessageWrite>(buf: &mut [u8], pos: usize, m: &M) -> (res: Result<usize, ProtoError>)
    requires
        pos <= old(buf)@.len(),
    ensures
        final(buf)@ == written(old(buf)@, pos as int, nested_encoding(m.spec_encoding())),
        res is Ok <==> fits(
            old(buf)@.len() as int,
            pos as int,
            nested_encoding(m.spec_encoding()).len() as int,
        ),
        res matches Ok(p) ==> p == pos + nested_encoding(m.spec_encoding()).len(),
        res matches Err(e) ==> e == ProtoError::Io,
{
    let ghost b0 = buf@;
    let len = m.get_size();
    let ghost prefix = varint_bytes(len as nat);
    proof {
        lemma_written_concat(b0, pos as int, prefix, m.spec_encoding());
        lemma_written_len(b0, pos as int, prefix);
    }
    let p = write_varint_at(buf, pos, len as u64)?;
    m.write_message(buf, p)
}

} // verus!
