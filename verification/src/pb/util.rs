use vstd::prelude::*;

use crate::buffer::written;
use crate::codec::{MessageRead, MessageWrite};
use crate::errors::ProtoError;
use crate::reader::BytesReader;

verus! {

/// What decoding the whole of `buf` as a `T` gives.
pub open spec fn spec_decode<T: MessageRead>(buf: Seq<u8>) -> Result<T, ProtoError> {
    T::spec_from_reader(BytesReader { start: 0, end: buf.len() as usize }, buf).1
}

/// Decodes the whole of `buf` as the fields of a `T` (no length prefix).
pub fn decode_msg<T: MessageRead>(buf: &[u8]) -> (res: Result<T, ProtoError>)
    ensures
        res == spec_decode::<T>(buf@),
{
    let mut reader = BytesReader::from_bytes(buf);
    T::from_reader(&mut reader, buf)
}

/// Encodes `msg` (no length prefix) at the start of `buf`. Succeeds exactly
/// when the encoding fits; otherwise the buffer is filled with as much of the
/// encoding as fits.
pub fn encode_msg<T: MessageWrite>(msg: &T, buf: &mut [u8]) -> (res: Result<(), ProtoError>)
    ensures
        final(buf)@ == written(old(buf)@, 0, msg.spec_encoding()),
        res is Ok <==> msg.spec_encoding().len() <= old(buf)@.len(),
        res matches Err(e) ==> e == ProtoError::Io,
{
    match msg.write_message(buf, 0) {
        Ok(_) => Ok(()),
        Err(e) => Err(e),
    }
}

} // verus!
