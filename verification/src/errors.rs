use vstd::prelude::*;

verus! {

/// Failures of protobuf decoding and encoding.
///
/// The variants follow those of `quick_protobuf::Error` that the code here can
/// meet; `PositionOverflow` marks the inputs on which quick_protobuf's reader
/// position arithmetic overflows.
#[derive(Debug, Clone, Copy, PartialEq, Eq, Structural)]
pub enum ProtoError {
    /// The output buffer filled up while writing.
    Io,
    /// A field used the deprecated group wire types (3 or 4).
    Deprecated,
    /// A field used a wire type above 5.
    UnknownWireType(u8),
    /// A varint ran over ten bytes, or a skipped field ran past its message.
    Varint,
    /// The input ended in the middle of a value.
    UnexpectedEndOfBuffer,
    /// The read position ran past the end of the enclosing message, where
    /// quick_protobuf computes `end - start` and overflows.
    PositionOverflow,
}

} // verus!
