//! Protobuf messages of a ping/pong latency probe, with their wire encoding
//! and decoding proved against a model of the protobuf wire format.
pub mod buffer;
pub mod codec;
pub mod errors;
pub mod pb;
pub mod probe;
pub mod reader;
pub mod util;
pub mod varint;
