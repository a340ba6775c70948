pub mod embedding;
pub mod message;
pub mod roundtrip;
pub mod util;
