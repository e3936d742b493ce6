//! A reversible obfuscation codec: bytes are written out as hexadecimal
//! digits and interleaved with random hexadecimal noise digits.
//!
//! This is not encryption. The transform hides the length and the character
//! distribution of its input and nothing else.
//!
//! [`encode`] turns bytes and a key into a stream, [`decode`] turns a stream
//! back into the bytes. The key says how many noise digits follow every digit
//! that carries data, and travels in the stream itself.

pub mod decoder;
pub mod digits;
pub mod encoder;
pub mod error;
pub mod hex;
pub mod laws;
pub mod noise;
pub mod positions;
pub mod stream;

pub use decoder::decode;
pub use encoder::{encode, encode_from};
pub use error::DecodeError;
pub use noise::NoiseSource;
