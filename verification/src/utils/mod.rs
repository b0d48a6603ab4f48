//! Byte-level helpers shared by the encoders and decoders of the library.

pub mod assoc;
pub mod bytes;
pub mod decimal;
pub mod ints;
pub mod serialize;
pub mod text;
pub mod varint;
