//! A lossless pixel-stream codec: a per-pixel op-code grammar over a cache of
//! recent colors, with an optional LZ4 frame around the op-code stream.

pub mod pixel;
pub mod grammar;
pub mod stream;
pub mod backend;
pub mod encoder;
pub mod decoder;
pub mod laws;

pub use backend::Backend;
pub use decoder::{DecodeError, PixelDecoder};
pub use encoder::{EncodeError, PixelEncoder};
pub use pixel::RgbaColor;
