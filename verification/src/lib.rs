//! An in-memory RGBA pixel buffer with clamped sub-regions, and a decoder
//! that turns the bytes of a Windows bitmap into such a buffer.

pub mod bmp;
pub mod color;
pub mod image;
