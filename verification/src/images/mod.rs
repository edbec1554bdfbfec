//! The images binding: decoding, transforming and encoding pictures.

pub mod picture;
pub mod process;
pub mod transform;
