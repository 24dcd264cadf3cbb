//! Decoded raster images with bounds-checked pixel access, and the byte layout
//! that a texture upload expects of them.

pub mod codec;
pub mod image;
pub mod math;
pub mod pixel;
pub mod texture;
