//! Decoder for binary Portable Pixmap ("P6") images into packed 32-bit pixels.

pub mod ppm_loader;
pub mod tinypmm_error;
