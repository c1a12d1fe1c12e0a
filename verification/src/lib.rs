//! Least-significant-bit steganography for RGBA rasters: a text message is
//! framed, serialised to bits and written into chosen colour components of
//! chosen pixels, and read back from them.

pub mod bits;
pub mod color_channel;
pub mod offset_iter;
pub mod utils;
pub mod message_iter;
pub mod carrier;
pub mod pixel_grid;
pub mod encode;
pub mod decode;
pub mod theorems;
pub mod options;
