//! Pixel-art conversion of raster images for 256-color terminals.
//!
//! The library downsamples an RGB image by an integer block size, quantizes
//! each pixel to the 216-color cube of the standard terminal palette, and
//! renders the result as a multi-line ANSI escape string. A progressive
//! sequence of block sizes lets a caller render ever coarser frames of the
//! same source image.

pub mod color;
pub mod downsample;
pub mod pixel_size;
pub mod raster;
pub mod render;
