//! Front end of a block-based still-image encoder.
//!
//! The crate converts a decoded raster of 8-bit RGB pixels to the YCbCr
//! colour space, partitions the converted image into 8x8 blocks (filling
//! positions past the image edge with black luma and mid-gray chroma), and
//! computes the forward two-dimensional DCT-II of every block, channel by
//! channel.  All arithmetic is exact fixed-point integer arithmetic, so every
//! stage carries a contract that pins its result down completely.

pub mod color;

pub mod raster;

pub mod block;

pub mod dct;

pub mod pipeline;

