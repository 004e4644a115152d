//! Raster images: the decoded RGB input and its converted YCbCr form, each a
//! row-major pixel buffer with positive dimensions.

use vstd::prelude::*;
use crate::color::rgb_to_ycbcr;
use crate::color::spec_ycbcr;

verus! {

/// One decoded pixel: three 8-bit channels.
#[derive(Clone, Copy, PartialEq, Eq, Structural, Debug)]
pub struct RgbPixel {
    pub r: u8,
    pub g: u8,
    pub b: u8,
}

/// One converted pixel: luma and the two colour-difference channels.
#[derive(Clone, Copy, PartialEq, Eq, Structural, Debug)]
pub struct YCbCrPixel {
    pub y: u8,
    pub cb: u8,
    pub cr: u8,
}

/// A decoded raster: `width * height` RGB pixels in row-major order
/// (index = row * width + col).
pub struct RgbImage {
    pub width: usize,
    pub height: usize,
    pub pixels: Vec<RgbPixel>,
}

impl RgbImage {
    /// Dimensions are positive and the buffer holds exactly one pixel per
    /// coordinate.
    pub open spec fn wf(self) -> bool {
        &&& self.width > 0
        &&& self.height > 0
        &&& self.pixels@.len() == self.width * self.height
    }
}

/// A converted raster: `width * height` YCbCr pixels in row-major order.
pub struct Image {
    pub width: usize,
    pub height: usize,
    pub pixels: Vec<YCbCrPixel>,
}

impl Image {
    /// Dimensions are positive and the buffer holds exactly one pixel per
    /// coordinate.
    pub open spec fn wf(self) -> bool {
        &&& self.width > 0
        &&& self.height > 0
        &&& self.pixels@.len() == self.width * self.height
    }
}

/// Does the converted pixel `q` hold exactly the YCbCr triple of the RGB
/// pixel `p`?
pub open spec fn pixel_converted(q: YCbCrPixel, p: RgbPixel) -> bool {
    (q.y as int, q.cb as int, q.cr as int) == spec_ycbcr(p.r as int, p.g as int, p.b as int)
}

/// Convert every pixel of a decoded raster, preserving the dimensions and
/// the row-major order.
pub fn convert_image(img: &RgbImage) -> (out: Image)
    requires
        img.wf(),
    ensures
        out.wf(),
        out.width == img.width,
        out.height == img.height,
        forall|k: int|
            0 <= k < img.pixels@.len() ==> pixel_converted(out.pixels@[k], img.pixels@[k]),
{
    let n: usize = img.pixels.len();
    let mut pixels: Vec<YCbCrPixel> = Vec::new();
    for k in 0..n
        invariant
            n == img.pixels@.len(),
            pixels@.len() == k,
            forall|j: int| 0 <= j < k ==> pixel_converted(pixels@[j], img.pixels@[j]),
    {
        let p: RgbPixel = img.pixels[k];
        let (y, cb, cr) = rgb_to_ycbcr(p.r, p.g, p.b);
        pixels.push(YCbCrPixel { y, cb, cr });
    }
    Image { width: img.width, height: img.height, pixels }
}

} // verus!
