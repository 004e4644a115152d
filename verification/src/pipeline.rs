//! The driver that sequences the whole front end over one image: convert
//! every pixel, cut the converted buffer into 8x8 blocks in row-major block
//! order, and transform every block.  The encoder holds no state, so its
//! output is a pure function of the input image.

use vstd::prelude::*;
use vstd::arithmetic::div_mod::lemma_fundamental_div_mod_converse;
use vstd::arithmetic::mul::lemma_mul_basics;
use crate::block::Block;
use crate::block::block_at;
use crate::block::block_matches;
use crate::block::filler;
use crate::block::lemma_n_blocks_positive;
use crate::block::lemma_row_major_in_range;
use crate::block::n_blocks;
use crate::block::n_blocks_exec;
use crate::block::spec_block_pixel;
use crate::color::spec_cb;
use crate::color::spec_cr;
use crate::color::spec_luma;
use crate::dct::BlockCoefficients;
use crate::dct::cb_samples;
use crate::dct::cr_samples;
use crate::dct::luma_samples;
use crate::dct::matrix_matches;
use crate::dct::transform_block;
use crate::raster::Image;
use crate::raster::RgbImage;
use crate::raster::convert_image;
use crate::raster::pixel_converted;

verus! {

/// The coefficients of one block, tagged with its position in the block grid.
pub struct EncodedBlock {
    pub block_row: usize,
    pub block_col: usize,
    pub coeffs: BlockCoefficients,
}

/// The luma sample the encoder feeds the transform at local position k
/// (row k / 8, column k % 8) of the block at (block_row, block_col): the
/// converted source pixel where one exists, the fill value otherwise.
pub open spec fn plane_sample_y(img: RgbImage, block_row: int, block_col: int, k: int) -> int {
    let row = block_row * 8 + k / 8;
    let col = block_col * 8 + k % 8;
    if row < img.height && col < img.width {
        let p = img.pixels@[row * img.width + col];
        spec_luma(p.r as int, p.g as int, p.b as int)
    } else {
        filler().y as int
    }
}

/// The blue-difference sample fed to the transform; see `plane_sample_y`.
pub open spec fn plane_sample_cb(img: RgbImage, block_row: int, block_col: int, k: int) -> int {
    let row = block_row * 8 + k / 8;
    let col = block_col * 8 + k % 8;
    if row < img.height && col < img.width {
        let p = img.pixels@[row * img.width + col];
        spec_cb(p.r as int, p.g as int, p.b as int)
    } else {
        filler().cb as int
    }
}

/// The red-difference sample fed to the transform; see `plane_sample_y`.
pub open spec fn plane_sample_cr(img: RgbImage, block_row: int, block_col: int, k: int) -> int {
    let row = block_row * 8 + k / 8;
    let col = block_col * 8 + k % 8;
    if row < img.height && col < img.width {
        let p = img.pixels@[row * img.width + col];
        spec_cr(p.r as int, p.g as int, p.b as int)
    } else {
        filler().cr as int
    }
}

/// The 64 luma samples of one block of the converted image.
pub open spec fn block_plane_y(img: RgbImage, block_row: int, block_col: int) -> Seq<int> {
    Seq::new(64, |k: int| plane_sample_y(img, block_row, block_col, k))
}

/// The 64 blue-difference samples of one block of the converted image.
pub open spec fn block_plane_cb(img: RgbImage, block_row: int, block_col: int) -> Seq<int> {
    Seq::new(64, |k: int| plane_sample_cb(img, block_row, block_col, k))
}

/// The 64 red-difference samples of one block of the converted image.
pub open spec fn block_plane_cr(img: RgbImage, block_row: int, block_col: int) -> Seq<int> {
    Seq::new(64, |k: int| plane_sample_cr(img, block_row, block_col, k))
}

/// Full contract of the encoder: `s` has one entry per block of the covering
/// grid, in row-major block order (entry bi sits at grid position
/// (bi / n_blocks(width), bi % n_blocks(width))), and every entry carries
/// exactly the DCT-II coefficients of the three channel planes of its block.
pub open spec fn encode_matches(img: RgbImage, s: Seq<EncodedBlock>) -> bool {
    let nbc = n_blocks(img.width as int);
    &&& s.len() == n_blocks(img.height as int) * nbc
    &&& forall|bi: int|
        0 <= bi < s.len() ==> {
            let e = #[trigger] s[bi];
            &&& e.block_row as int == bi / nbc
            &&& e.block_col as int == bi % nbc
            &&& matrix_matches(block_plane_y(img, bi / nbc, bi % nbc), e.coeffs.y)
            &&& matrix_matches(block_plane_cb(img, bi / nbc, bi % nbc), e.coeffs.cb)
            &&& matrix_matches(block_plane_cr(img, bi / nbc, bi % nbc), e.coeffs.cr)
        }
}

/// A block cut from the converted image carries exactly the channel planes
/// that `encode_matches` speaks of over the source image.
proof fn lemma_block_planes(img: RgbImage, conv: Image, block_row: int, block_col: int, b: Block)
    requires
        img.wf(),
        conv.wf(),
        conv.width == img.width,
        conv.height == img.height,
        forall|k: int|
            0 <= k < img.pixels@.len() ==> pixel_converted(conv.pixels@[k], img.pixels@[k]),
        0 <= block_row,
        0 <= block_col,
        block_matches(conv, block_row, block_col, b),
    ensures
        luma_samples(b.pixels@) == block_plane_y(img, block_row, block_col),
        cb_samples(b.pixels@) == block_plane_cb(img, block_row, block_col),
        cr_samples(b.pixels@) == block_plane_cr(img, block_row, block_col),
{
    assert forall|k: int| 0 <= k < 64 implies {
        &&& luma_samples(b.pixels@)[k] == block_plane_y(img, block_row, block_col)[k]
        &&& cb_samples(b.pixels@)[k] == block_plane_cb(img, block_row, block_col)[k]
        &&& cr_samples(b.pixels@)[k] == block_plane_cr(img, block_row, block_col)[k]
    } by {
        let j = k / 8;
        let i = k % 8;
        assert(8 * j + i == k);
        assert(b.pixels@[8 * j + i] == spec_block_pixel(conv, block_row, block_col, j, i));
        let row = block_row * 8 + j;
        let col = block_col * 8 + i;
        if row < conv.height && col < conv.width {
            lemma_row_major_in_range(row, col, conv.height as int, conv.width as int);
            assert(pixel_converted(
                conv.pixels@[row * conv.width + col],
                img.pixels@[row * img.width + col],
            ));
        }
    }
    assert(luma_samples(b.pixels@) =~= block_plane_y(img, block_row, block_col));
    assert(cb_samples(b.pixels@) =~= block_plane_cb(img, block_row, block_col));
    assert(cr_samples(b.pixels@) =~= block_plane_cr(img, block_row, block_col));
}

/// Encode one image: convert every pixel, partition into 8x8 blocks, and
/// transform each block, yielding the per-block coefficient triples in
/// row-major block order.
pub fn encode(img: &RgbImage) -> (out: Vec<EncodedBlock>)
    requires
        img.wf(),
    ensures
        encode_matches(*img, out@),
{
    let conv: Image = convert_image(img);
    let nbr: usize = n_blocks_exec(conv.height);
    let nbc: usize = n_blocks_exec(conv.width);
    proof {
        lemma_n_blocks_positive(conv.width as int);
        lemma_mul_basics(nbc as int);
    }
    let mut out: Vec<EncodedBlock> = Vec::new();
    for br in 0..nbr
        invariant
            img.wf(),
            conv.wf(),
            conv.width == img.width,
            conv.height == img.height,
            forall|k: int|
                0 <= k < img.pixels@.len() ==> pixel_converted(conv.pixels@[k], img.pixels@[k]),
            nbr == n_blocks(conv.height as int),
            nbc == n_blocks(conv.width as int),
            nbc > 0,
            out@.len() == br * nbc,
            forall|bi: int|
                0 <= bi < out@.len() ==> {
                    let e = #[trigger] out@[bi];
                    &&& e.block_row as int == bi / nbc as int
                    &&& e.block_col as int == bi % nbc as int
                    &&& matrix_matches(
                        block_plane_y(*img, bi / nbc as int, bi % nbc as int),
                        e.coeffs.y,
                    )
                    &&& matrix_matches(
                        block_plane_cb(*img, bi / nbc as int, bi % nbc as int),
                        e.coeffs.cb,
                    )
                    &&& matrix_matches(
                        block_plane_cr(*img, bi / nbc as int, bi % nbc as int),
                        e.coeffs.cr,
                    )
                },
    {
        for bc in 0..nbc
            invariant
                img.wf(),
                conv.wf(),
                conv.width == img.width,
                conv.height == img.height,
                forall|k: int|
                    0 <= k < img.pixels@.len() ==> pixel_converted(
                        conv.pixels@[k],
                        img.pixels@[k],
                    ),
                nbr == n_blocks(conv.height as int),
                nbc == n_blocks(conv.width as int),
                nbc > 0,
                br < nbr,
                out@.len() == br * nbc + bc,
                forall|bi: int|
                    0 <= bi < out@.len() ==> {
                        let e = #[trigger] out@[bi];
                        &&& e.block_row as int == bi / nbc as int
                        &&& e.block_col as int == bi % nbc as int
                        &&& matrix_matches(
                            block_plane_y(*img, bi / nbc as int, bi % nbc as int),
                            e.coeffs.y,
                        )
                        &&& matrix_matches(
                            block_plane_cb(*img, bi / nbc as int, bi % nbc as int),
                            e.coeffs.cb,
                        )
                        &&& matrix_matches(
                            block_plane_cr(*img, bi / nbc as int, bi % nbc as int),
                            e.coeffs.cr,
                        )
                    },
        {
            let b = block_at(&conv, br, bc);
            let coeffs = transform_block(&b);
            proof {
                lemma_fundamental_div_mod_converse(
                    br * nbc + bc,
                    nbc as int,
                    br as int,
                    bc as int,
                );
                lemma_block_planes(*img, conv, br as int, bc as int, b);
            }
            out.push(EncodedBlock { block_row: br, block_col: bc, coeffs });
        }
        proof {
            assert((br + 1) * nbc == br * nbc + nbc) by (nonlinear_arith);
        }
    }
    out
}

/// The encoder is restartable and deterministic: any two outputs that meet
/// its contract on the same image agree at every index, position and
/// coefficients alike, so re-running `encode` reproduces the identical
/// row-major stream.
pub proof fn lemma_encode_deterministic(img: RgbImage, s1: Seq<EncodedBlock>, s2: Seq<
    EncodedBlock,
>)
    requires
        encode_matches(img, s1),
        encode_matches(img, s2),
    ensures
        s1.len() == s2.len(),
        forall|bi: int|
            #![trigger s1[bi], s2[bi]]
            0 <= bi < s1.len() ==> {
                &&& s1[bi].block_row == s2[bi].block_row
                &&& s1[bi].block_col == s2[bi].block_col
                &&& s1[bi].coeffs.y.coeffs@ == s2[bi].coeffs.y.coeffs@
                &&& s1[bi].coeffs.cb.coeffs@ == s2[bi].coeffs.cb.coeffs@
                &&& s1[bi].coeffs.cr.coeffs@ == s2[bi].coeffs.cr.coeffs@
            },
{
    assert forall|bi: int| 0 <= bi < s1.len() implies {
        &&& s1[bi].block_row == s2[bi].block_row
        &&& s1[bi].block_col == s2[bi].block_col
        &&& s1[bi].coeffs.y.coeffs@ == s2[bi].coeffs.y.coeffs@
        &&& s1[bi].coeffs.cb.coeffs@ == s2[bi].coeffs.cb.coeffs@
        &&& s1[bi].coeffs.cr.coeffs@ == s2[bi].coeffs.cr.coeffs@
    } by {
        assert(s1[bi].coeffs.y.coeffs@ =~= s2[bi].coeffs.y.coeffs@);
        assert(s1[bi].coeffs.cb.coeffs@ =~= s2[bi].coeffs.cb.coeffs@);
        assert(s1[bi].coeffs.cr.coeffs@ =~= s2[bi].coeffs.cr.coeffs@);
    }
}

} // verus!
