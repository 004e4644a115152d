//! Partitioning of a converted image into 8x8 blocks.
//!
//! Blocks cover the image in row-major block order; a block whose footprint
//! extends past the right or bottom edge is completed with the designated
//! fill pixel (black luma, mid-gray chroma), never truncated.

use vstd::prelude::*;
use vstd::arithmetic::div_mod::lemma_fundamental_div_mod_converse;
use crate::raster::Image;
use crate::raster::YCbCrPixel;

verus! {

/// Number of 8-sample blocks needed to cover a dimension `d`: ceil(d / 8).
pub open spec fn n_blocks(d: int) -> int {
    d / 8 + if d % 8 == 0 {
        0int
    } else {
        1int
    }
}

/// ceil(d / 8), computed without overflow.
pub fn n_blocks_exec(d: usize) -> (r: usize)
    ensures
        r as int == n_blocks(d as int),
{
    if d % 8 == 0 {
        d / 8
    } else {
        d / 8 + 1
    }
}

/// The designated fill pixel for block positions outside the image.
pub open spec fn filler() -> YCbCrPixel {
    YCbCrPixel { y: 0, cb: 128, cr: 128 }
}

/// The pixel a block holds at local position (j, i) — row j, column i — of
/// the block at (block_row, block_col): the image pixel where one exists,
/// the filler otherwise.
pub open spec fn spec_block_pixel(
    img: Image,
    block_row: int,
    block_col: int,
    j: int,
    i: int,
) -> YCbCrPixel {
    let row = block_row * 8 + j;
    let col = block_col * 8 + i;
    if row < img.height && col < img.width {
        img.pixels@[row * img.width + col]
    } else {
        filler()
    }
}

/// One 8x8 block of converted pixels, row-major (index = 8 * row + col).
pub struct Block {
    pub pixels: Vec<YCbCrPixel>,
}

impl Block {
    /// A block holds exactly 64 pixels.
    pub open spec fn wf(self) -> bool {
        self.pixels@.len() == 64
    }
}

/// Does `b` hold exactly the pixels of the block at (block_row, block_col)?
pub open spec fn block_matches(img: Image, block_row: int, block_col: int, b: Block) -> bool {
    &&& b.wf()
    &&& forall|j: int, i: int|
        0 <= j < 8 && 0 <= i < 8 ==> b.pixels@[8 * j + i] == spec_block_pixel(
            img,
            block_row,
            block_col,
            j,
            i,
        )
}

/// Cut out the block at (block_row, block_col), filling positions past the
/// image edge.
pub fn block_at(img: &Image, block_row: usize, block_col: usize) -> (b: Block)
    requires
        img.wf(),
        block_row < n_blocks(img.height as int),
        block_col < n_blocks(img.width as int),
    ensures
        block_matches(*img, block_row as int, block_col as int, b),
{
    proof {
        lemma_block_base(block_row as int, img.height as int);
        lemma_block_base(block_col as int, img.width as int);
    }
    let row_base: usize = 8 * block_row;
    let col_base: usize = 8 * block_col;
    let npix: usize = img.pixels.len();
    let mut pixels: Vec<YCbCrPixel> = Vec::new();
    for j in 0..8usize
        invariant
            img.wf(),
            npix == img.pixels@.len(),
            row_base == 8 * block_row,
            col_base == 8 * block_col,
            row_base <= img.height,
            col_base <= img.width,
            pixels@.len() == 8 * j,
            forall|jj: int, ii: int|
                0 <= jj < j && 0 <= ii < 8 ==> pixels@[8 * jj + ii] == spec_block_pixel(
                    *img,
                    block_row as int,
                    block_col as int,
                    jj,
                    ii,
                ),
    {
        for i in 0..8usize
            invariant
                img.wf(),
                npix == img.pixels@.len(),
                row_base == 8 * block_row,
                col_base == 8 * block_col,
                row_base <= img.height,
                col_base <= img.width,
                j < 8,
                pixels@.len() == 8 * j + i,
                forall|jj: int, ii: int|
                    0 <= jj < j && 0 <= ii < 8 ==> pixels@[8 * jj + ii] == spec_block_pixel(
                        *img,
                        block_row as int,
                        block_col as int,
                        jj,
                        ii,
                    ),
                forall|ii: int|
                    0 <= ii < i ==> pixels@[8 * (j as int) + ii] == spec_block_pixel(
                        *img,
                        block_row as int,
                        block_col as int,
                        j as int,
                        ii,
                    ),
        {
            if j < img.height - row_base && i < img.width - col_base {
                let row: usize = row_base + j;
                let col: usize = col_base + i;
                proof {
                    lemma_row_major_in_range(
                        row as int,
                        col as int,
                        img.height as int,
                        img.width as int,
                    );
                }
                let idx: usize = row * img.width + col;
                pixels.push(img.pixels[idx]);
            } else {
                pixels.push(YCbCrPixel { y: 0, cb: 128, cr: 128 });
            }
        }
    }
    Block { pixels }
}

/// The top-left sample row (or column) of an in-range block lies inside the
/// dimension it covers.
proof fn lemma_block_base(b: int, d: int)
    requires
        0 <= b,
        0 <= d,
        b < n_blocks(d),
    ensures
        8 * b <= d,
{
    assert(8 * (d / 8) + d % 8 == d);
}

/// Row-major indexing stays inside the pixel buffer.
pub proof fn lemma_row_major_in_range(row: int, col: int, height: int, width: int)
    by (nonlinear_arith)
    requires
        0 <= row < height,
        0 <= col < width,
    ensures
        0 <= row * width + col < width * height,
{
}

/// A covering grid is never empty in either direction.
pub proof fn lemma_n_blocks_positive(d: int)
    requires
        d > 0,
    ensures
        n_blocks(d) > 0,
{
    assert(8 * (d / 8) + d % 8 == d);
}

/// All blocks of the image, in row-major block order: the block at index
/// `bi` of the result is the block at grid position
/// (bi / n_blocks(width), bi % n_blocks(width)).
pub fn partition(img: &Image) -> (blocks: Vec<Block>)
    requires
        img.wf(),
    ensures
        blocks@.len() == n_blocks(img.height as int) * n_blocks(img.width as int),
        forall|bi: int|
            0 <= bi < blocks@.len() ==> block_matches(
                *img,
                bi / n_blocks(img.width as int),
                bi % n_blocks(img.width as int),
                #[trigger] blocks@[bi],
            ),
{
    let nbr: usize = n_blocks_exec(img.height);
    let nbc: usize = n_blocks_exec(img.width);
    proof {
        lemma_n_blocks_positive(img.width as int);
    }
    let mut blocks: Vec<Block> = Vec::new();
    for br in 0..nbr
        invariant
            img.wf(),
            nbr == n_blocks(img.height as int),
            nbc == n_blocks(img.width as int),
            nbc > 0,
            blocks@.len() == br * nbc,
            forall|bi: int|
                0 <= bi < blocks@.len() ==> block_matches(
                    *img,
                    bi / nbc as int,
                    bi % nbc as int,
                    #[trigger] blocks@[bi],
                ),
    {
        for bc in 0..nbc
            invariant
                img.wf(),
                nbr == n_blocks(img.height as int),
                nbc == n_blocks(img.width as int),
                nbc > 0,
                br < nbr,
                blocks@.len() == br * nbc + bc,
                forall|bi: int|
                    0 <= bi < blocks@.len() ==> block_matches(
                        *img,
                        bi / nbc as int,
                        bi % nbc as int,
                        #[trigger] blocks@[bi],
                    ),
        {
            let b = block_at(img, br, bc);
            blocks.push(b);
            proof {
                lemma_fundamental_div_mod_converse(
                    br * nbc + bc,
                    nbc as int,
                    br as int,
                    bc as int,
                );
            }
        }
        proof {
            assert((br + 1) * nbc == br * nbc + nbc) by (nonlinear_arith);
        }
    }
    blocks
}

/// With both dimensions multiples of 8 the grid is exactly (W/8) by (H/8)
/// blocks and every block position maps to a source pixel, so no filler is
/// used anywhere.
pub proof fn lemma_exact_cover_no_filler(img: Image)
    requires
        img.wf(),
        img.width as int % 8 == 0,
        img.height as int % 8 == 0,
    ensures
        n_blocks(img.width as int) == img.width as int / 8,
        n_blocks(img.height as int) == img.height as int / 8,
        forall|br: int, bc: int, j: int, i: int|
            0 <= br < n_blocks(img.height as int) && 0 <= bc < n_blocks(img.width as int) && 0 <= j
                < 8 && 0 <= i < 8 ==> spec_block_pixel(img, br, bc, j, i) == img.pixels@[(br * 8
                + j) * img.width + (bc * 8 + i)],
{
    assert(8 * (img.height as int / 8) == img.height as int);
    assert(8 * (img.width as int / 8) == img.width as int);
}

} // verus!
