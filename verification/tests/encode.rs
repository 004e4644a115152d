use dct_frontend::block::{block_at, partition};
use dct_frontend::color::rgb_to_ycbcr;
use dct_frontend::dct::transform_block;
use dct_frontend::pipeline::encode;
use dct_frontend::raster::{convert_image, RgbImage, RgbPixel};

/// An RGB image whose pixel at flat index k is a distinct triple.
fn varied_rgb(width: usize, height: usize) -> RgbImage {
    let mut pixels = Vec::new();
    for k in 0..width * height {
        pixels.push(RgbPixel {
            r: ((k * 31 + 7) % 256) as u8,
            g: ((k * 17 + 3) % 256) as u8,
            b: ((k * 5 + 11) % 256) as u8,
        });
    }
    RgbImage { width, height, pixels }
}

#[test]
fn encode_covers_grid_in_row_major_order() {
    // 20 x 12 needs a 3-wide, 2-tall block grid.
    let img = varied_rgb(20, 12);
    let out = encode(&img);
    assert_eq!(out.len(), 6);
    for (bi, e) in out.iter().enumerate() {
        assert_eq!(e.block_row, bi / 3);
        assert_eq!(e.block_col, bi % 3);
    }
}

#[test]
fn encode_is_restartable_and_deterministic() {
    let img = varied_rgb(10, 10);
    let first = encode(&img);
    let second = encode(&img);
    assert_eq!(first.len(), 4);
    assert_eq!(first.len(), second.len());
    for (a, b) in first.iter().zip(second.iter()) {
        assert_eq!(a.block_row, b.block_row);
        assert_eq!(a.block_col, b.block_col);
        assert_eq!(a.coeffs.y.coeffs, b.coeffs.y.coeffs);
        assert_eq!(a.coeffs.cb.coeffs, b.coeffs.cb.coeffs);
        assert_eq!(a.coeffs.cr.coeffs, b.coeffs.cr.coeffs);
    }
}

#[test]
fn encode_agrees_with_the_staged_components() {
    let img = varied_rgb(13, 9);
    let out = encode(&img);
    let conv = convert_image(&img);
    let blocks = partition(&conv);
    assert_eq!(out.len(), blocks.len());
    for (bi, e) in out.iter().enumerate() {
        let staged = transform_block(&blocks[bi]);
        assert_eq!(e.coeffs.y.coeffs, staged.y.coeffs);
        assert_eq!(e.coeffs.cb.coeffs, staged.cb.coeffs);
        assert_eq!(e.coeffs.cr.coeffs, staged.cr.coeffs);
    }
}

#[test]
fn encode_of_flat_gray_is_pure_dc_everywhere() {
    // (128, 128, 128) converts to (128, 128, 128) exactly, so every block is
    // constant and every coefficient matrix is a single DC term.
    let img = RgbImage {
        width: 8,
        height: 8,
        pixels: vec![RgbPixel { r: 128, g: 128, b: 128 }; 64],
    };
    assert_eq!(rgb_to_ycbcr(128, 128, 128), (128, 128, 128));
    let out = encode(&img);
    assert_eq!(out.len(), 1);
    let dc: i64 = 64 * 128 * 707_107 * 707_107;
    for m in [&out[0].coeffs.y, &out[0].coeffs.cb, &out[0].coeffs.cr] {
        assert_eq!(m.coeffs[0], dc);
        for ci in 1..64 {
            assert_eq!(m.coeffs[ci], 0);
        }
    }
}

#[test]
fn staged_pipeline_handles_single_block_with_padding() {
    let img = varied_rgb(5, 3);
    let conv = convert_image(&img);
    let b = block_at(&conv, 0, 0);
    for j in 0..8 {
        for i in 0..8 {
            let got = b.pixels[8 * j + i];
            if j < 3 && i < 5 {
                let p = img.pixels[j * 5 + i];
                let (y, cb, cr) = rgb_to_ycbcr(p.r, p.g, p.b);
                assert_eq!((got.y, got.cb, got.cr), (y, cb, cr));
            } else {
                assert_eq!((got.y, got.cb, got.cr), (0, 128, 128));
            }
        }
    }
    let out = encode(&img);
    assert_eq!(out.len(), 1);
    let direct = transform_block(&b);
    assert_eq!(out[0].coeffs.y.coeffs, direct.y.coeffs);
}
