use dct_frontend::block::{block_at, partition};
use dct_frontend::raster::{Image, YCbCrPixel};

/// An image whose pixel at flat index k is a distinct, filler-free triple.
fn varied_image(width: usize, height: usize) -> Image {
    let mut pixels = Vec::new();
    for k in 0..width * height {
        pixels.push(YCbCrPixel {
            y: ((k * 7 + 1) % 251) as u8 + 1,
            cb: ((k * 11 + 3) % 113) as u8,
            cr: ((k * 13 + 5) % 199) as u8 + 20,
        });
    }
    Image { width, height, pixels }
}

#[test]
fn exact_multiple_dimensions_use_no_filler() {
    let img = varied_image(16, 16);
    let blocks = partition(&img);
    assert_eq!(blocks.len(), (16 / 8) * (16 / 8));
    for (bi, block) in blocks.iter().enumerate() {
        let br = bi / 2;
        let bc = bi % 2;
        assert_eq!(block.pixels.len(), 64);
        for j in 0..8 {
            for i in 0..8 {
                let src = img.pixels[(br * 8 + j) * 16 + (bc * 8 + i)];
                assert_eq!(block.pixels[8 * j + i], src);
            }
        }
    }
}

#[test]
fn ten_by_ten_yields_four_blocks_with_filler() {
    let img = varied_image(10, 10);
    let blocks = partition(&img);
    assert_eq!(blocks.len(), 4);
    let filler = YCbCrPixel { y: 0, cb: 128, cr: 128 };
    for (bi, block) in blocks.iter().enumerate() {
        let br = bi / 2;
        let bc = bi % 2;
        for j in 0..8 {
            for i in 0..8 {
                let row = br * 8 + j;
                let col = bc * 8 + i;
                let got = block.pixels[8 * j + i];
                if row < 10 && col < 10 {
                    assert_eq!(got, img.pixels[row * 10 + col]);
                } else {
                    assert_eq!(got, filler);
                }
            }
        }
    }
    // The bottom-right block in particular is filler wherever either
    // coordinate runs past the image.
    let corner = &blocks[3];
    for j in 0..8 {
        for i in 0..8 {
            if 8 + j >= 10 || 8 + i >= 10 {
                assert_eq!(corner.pixels[8 * j + i], filler);
            }
        }
    }
}

#[test]
fn single_pixel_image_is_one_padded_block() {
    let img = Image {
        width: 1,
        height: 1,
        pixels: vec![YCbCrPixel { y: 200, cb: 30, cr: 40 }],
    };
    let blocks = partition(&img);
    assert_eq!(blocks.len(), 1);
    let b = block_at(&img, 0, 0);
    assert_eq!(b.pixels[0], YCbCrPixel { y: 200, cb: 30, cr: 40 });
    for k in 1..64 {
        assert_eq!(b.pixels[k], YCbCrPixel { y: 0, cb: 128, cr: 128 });
    }
    assert_eq!(blocks[0].pixels, b.pixels);
}
