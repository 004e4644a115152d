use dct_frontend::block::Block;
use dct_frontend::dct::{transform_block, COEFF_DENOM};
use dct_frontend::raster::YCbCrPixel;

/// A block with the given per-channel sample at every position.
fn constant_block(y: u8, cb: u8, cr: u8) -> Block {
    Block { pixels: vec![YCbCrPixel { y, cb, cr }; 64] }
}

/// A block with the given luma samples and flat chroma.
fn luma_block(samples: &[u8; 64]) -> Block {
    let mut pixels = Vec::new();
    for k in 0..64 {
        pixels.push(YCbCrPixel { y: samples[k], cb: 128, cr: 128 });
    }
    Block { pixels }
}

/// The squared fixed-point weight of the DC basis entry (707107 is
/// 1/sqrt(2) in millionths), so a constant block of sample s has DC
/// coefficient 64 * s * DC_WEIGHT_SQ and every other coefficient zero.
const DC_WEIGHT_SQ: i64 = 707_107 * 707_107;

#[test]
fn constant_block_is_pure_dc() {
    let out = transform_block(&constant_block(100, 100, 100));
    let expected_dc: i64 = 64 * 100 * DC_WEIGHT_SQ;
    for m in [&out.y, &out.cb, &out.cr] {
        assert_eq!(m.coeffs.len(), 64);
        assert_eq!(m.coeffs[0], expected_dc);
        for ci in 1..64 {
            assert_eq!(m.coeffs[ci], 0);
        }
    }
    // In real units the DC term of a constant signal of 100 is
    // 100 * 8 = 800 under the C(u)*C(v)/4 scaling.
    let real_dc = out.y.coeffs[0] as f64 / COEFF_DENOM as f64;
    assert!((real_dc - 800.0).abs() < 1e-3);
}

#[test]
fn channels_transform_independently() {
    let out = transform_block(&constant_block(10, 20, 30));
    assert_eq!(out.y.coeffs[0], 64 * 10 * DC_WEIGHT_SQ);
    assert_eq!(out.cb.coeffs[0], 64 * 20 * DC_WEIGHT_SQ);
    assert_eq!(out.cr.coeffs[0], 64 * 30 * DC_WEIGHT_SQ);
}

#[test]
fn transform_is_linear_in_the_samples() {
    let mut s1 = [0u8; 64];
    let mut s2 = [0u8; 64];
    let mut comb = [0u8; 64];
    for k in 0..64 {
        s1[k] = (k % 16) as u8;
        s2[k] = ((k * 7) % 16) as u8;
        comb[k] = 2 * s1[k] + 3 * s2[k];
    }
    let t1 = transform_block(&luma_block(&s1));
    let t2 = transform_block(&luma_block(&s2));
    let tc = transform_block(&luma_block(&comb));
    for ci in 0..64 {
        assert_eq!(tc.y.coeffs[ci], 2 * t1.y.coeffs[ci] + 3 * t2.y.coeffs[ci]);
    }
}

/// The inverse DCT-II in floating point, for round-trip checking only:
/// f(x,y) = (1/4) * sum over u,v of C(u)*C(v)*F(u,v)*cos terms.
fn inverse_dct(coeffs: &[i64]) -> [f64; 64] {
    let pi = std::f64::consts::PI;
    let mut out = [0.0f64; 64];
    for x in 0..8 {
        for y in 0..8 {
            let mut acc = 0.0f64;
            for u in 0..8 {
                for v in 0..8 {
                    let cu = if u == 0 { (0.5f64).sqrt() } else { 1.0 };
                    let cv = if v == 0 { (0.5f64).sqrt() } else { 1.0 };
                    let f = coeffs[8 * u + v] as f64 / COEFF_DENOM as f64;
                    acc += cu * cv * f
                        * (pi * (2 * x + 1) as f64 * u as f64 / 16.0).cos()
                        * (pi * (2 * y + 1) as f64 * v as f64 / 16.0).cos();
                }
            }
            out[8 * x + y] = acc / 4.0;
        }
    }
    out
}

#[test]
fn forward_then_inverse_recovers_samples() {
    let mut samples = [0u8; 64];
    for k in 0..64 {
        samples[k] = ((k * 37 + 11) % 256) as u8;
    }
    let out = transform_block(&luma_block(&samples));
    let recovered = inverse_dct(&out.y.coeffs);
    for k in 0..64 {
        assert!((recovered[k] - samples[k] as f64).abs() <= 0.5);
    }
}
