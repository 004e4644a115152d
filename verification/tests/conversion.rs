use dct_frontend::color::rgb_to_ycbcr;

/// The conversion formula computed in floating point, truncated toward zero
/// and clamped, as a cross-check of the exact fixed-point path.
fn reference_ycbcr(r: u8, g: u8, b: u8) -> (f64, f64, f64) {
    let (rf, gf, bf) = (r as f64, g as f64, b as f64);
    let y = 0.299 * rf + 0.587 * gf + 0.114 * bf;
    let cb = 128.0 - 0.168736 * rf - 0.331264 * gf + 0.5 * bf;
    let cr = 128.0 + 0.5 * rf - 0.418688 * gf - 0.081312 * bf;
    let clamp = |v: f64| -> f64 { v.trunc().max(0.0).min(255.0) };
    (clamp(y), clamp(cb), clamp(cr))
}

#[test]
fn converts_primaries_exactly() {
    assert_eq!(rgb_to_ycbcr(0, 0, 0), (0, 128, 128));
    assert_eq!(rgb_to_ycbcr(255, 255, 255), (255, 128, 128));
    assert_eq!(rgb_to_ycbcr(255, 0, 0), (76, 84, 255));
    assert_eq!(rgb_to_ycbcr(0, 255, 0), (149, 43, 21));
    assert_eq!(rgb_to_ycbcr(0, 0, 255), (29, 255, 107));
    assert_eq!(rgb_to_ycbcr(128, 128, 128), (128, 128, 128));
}

#[test]
fn channels_stay_in_range_across_gamut() {
    let mut r: u16 = 0;
    while r < 256 {
        let mut g: u16 = 0;
        while g < 256 {
            let mut b: u16 = 0;
            while b < 256 {
                let (y, cb, cr) = rgb_to_ycbcr(r as u8, g as u8, b as u8);
                let (yf, cbf, crf) = reference_ycbcr(r as u8, g as u8, b as u8);
                assert!((y as f64 - yf).abs() <= 1.0);
                assert!((cb as f64 - cbf).abs() <= 1.0);
                assert!((cr as f64 - crf).abs() <= 1.0);
                b += 15;
            }
            g += 15;
        }
        r += 15;
    }
}

#[test]
fn conversion_is_deterministic() {
    let mut r: u16 = 0;
    while r < 256 {
        let mut g: u16 = 3;
        while g < 256 {
            let first = rgb_to_ycbcr(r as u8, g as u8, 77);
            let second = rgb_to_ycbcr(r as u8, g as u8, 77);
            assert_eq!(first, second);
            g += 31;
        }
        r += 31;
    }
}
