// Conversion scenarios over the fixed-point representation: one whole unit
// is 1_000_000 micro-units.

use colorconv::color::Color;
use colorconv::error::ColorError;

const S: i64 = 1_000_000;

#[test]
fn rgb_identity_construction() {
    let c = Color::from_rgb(10 * S, 20 * S, 30 * S).unwrap();
    assert_eq!(c.channels(), (10 * S, 20 * S, 30 * S));
    assert_eq!(c.r(), 10 * S);
    assert_eq!(c.g(), 20 * S);
    assert_eq!(c.b(), 30 * S);
}

#[test]
fn new_is_from_rgb() {
    assert_eq!(Color::new(1, 2, 3), Color::from_rgb(1, 2, 3));
    assert_eq!(
        Color::new(300 * S, 0, 0),
        Err(ColorError::RedOutOfRange(300 * S))
    );
}

#[test]
fn rgb_accepts_fractional_channels() {
    let c = Color::from_rgb(127_500_000, 0, 255 * S).unwrap();
    assert_eq!(c.channels(), (127_500_000, 0, 255 * S));
}

#[test]
fn cmyk_pure_black_round_trip() {
    let c = Color::from_cmyk(0, 0, 0, S).unwrap();
    assert_eq!(c.channels(), (0, 0, 0));
    assert_eq!(c.to_cmyk(), (0, 0, 0, S));
}

#[test]
fn cmyk_round_trip_exact_instance() {
    let c = Color::from_cmyk(200_000, 0, 400_000, 250_000).unwrap();
    assert_eq!(c.channels(), (153_000_000, 191_250_000, 114_750_000));
    assert_eq!(c.to_cmyk(), (200_000, 0, 400_000, 250_000));
}

#[test]
fn cmyk_round_trip_truncating_instance() {
    let c = Color::from_cmyk(123_457, 0, 400_001, 333_333).unwrap();
    assert_eq!(c.channels(), (149_012_384, 170_000_085, 101_999_880));
    assert_eq!(c.to_cmyk(), (123_457, 0, 400_001, 333_333));
}

#[test]
fn cmyk_of_white_and_primaries() {
    let white = Color::from_cmyk(0, 0, 0, 0).unwrap();
    assert_eq!(white.channels(), (255 * S, 255 * S, 255 * S));
    assert_eq!(white.to_cmyk(), (0, 0, 0, 0));
    let cyan = Color::from_cmyk(S, 0, 0, 0).unwrap();
    assert_eq!(cyan.channels(), (0, 255 * S, 255 * S));
    assert_eq!(cyan.to_cmyk(), (S, 0, 0, 0));
}

#[test]
fn hsl_pure_green() {
    let c = Color::from_hsl(120 * S, S, 500_000).unwrap();
    assert_eq!(c.channels(), (0, 255 * S, 0));
}

#[test]
fn hsl_round_trip_exact_instance() {
    let c = Color::from_hsl(210 * S, 700_000, 300_000).unwrap();
    assert_eq!(c.channels(), (22_950_000, 76_500_000, 130_050_000));
    assert_eq!(c.to_hsl(), (210 * S, 700_000, 300_000));
}

#[test]
fn hsl_round_trip_truncating_instance() {
    let c = Color::from_hsl(33_333_333, 777_777, 444_444).unwrap();
    assert_eq!(c.channels(), (201_481_110, 123_127_260, 25_185_330));
    let (h, s, l) = c.to_hsl();
    // The lightness comes back exactly; hue and saturation within the
    // fixed-point grain.
    assert_eq!(l, 444_444);
    assert_eq!(h, 33_333_275);
    assert_eq!(s, 777_776);
    assert!((h - 33_333_333).abs() < 1_000);
    assert!((s - 777_777).abs() <= 2);
}

#[test]
fn hsl_grey_has_hue_zero() {
    let c = Color::from_hsl(217 * S, 0, 400_000).unwrap();
    let (h, s, l) = c.to_hsl();
    assert_eq!((h, s, l), (0, 0, 400_000));
}

#[test]
fn hsl_hue_360_wraps_to_hue_0() {
    let wrapped = Color::from_hsl(360 * S, S, 500_000).unwrap();
    let zero = Color::from_hsl(0, S, 500_000).unwrap();
    assert_eq!(wrapped.channels(), (255 * S, 0, 0));
    assert_eq!(wrapped.channels(), zero.channels());
}

#[test]
fn hsv_full_red() {
    let c = Color::from_hsv(0, S, S).unwrap();
    assert_eq!(c.channels(), (255 * S, 0, 0));
    assert_eq!(c.to_hsv(), (0, S, S));
}

#[test]
fn hsv_round_trip_instance() {
    let c = Color::from_hsv(270 * S, 500_000, 800_000).unwrap();
    let (h, s, v) = c.to_hsv();
    assert_eq!(v, 800_000);
    assert_eq!(h, 270 * S);
    assert_eq!(s, 500_000);
}

#[test]
fn hue_always_wrapped_below_360() {
    let mut samples: Vec<(i64, i64, i64)> = Vec::new();
    for r in [0, 1, 127, 254, 255] {
        for g in [0, 1, 128, 255] {
            for b in [0, 63, 255] {
                samples.push((r * S, g * S, b * S));
            }
        }
    }
    samples.push((123_456, 654_321, 999_999));
    for (r, g, b) in samples {
        let c = Color::from_rgb(r, g, b).unwrap();
        let (h1, _, _) = c.to_hsl();
        let (h2, _, _) = c.to_hsv();
        assert!(0 <= h1 && h1 < 360 * S);
        assert!(0 <= h2 && h2 < 360 * S);
        assert_eq!(h1, h2);
    }
}

#[test]
fn greyscale_averages_channels() {
    let c = Color::from_rgb(10 * S, 20 * S, 40 * S).unwrap();
    assert_eq!(c.greyscale(), (23_333_333, 23_333_333, 23_333_333));
}
