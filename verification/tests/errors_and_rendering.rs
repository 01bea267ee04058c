// Validation errors, their fail-fast order, and the human-readable
// renderings.

use colorconv::color::Color;
use colorconv::error::ColorError;

const S: i64 = 1_000_000;

#[test]
fn rgb_out_of_range_errors() {
    assert_eq!(
        Color::from_rgb(300 * S, 0, 0),
        Err(ColorError::RedOutOfRange(300 * S))
    );
    assert_eq!(
        Color::from_rgb(0, -1, 0),
        Err(ColorError::GreenOutOfRange(-1))
    );
    assert_eq!(
        Color::from_rgb(0, 0, 256 * S),
        Err(ColorError::BlueOutOfRange(256 * S))
    );
}

#[test]
fn rgb_validation_fails_on_first_bad_field() {
    assert_eq!(
        Color::from_rgb(-1, -2, -3),
        Err(ColorError::RedOutOfRange(-1))
    );
}

#[test]
fn cmyk_out_of_range_errors() {
    assert_eq!(
        Color::from_cmyk(S + 1, 0, 0, 0),
        Err(ColorError::CyanOutOfRange(S + 1))
    );
    assert_eq!(
        Color::from_cmyk(0, -5, 0, 0),
        Err(ColorError::MagentaOutOfRange(-5))
    );
    assert_eq!(
        Color::from_cmyk(0, 0, 2 * S, 0),
        Err(ColorError::YellowOutOfRange(2 * S))
    );
    assert_eq!(
        Color::from_cmyk(0, 0, 0, -1),
        Err(ColorError::BlackOutOfRange(-1))
    );
}

#[test]
fn hsl_out_of_range_errors() {
    assert_eq!(
        Color::from_hsl(-1, 0, 0),
        Err(ColorError::HueOutOfRange(-1))
    );
    assert_eq!(
        Color::from_hsl(361 * S, 0, 0),
        Err(ColorError::HueOutOfRange(361 * S))
    );
    assert_eq!(
        Color::from_hsl(0, 2 * S, 0),
        Err(ColorError::SaturationOutOfRange(2 * S))
    );
    assert_eq!(
        Color::from_hsl(0, 0, -5),
        Err(ColorError::LightnessOutOfRange(-5))
    );
}

#[test]
fn hsv_out_of_range_errors() {
    assert_eq!(
        Color::from_hsv(400 * S, 0, 0),
        Err(ColorError::HueOutOfRange(400 * S))
    );
    assert_eq!(
        Color::from_hsv(0, -1, 0),
        Err(ColorError::SaturationOutOfRange(-1))
    );
    assert_eq!(
        Color::from_hsv(0, 0, S + 1),
        Err(ColorError::ValueOutOfRange(S + 1))
    );
}

#[test]
fn rgb_string_whole_channels() {
    let c = Color::from_rgb(255 * S, 0, 64 * S).unwrap();
    assert_eq!(c.to_rgb_string(), "rgb(255, 0, 64)");
}

#[test]
fn rgb_string_fractional_channel() {
    let c = Color::from_rgb(127_500_000, 0, 30).unwrap();
    assert_eq!(c.to_rgb_string(), "rgb(127.500000, 0, 0.000030)");
}

#[test]
fn error_messages() {
    assert_eq!(
        ColorError::RedOutOfRange(300 * S).message(),
        "expected a value between 0 and 255 but got 300"
    );
    assert_eq!(
        ColorError::SaturationOutOfRange(-1_500_000).message(),
        "expected a value between 0 and 1 but got -1.500000"
    );
    assert_eq!(
        ColorError::HueOutOfRange(360_000_001).message(),
        "expected a value between 0 and 360 but got 360.000001"
    );
    assert_eq!(
        ColorError::IncorrectLength(5).message(),
        "expected a length of 6 or 7 but got 5"
    );
    assert_eq!(
        ColorError::InvalidHexSyntax.message(),
        "invalid hexadecimal syntax"
    );
}
