// Hexadecimal encoding and decoding.

use colorconv::color::Color;
use colorconv::error::ColorError;

const S: i64 = 1_000_000;

#[test]
fn hex_of_black_and_white() {
    assert_eq!(Color::from_rgb(0, 0, 0).unwrap().to_hex(), "000000");
    assert_eq!(
        Color::from_rgb(255 * S, 255 * S, 255 * S).unwrap().to_hex(),
        "ffffff"
    );
}

#[test]
fn hex_is_lowercase_and_zero_padded() {
    let c = Color::from_rgb(12 * S, 34 * S, 56 * S).unwrap();
    assert_eq!(c.to_hex(), "0c2238");
    let d = Color::from_rgb(255 * S, 10 * S, 0).unwrap();
    assert_eq!(d.to_hex(), "ff0a00");
}

#[test]
fn hex_truncates_fractional_channels() {
    let c = Color::from_rgb(127_500_000, 999_999, 0).unwrap();
    assert_eq!(c.to_hex(), "7f0000");
}

#[test]
fn hex_round_trip_recovers_bytes() {
    for (r, g, b) in [(0, 0, 0), (255, 255, 255), (12, 34, 56), (1, 2, 3), (254, 0, 128)] {
        let c = Color::from_rgb(r * S, g * S, b * S).unwrap();
        let s = c.to_hex();
        assert_eq!(s.len(), 6);
        let back = Color::from_hex(&s).unwrap();
        assert_eq!(back.channels(), (r * S, g * S, b * S));
    }
}

#[test]
fn from_hex_with_prefix() {
    let c = Color::from_hex("#ff0000").unwrap();
    assert_eq!(c.channels(), (255 * S, 0, 0));
    assert_eq!(c.to_hsv(), (0, S, S));
}

#[test]
fn from_hex_mixed_case() {
    let c = Color::from_hex("#0a0B0c").unwrap();
    assert_eq!(c.channels(), (10 * S, 11 * S, 12 * S));
}

#[test]
fn from_hex_seven_digits_leading_zero() {
    let c = Color::from_hex("0abcdef").unwrap();
    assert_eq!(c.channels(), (0xab * S, 0xcd * S, 0xef * S));
}

#[test]
fn from_hex_wrong_length() {
    assert_eq!(Color::from_hex("12345"), Err(ColorError::IncorrectLength(5)));
    assert_eq!(Color::from_hex(""), Err(ColorError::IncorrectLength(0)));
    assert_eq!(
        Color::from_hex("12345678"),
        Err(ColorError::IncorrectLength(8))
    );
}

#[test]
fn from_hex_invalid_digit() {
    assert_eq!(Color::from_hex("12g456"), Err(ColorError::InvalidHexSyntax));
    assert_eq!(Color::from_hex("#..0000"), Err(ColorError::InvalidHexSyntax));
}

#[test]
fn from_hex_seven_digits_overflowing_three_bytes() {
    assert_eq!(Color::from_hex("1234567"), Err(ColorError::InvalidHexSyntax));
}
