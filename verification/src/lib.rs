//! A color-model conversion library: a color is held as three channels and
//! converted among RGB, hexadecimal strings, HSL, HSV and CMYK.
//!
//! All fractional quantities are carried in an exact fixed-point form with six
//! decimal places ("micro-units"): one whole unit is `SCALE` (1,000,000).
//! A channel ranges over `[0, 255 * SCALE]`, a saturation, lightness, value or
//! CMYK component over `[0, SCALE]`, and a hue over `[0, 360 * SCALE]`
//! micro-degrees. Every conversion is stated and proved as exact integer
//! arithmetic with truncating division.

use vstd::prelude::*;

pub mod color;
pub mod error;
pub mod hex;
pub mod laws;
pub mod render;

verus! {

/// One whole unit of the fixed-point scale: values carry six decimal places.
pub const SCALE: i64 = 1_000_000;

/// Largest channel value: 255 whole units.
pub const CHAN_MAX: i64 = 255_000_000;

/// A full hue circle, in micro-degrees.
pub const HUE_MAX: i64 = 360_000_000;

/// One 60-degree hue sextant, in micro-degrees.
pub const SEXTANT: i64 = 60_000_000;

} // verus!
