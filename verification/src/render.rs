//! Human-readable rendering: the `rgb(r, g, b)` form of a color and the
//! message of a validation error.
//!
//! A fixed-point value renders in its native form: the whole part in
//! decimal, and, where the six fraction digits are not all zero, a point
//! followed by exactly those six digits.

use vstd::prelude::*;
use vstd::arithmetic::div_mod::{lemma_div_decreases, lemma_div_pos_is_pos, lemma_mod_bound};
use vstd::string::StringExecFns;
use crate::color::Color;
use crate::error::ColorError;
use crate::hex::{hex_char_of, hex_digit_str};
use crate::SCALE;

verus! {

/// The decimal digits of a nonnegative number, most significant first.
pub open spec fn dec_digits(n: int) -> Seq<char>
    decreases n,
{
    if n < 10 {
        seq![hex_char_of(n)]
    } else {
        dec_digits(n / 10) + seq![hex_char_of(n % 10)]
    }
}

/// The six fraction digits of a value in `[0, SCALE)`, most significant
/// first.
pub open spec fn frac_digits(f: int) -> Seq<char> {
    seq![
        hex_char_of(f / 100_000 % 10),
        hex_char_of(f / 10_000 % 10),
        hex_char_of(f / 1_000 % 10),
        hex_char_of(f / 100 % 10),
        hex_char_of(f / 10 % 10),
        hex_char_of(f % 10),
    ]
}

/// The native rendering of a nonnegative fixed-point value: the whole part
/// in decimal, then a point and the six fraction digits unless they are all
/// zero.
pub open spec fn fixed_str(n: int) -> Seq<char> {
    if n % (SCALE as int) == 0 {
        dec_digits(n / (SCALE as int))
    } else {
        dec_digits(n / (SCALE as int)) + seq!['.'] + frac_digits(n % (SCALE as int))
    }
}

/// The native rendering of any fixed-point value: a minus sign before the
/// rendering of the magnitude where it is negative.
pub open spec fn signed_fixed_str(v: int) -> Seq<char> {
    if v < 0 {
        seq!['-'] + fixed_str(-v)
    } else {
        fixed_str(v)
    }
}

/// The rendering `rgb(r, g, b)` of a color, each channel in its native
/// fixed-point form.
pub open spec fn spec_rgb_string(c: Color) -> Seq<char> {
    "rgb("@ + fixed_str(c.red()) + ", "@ + fixed_str(c.green()) + ", "@ + fixed_str(c.blue())
        + ")"@
}

/// The message of a validation error: the expected domain and the offending
/// value in its native form.
pub open spec fn spec_message(e: ColorError) -> Seq<char> {
    match e {
        ColorError::RedOutOfRange(v) => "expected a value between 0 and 255 but got "@
            + signed_fixed_str(v as int),
        ColorError::GreenOutOfRange(v) => "expected a value between 0 and 255 but got "@
            + signed_fixed_str(v as int),
        ColorError::BlueOutOfRange(v) => "expected a value between 0 and 255 but got "@
            + signed_fixed_str(v as int),
        ColorError::CyanOutOfRange(v) => "expected a value between 0 and 1 but got "@
            + signed_fixed_str(v as int),
        ColorError::MagentaOutOfRange(v) => "expected a value between 0 and 1 but got "@
            + signed_fixed_str(v as int),
        ColorError::YellowOutOfRange(v) => "expected a value between 0 and 1 but got "@
            + signed_fixed_str(v as int),
        ColorError::BlackOutOfRange(v) => "expected a value between 0 and 1 but got "@
            + signed_fixed_str(v as int),
        ColorError::HueOutOfRange(v) => "expected a value between 0 and 360 but got "@
            + signed_fixed_str(v as int),
        ColorError::SaturationOutOfRange(v) => "expected a value between 0 and 1 but got "@
            + signed_fixed_str(v as int),
        ColorError::LightnessOutOfRange(v) => "expected a value between 0 and 1 but got "@
            + signed_fixed_str(v as int),
        ColorError::ValueOutOfRange(v) => "expected a value between 0 and 1 but got "@
            + signed_fixed_str(v as int),
        ColorError::IncorrectLength(n) => "expected a length of 6 or 7 but got "@ + dec_digits(
            n as int,
        ),
        ColorError::InvalidHexSyntax => "invalid hexadecimal syntax"@,
    }
}

/// The decimal rendering of a nonnegative number.
fn dec_str(n: i128) -> (r: String)
    requires
        0 <= n,
    ensures
        r@ == dec_digits(n as int),
    decreases n,
{
    proof {
        lemma_mod_bound(n as int, 10);
        lemma_div_pos_is_pos(n as int, 10);
        if n >= 10 {
            lemma_div_decreases(n as int, 10);
        }
    }
    if n < 10 {
        String::from_str(hex_digit_str(n as i64))
    } else {
        let mut pre = dec_str(n / 10);
        pre.append(hex_digit_str((n % 10) as i64));
        pre
    }
}

/// The native rendering of a nonnegative fixed-point value.
fn fixed_value_str(n: i128) -> (r: String)
    requires
        0 <= n,
    ensures
        r@ == fixed_str(n as int),
{
    let scale: i128 = SCALE as i128;
    proof {
        lemma_div_pos_is_pos(n as int, SCALE as int);
        lemma_mod_bound(n as int, SCALE as int);
        lemma_div_pos_is_pos((n as int) % (SCALE as int), 100_000);
        lemma_div_pos_is_pos((n as int) % (SCALE as int), 10_000);
        lemma_div_pos_is_pos((n as int) % (SCALE as int), 1_000);
        lemma_div_pos_is_pos((n as int) % (SCALE as int), 100);
        lemma_div_pos_is_pos((n as int) % (SCALE as int), 10);
        lemma_mod_bound((n as int) % (SCALE as int) / 100_000, 10);
        lemma_mod_bound((n as int) % (SCALE as int) / 10_000, 10);
        lemma_mod_bound((n as int) % (SCALE as int) / 1_000, 10);
        lemma_mod_bound((n as int) % (SCALE as int) / 100, 10);
        lemma_mod_bound((n as int) % (SCALE as int) / 10, 10);
        lemma_mod_bound((n as int) % (SCALE as int), 10);
    }
    let whole: i128 = n / scale;
    let f: i128 = n % scale;
    let mut out = dec_str(whole);
    if f != 0 {
        out.append(".");
        out.append(hex_digit_str((f / 100_000 % 10) as i64));
        out.append(hex_digit_str((f / 10_000 % 10) as i64));
        out.append(hex_digit_str((f / 1_000 % 10) as i64));
        out.append(hex_digit_str((f / 100 % 10) as i64));
        out.append(hex_digit_str((f / 10 % 10) as i64));
        out.append(hex_digit_str((f % 10) as i64));
        proof {
            reveal_strlit(".");
            assert(out@ =~= fixed_str(n as int));
        }
    }
    out
}

/// The native rendering of any fixed-point value.
fn signed_fixed_value_str(v: i64) -> (r: String)
    ensures
        r@ == signed_fixed_str(v as int),
{
    if v >= 0 {
        fixed_value_str(v as i128)
    } else {
        let mag: i128 = -(v as i128);
        let mut out = String::from_str("-");
        out.append(fixed_value_str(mag).as_str());
        proof {
            reveal_strlit("-");
            assert(out@ =~= signed_fixed_str(v as int));
        }
        out
    }
}

impl Color {
    /// The rendering `rgb(r, g, b)`, each channel in its native fixed-point
    /// form.
    pub fn to_rgb_string(&self) -> (res: String)
        requires
            self.wf(),
        ensures
            res@ == spec_rgb_string(*self),
    {
        let mut out = String::from_str("rgb(");
        out.append(fixed_value_str(self.r() as i128).as_str());
        out.append(", ");
        out.append(fixed_value_str(self.g() as i128).as_str());
        out.append(", ");
        out.append(fixed_value_str(self.b() as i128).as_str());
        out.append(")");
        proof {
            assert(out@ =~= spec_rgb_string(*self));
        }
        out
    }
}

impl ColorError {
    /// The human-readable message of the error: the expected domain and the
    /// offending value.
    pub fn message(&self) -> (res: String)
        ensures
            res@ == spec_message(*self),
    {
        match self {
            ColorError::RedOutOfRange(v) => {
                let mut out = String::from_str("expected a value between 0 and 255 but got ");
                out.append(signed_fixed_value_str(*v).as_str());
                out
            },
            ColorError::GreenOutOfRange(v) => {
                let mut out = String::from_str("expected a value between 0 and 255 but got ");
                out.append(signed_fixed_value_str(*v).as_str());
                out
            },
            ColorError::BlueOutOfRange(v) => {
                let mut out = String::from_str("expected a value between 0 and 255 but got ");
                out.append(signed_fixed_value_str(*v).as_str());
                out
            },
            ColorError::CyanOutOfRange(v) => {
                let mut out = String::from_str("expected a value between 0 and 1 but got ");
                out.append(signed_fixed_value_str(*v).as_str());
                out
            },
            ColorError::MagentaOutOfRange(v) => {
                let mut out = String::from_str("expected a value between 0 and 1 but got ");
                out.append(signed_fixed_value_str(*v).as_str());
                out
            },
            ColorError::YellowOutOfRange(v) => {
                let mut out = String::from_str("expected a value between 0 and 1 but got ");
                out.append(signed_fixed_value_str(*v).as_str());
                out
            },
            ColorError::BlackOutOfRange(v) => {
                let mut out = String::from_str("expected a value between 0 and 1 but got ");
                out.append(signed_fixed_value_str(*v).as_str());
                out
            },
            ColorError::HueOutOfRange(v) => {
                let mut out = String::from_str("expected a value between 0 and 360 but got ");
                out.append(signed_fixed_value_str(*v).as_str());
                out
            },
            ColorError::SaturationOutOfRange(v) => {
                let mut out = String::from_str("expected a value between 0 and 1 but got ");
                out.append(signed_fixed_value_str(*v).as_str());
                out
            },
            ColorError::LightnessOutOfRange(v) => {
                let mut out = String::from_str("expected a value between 0 and 1 but got ");
                out.append(signed_fixed_value_str(*v).as_str());
                out
            },
            ColorError::ValueOutOfRange(v) => {
                let mut out = String::from_str("expected a value between 0 and 1 but got ");
                out.append(signed_fixed_value_str(*v).as_str());
                out
            },
            ColorError::IncorrectLength(n) => {
                let mut out = String::from_str("expected a length of 6 or 7 but got ");
                proof {
                    assert(usize::MAX <= i128::MAX) by (nonlinear_arith);
                }
                out.append(dec_str(*n as i128).as_str());
                out
            },
            ColorError::InvalidHexSyntax => String::from_str("invalid hexadecimal syntax"),
        }
    }
}

} // verus!
