//! The color value and its constructors and conversions.
//!
//! A `Color` holds three channels in fixed-point micro-units: each channel
//! lies in `[0, CHAN_MAX]`, i.e. `[0, 255]` whole units with six decimal
//! places. Constructors validate their inputs field by field, failing on the
//! first field out of its domain; conversions are exact integer arithmetic
//! with truncating division, stated literally in their contracts.

use vstd::prelude::*;
use vstd::arithmetic::div_mod::{
    lemma_div_by_self, lemma_div_is_ordered, lemma_div_multiples_vanish, lemma_div_of0,
    lemma_div_pos_is_pos, lemma_fundamental_div_mod, lemma_mod_bound,
};
use vstd::arithmetic::mul::{
    lemma_mul_left_inequality, lemma_mul_nonnegative, lemma_mul_upper_bound,
};
use vstd::math::abs;
use crate::error::ColorError;
use crate::{CHAN_MAX, HUE_MAX, SCALE, SEXTANT};

verus! {

/// An immutable color value: three channels in micro-units.
#[derive(Clone, Copy, Debug, PartialEq, Eq, Structural)]
pub struct Color {
    r: i64,
    g: i64,
    b: i64,
}

impl Color {
    /// The red channel, in micro-units.
    pub closed spec fn red(self) -> int {
        self.r as int
    }

    /// The green channel, in micro-units.
    pub closed spec fn green(self) -> int {
        self.g as int
    }

    /// The blue channel, in micro-units.
    pub closed spec fn blue(self) -> int {
        self.b as int
    }

    /// Every channel lies in `[0, 255]` whole units.
    pub open spec fn wf(self) -> bool {
        &&& 0 <= self.red() <= CHAN_MAX
        &&& 0 <= self.green() <= CHAN_MAX
        &&& 0 <= self.blue() <= CHAN_MAX
    }

    /// The red channel as an executable value.
    pub fn r(&self) -> (v: i64)
        ensures
            v == self.red(),
    {
        self.r
    }

    /// The green channel as an executable value.
    pub fn g(&self) -> (v: i64)
        ensures
            v == self.green(),
    {
        self.g
    }

    /// The blue channel as an executable value.
    pub fn b(&self) -> (v: i64)
        ensures
            v == self.blue(),
    {
        self.b
    }

    /// Decompose into the ordered channel triple `(r, g, b)`.
    pub fn channels(&self) -> (t: (i64, i64, i64))
        ensures
            t.0 == self.red(),
            t.1 == self.green(),
            t.2 == self.blue(),
    {
        (self.r, self.g, self.b)
    }

    /// Construct from channels already known to be in range.
    pub(crate) fn from_raw(r: i64, g: i64, b: i64) -> (col: Color)
        requires
            0 <= r <= CHAN_MAX,
            0 <= g <= CHAN_MAX,
            0 <= b <= CHAN_MAX,
        ensures
            col.wf(),
            col.red() == r,
            col.green() == g,
            col.blue() == b,
    {
        Color { r, g, b }
    }

    /// Construct from RGB channels; alias of [`Color::from_rgb`].
    pub fn new(r: i64, g: i64, b: i64) -> (res: Result<Color, ColorError>)
        ensures
            match rgb_range_err(r, g, b) {
                Some(e) => res == Err::<Color, ColorError>(e),
                None => res matches Ok(c) && c.wf() && c.red() == r && c.green() == g
                    && c.blue() == b,
            },
    {
        Self::from_rgb(r, g, b)
    }

    /// Construct from RGB channels in micro-units, each validated against
    /// `[0, 255]` whole units in the order red, green, blue.
    pub fn from_rgb(r: i64, g: i64, b: i64) -> (res: Result<Color, ColorError>)
        ensures
            match rgb_range_err(r, g, b) {
                Some(e) => res == Err::<Color, ColorError>(e),
                None => res matches Ok(c) && c.wf() && c.red() == r && c.green() == g
                    && c.blue() == b,
            },
    {
        if r > CHAN_MAX || r < 0 {
            Err(ColorError::RedOutOfRange(r))
        } else if g > CHAN_MAX || g < 0 {
            Err(ColorError::GreenOutOfRange(g))
        } else if b > CHAN_MAX || b < 0 {
            Err(ColorError::BlueOutOfRange(b))
        } else {
            Ok(Color { r, g, b })
        }
    }

    /// Construct from CMYK components in micro-units, each validated against
    /// `[0, 1]` whole units in the order cyan, magenta, yellow, black; a
    /// channel is `255 * (1 - component) * (1 - black)` in whole units.
    pub fn from_cmyk(c: i64, m: i64, y: i64, k: i64) -> (res: Result<Color, ColorError>)
        ensures
            match cmyk_range_err(c, m, y, k) {
                Some(e) => res == Err::<Color, ColorError>(e),
                None => res matches Ok(col) && col.wf() && col.red() == cmyk_channel(c, k)
                    && col.green() == cmyk_channel(m, k) && col.blue() == cmyk_channel(y, k),
            },
    {
        if c > SCALE || c < 0 {
            Err(ColorError::CyanOutOfRange(c))
        } else if m > SCALE || m < 0 {
            Err(ColorError::MagentaOutOfRange(m))
        } else if y > SCALE || y < 0 {
            Err(ColorError::YellowOutOfRange(y))
        } else if k > SCALE || k < 0 {
            Err(ColorError::BlackOutOfRange(k))
        } else {
            Ok(Color {
                r: cmyk_channel_value(c, k),
                g: cmyk_channel_value(m, k),
                b: cmyk_channel_value(y, k),
            })
        }
    }

    /// Construct from an HSL triple (hue in micro-degrees, saturation and
    /// lightness in micro-units), validated in that order; the channels are
    /// the standard sextant selection, per [`hsl_channels`].
    pub fn from_hsl(h: i64, s: i64, l: i64) -> (res: Result<Color, ColorError>)
        ensures
            match hsl_range_err(h, s, l) {
                Some(e) => res == Err::<Color, ColorError>(e),
                None => res matches Ok(col) && col.wf()
                    && col.red() == hsl_channels(h, s, l).0
                    && col.green() == hsl_channels(h, s, l).1
                    && col.blue() == hsl_channels(h, s, l).2,
            },
    {
        if h > HUE_MAX || h < 0 {
            Err(ColorError::HueOutOfRange(h))
        } else if s > SCALE || s < 0 {
            Err(ColorError::SaturationOutOfRange(s))
        } else if l > SCALE || l < 0 {
            Err(ColorError::LightnessOutOfRange(l))
        } else {
            let c = hsl_chroma_value(s, l);
            proof {
                lemma_hsl_offset(c as int, l as int);
            }
            let m: i64 = l - c / 2;
            Ok(build_sextant(h, c, m))
        }
    }

    /// Construct from an HSV triple (hue in micro-degrees, saturation and
    /// value in micro-units), validated in that order; the channels are the
    /// standard sextant selection, per [`hsv_channels`].
    pub fn from_hsv(h: i64, s: i64, v: i64) -> (res: Result<Color, ColorError>)
        ensures
            match hsv_range_err(h, s, v) {
                Some(e) => res == Err::<Color, ColorError>(e),
                None => res matches Ok(col) && col.wf()
                    && col.red() == hsv_channels(h, s, v).0
                    && col.green() == hsv_channels(h, s, v).1
                    && col.blue() == hsv_channels(h, s, v).2,
            },
    {
        if h > HUE_MAX || h < 0 {
            Err(ColorError::HueOutOfRange(h))
        } else if s > SCALE || s < 0 {
            Err(ColorError::SaturationOutOfRange(s))
        } else if v > SCALE || v < 0 {
            Err(ColorError::ValueOutOfRange(v))
        } else {
            let c = scaled_ratio(v, s, SCALE);
            let m: i64 = v - c;
            Ok(build_sextant(h, c, m))
        }
    }

    /// The HSL rendering of the color: hue in micro-degrees, wrapped into
    /// `[0, 360)`, saturation and lightness in micro-units.
    pub fn to_hsl(&self) -> (res: (i64, i64, i64))
        requires
            self.wf(),
        ensures
            res.0 == hue_of(norm(self.red()), norm(self.green()), norm(self.blue())),
            res.1 == hsl_sat_of(norm(self.red()), norm(self.green()), norm(self.blue())),
            res.2 == light_of(norm(self.red()), norm(self.green()), norm(self.blue())),
            0 <= res.0 < HUE_MAX,
            0 <= res.1 <= SCALE,
            0 <= res.2 <= SCALE,
    {
        let rn = norm_value(self.r);
        let gn = norm_value(self.g);
        let bn = norm_value(self.b);
        let h = hue_value(rn, gn, bn);
        let cmax: i64 = if rn >= gn && rn >= bn {
            rn
        } else if gn >= bn {
            gn
        } else {
            bn
        };
        let cmin: i64 = if rn <= gn && rn <= bn {
            rn
        } else if gn <= bn {
            gn
        } else {
            bn
        };
        let delta: i64 = cmax - cmin;
        proof {
            lemma_div_pos_is_pos(cmax + cmin, 2);
            lemma_div_is_ordered(cmax + cmin, 2 * SCALE, 2);
        }
        let light: i64 = (cmax + cmin) / 2;
        let sat: i64 = if delta == 0 {
            0
        } else {
            let sum: i64 = cmax + cmin;
            if sum <= SCALE {
                scaled_ratio(SCALE, delta, sum)
            } else {
                scaled_ratio(SCALE, delta, 2 * SCALE - sum)
            }
        };
        (h, sat, light)
    }

    /// The HSV rendering of the color: hue in micro-degrees, wrapped into
    /// `[0, 360)`, saturation and value in micro-units.
    pub fn to_hsv(&self) -> (res: (i64, i64, i64))
        requires
            self.wf(),
        ensures
            res.0 == hue_of(norm(self.red()), norm(self.green()), norm(self.blue())),
            res.1 == hsv_sat_of(norm(self.red()), norm(self.green()), norm(self.blue())),
            res.2 == max3(norm(self.red()), norm(self.green()), norm(self.blue())),
            0 <= res.0 < HUE_MAX,
            0 <= res.1 <= SCALE,
            0 <= res.2 <= SCALE,
    {
        let rn = norm_value(self.r);
        let gn = norm_value(self.g);
        let bn = norm_value(self.b);
        let h = hue_value(rn, gn, bn);
        let cmax: i64 = if rn >= gn && rn >= bn {
            rn
        } else if gn >= bn {
            gn
        } else {
            bn
        };
        let cmin: i64 = if rn <= gn && rn <= bn {
            rn
        } else if gn <= bn {
            gn
        } else {
            bn
        };
        let sat: i64 = if cmax == 0 {
            0
        } else {
            scaled_ratio(SCALE, cmax - cmin, cmax)
        };
        (h, sat, cmax)
    }

    /// The CMYK rendering of the color, each component in micro-units; pure
    /// black yields `(0, 0, 0, 1)` rather than a division by zero.
    pub fn to_cmyk(&self) -> (res: (i64, i64, i64, i64))
        requires
            self.wf(),
        ensures
            res.0 == cmyk_of(norm(self.red()), norm(self.green()), norm(self.blue())).0,
            res.1 == cmyk_of(norm(self.red()), norm(self.green()), norm(self.blue())).1,
            res.2 == cmyk_of(norm(self.red()), norm(self.green()), norm(self.blue())).2,
            res.3 == cmyk_of(norm(self.red()), norm(self.green()), norm(self.blue())).3,
            0 <= res.0 <= SCALE,
            0 <= res.1 <= SCALE,
            0 <= res.2 <= SCALE,
            0 <= res.3 <= SCALE,
    {
        let rn = norm_value(self.r);
        let gn = norm_value(self.g);
        let bn = norm_value(self.b);
        let cmax: i64 = if rn >= gn && rn >= bn {
            rn
        } else if gn >= bn {
            gn
        } else {
            bn
        };
        if cmax == 0 {
            (0, 0, 0, SCALE)
        } else {
            (
                scaled_ratio(SCALE, cmax - rn, cmax),
                scaled_ratio(SCALE, cmax - gn, cmax),
                scaled_ratio(SCALE, cmax - bn, cmax),
                SCALE - cmax,
            )
        }
    }

    /// The greyscale reduction: every channel becomes the truncated average
    /// of the three.
    pub fn greyscale(&self) -> (res: (i64, i64, i64))
        requires
            self.wf(),
        ensures
            res.0 == (self.red() + self.green() + self.blue()) / 3,
            res.1 == res.0,
            res.2 == res.0,
            0 <= res.0 <= CHAN_MAX,
    {
        proof {
            lemma_div_pos_is_pos(self.red() + self.green() + self.blue(), 3);
            lemma_div_is_ordered(self.red() + self.green() + self.blue(), 3 * CHAN_MAX, 3);
        }
        let avg: i64 = (self.r + self.g + self.b) / 3;
        (avg, avg, avg)
    }
}

/// The first RGB field out of `[0, 255]` whole units, checked in the order
/// red, green, blue; `None` when all three are in range.
pub open spec fn rgb_range_err(r: i64, g: i64, b: i64) -> Option<ColorError> {
    if r > CHAN_MAX || r < 0 {
        Some(ColorError::RedOutOfRange(r))
    } else if g > CHAN_MAX || g < 0 {
        Some(ColorError::GreenOutOfRange(g))
    } else if b > CHAN_MAX || b < 0 {
        Some(ColorError::BlueOutOfRange(b))
    } else {
        None
    }
}

/// The first CMYK field out of `[0, 1]` whole units, checked in the order
/// cyan, magenta, yellow, black; `None` when all four are in range.
pub open spec fn cmyk_range_err(c: i64, m: i64, y: i64, k: i64) -> Option<ColorError> {
    if c > SCALE || c < 0 {
        Some(ColorError::CyanOutOfRange(c))
    } else if m > SCALE || m < 0 {
        Some(ColorError::MagentaOutOfRange(m))
    } else if y > SCALE || y < 0 {
        Some(ColorError::YellowOutOfRange(y))
    } else if k > SCALE || k < 0 {
        Some(ColorError::BlackOutOfRange(k))
    } else {
        None
    }
}

/// A channel produced from one CMYK component and the black component:
/// `255 * (1 - comp) * (1 - k)` in whole units, in micro-units with the
/// final division truncating.
pub open spec fn cmyk_channel(comp: i64, k: i64) -> int {
    255 * (SCALE - comp) * (SCALE - k) / (SCALE as int)
}

/// The first HSL field out of its domain, checked in the order hue
/// (`[0, 360]` degrees), saturation (`[0, 1]`), lightness (`[0, 1]`);
/// `None` when all three are in range.
pub open spec fn hsl_range_err(h: i64, s: i64, l: i64) -> Option<ColorError> {
    if h > HUE_MAX || h < 0 {
        Some(ColorError::HueOutOfRange(h))
    } else if s > SCALE || s < 0 {
        Some(ColorError::SaturationOutOfRange(s))
    } else if l > SCALE || l < 0 {
        Some(ColorError::LightnessOutOfRange(l))
    } else {
        None
    }
}

/// The first HSV field out of its domain, checked in the order hue
/// (`[0, 360]` degrees), saturation (`[0, 1]`), value (`[0, 1]`);
/// `None` when all three are in range.
pub open spec fn hsv_range_err(h: i64, s: i64, v: i64) -> Option<ColorError> {
    if h > HUE_MAX || h < 0 {
        Some(ColorError::HueOutOfRange(h))
    } else if s > SCALE || s < 0 {
        Some(ColorError::SaturationOutOfRange(s))
    } else if v > SCALE || v < 0 {
        Some(ColorError::ValueOutOfRange(v))
    } else {
        None
    }
}

/// HSL chroma `(1 - |2l - 1|) * s` in whole units, truncating.
pub open spec fn hsl_chroma(s: i64, l: i64) -> int {
    (SCALE - abs(2 * l - SCALE)) * s / (SCALE as int)
}

/// HSV chroma `v * s` in whole units, truncating.
pub open spec fn hsv_chroma(s: i64, v: i64) -> int {
    v * s / (SCALE as int)
}

/// The triangular factor `1 - |((h / 60) mod 2) - 1|` of the secondary
/// component, scaled by one sextant: it rises from 0 to `SEXTANT` over each
/// even sextant and falls back over each odd one.
pub open spec fn hue_offset(h: i64) -> int {
    SEXTANT - abs((h as int) % (2 * (SEXTANT as int)) - SEXTANT)
}

/// The secondary component `x = c * (1 - |((h / 60) mod 2) - 1|)`, truncating.
pub open spec fn hue_x(h: i64, c: int) -> int {
    c * hue_offset(h) / (SEXTANT as int)
}

/// The pre-offset components `(c, x, 0)` permuted by the 60-degree sextant
/// the hue falls in. A hue of exactly 360 degrees is out of every half-open
/// sextant; it is wrapped into the last one, where the secondary component
/// vanishes, so it yields the same channels as a hue of 0.
pub open spec fn sextant_rgb(h: i64, c: int, x: int) -> (int, int, int) {
    if h < SEXTANT {
        (c, x, 0)
    } else if h < 2 * SEXTANT {
        (x, c, 0)
    } else if h < 3 * SEXTANT {
        (0, c, x)
    } else if h < 4 * SEXTANT {
        (0, x, c)
    } else if h < 5 * SEXTANT {
        (x, 0, c)
    } else {
        (c, 0, x)
    }
}

/// The channels built from a hue, a chroma and an offset `m`: each pre-offset
/// component plus `m`, brought from `[0, 1]` units to `[0, 255]` units.
pub open spec fn offset_channels(h: i64, c: int, m: int) -> (int, int, int) {
    let x = hue_x(h, c);
    let t = sextant_rgb(h, c, x);
    ((t.0 + m) * 255, (t.1 + m) * 255, (t.2 + m) * 255)
}

/// The channels an HSL triple constructs: chroma `(1 - |2l - 1|) * s`,
/// offset `m = l - c / 2`.
pub open spec fn hsl_channels(h: i64, s: i64, l: i64) -> (int, int, int) {
    offset_channels(h, hsl_chroma(s, l), l - hsl_chroma(s, l) / 2)
}

/// The channels an HSV triple constructs: chroma `v * s`, offset `m = v - c`.
pub open spec fn hsv_channels(h: i64, s: i64, v: i64) -> (int, int, int) {
    offset_channels(h, hsv_chroma(s, v), v - hsv_chroma(s, v))
}

/// A channel normalized from `[0, 255]` whole units to `[0, 1]` whole units,
/// truncating.
pub open spec fn norm(ch: int) -> int {
    ch / 255
}

/// The largest of three values.
pub open spec fn max3(a: int, b: int, c: int) -> int {
    if a >= b && a >= c {
        a
    } else if b >= c {
        b
    } else {
        c
    }
}

/// The smallest of three values.
pub open spec fn min3(a: int, b: int, c: int) -> int {
    if a <= b && a <= c {
        a
    } else if b <= c {
        b
    } else {
        c
    }
}

/// The hue of normalized channels, in micro-degrees.
///
/// This is the usual piecewise formula: 0 where the channels are equal, and
/// otherwise `60 * (((g - b) / delta) mod 6) mod 360` (re-adding 360 when
/// negative), `60 * ((b - r) / delta + 2)` or `60 * ((r - g) / delta + 4)`,
/// by which channel attains the maximum. The division of each nonnegative
/// ratio's magnitude truncates; the mod operations never bite because each
/// branch already lands in its own 120-degree arc.
pub open spec fn hue_of(rn: int, gn: int, bn: int) -> int {
    let cmax = max3(rn, gn, bn);
    let cmin = min3(rn, gn, bn);
    let delta = cmax - cmin;
    if delta == 0 {
        0
    } else if cmax == rn {
        if gn >= bn {
            SEXTANT * (gn - bn) / delta
        } else {
            HUE_MAX - SEXTANT * (bn - gn) / delta
        }
    } else if cmax == gn {
        if bn >= rn {
            2 * SEXTANT + SEXTANT * (bn - rn) / delta
        } else {
            2 * SEXTANT - SEXTANT * (rn - bn) / delta
        }
    } else {
        if rn >= gn {
            4 * SEXTANT + SEXTANT * (rn - gn) / delta
        } else {
            4 * SEXTANT - SEXTANT * (gn - rn) / delta
        }
    }
}

/// The lightness of normalized channels: the midpoint of the extremes,
/// truncating.
pub open spec fn light_of(rn: int, gn: int, bn: int) -> int {
    (max3(rn, gn, bn) + min3(rn, gn, bn)) / 2
}

/// The HSL saturation of normalized channels: 0 where the channels are
/// equal, else `delta / (1 - |2l - 1|)` with `l` the exact, untruncated
/// midpoint, so the denominator is `cmax + cmin` below one whole unit and
/// `2 - (cmax + cmin)` above it.
pub open spec fn hsl_sat_of(rn: int, gn: int, bn: int) -> int {
    let cmax = max3(rn, gn, bn);
    let cmin = min3(rn, gn, bn);
    let delta = cmax - cmin;
    if delta == 0 {
        0
    } else {
        let sum = cmax + cmin;
        if sum <= SCALE {
            delta * SCALE / sum
        } else {
            delta * SCALE / (2 * SCALE - sum)
        }
    }
}

/// The HSV saturation of normalized channels: 0 for black, else
/// `delta / cmax`, truncating.
pub open spec fn hsv_sat_of(rn: int, gn: int, bn: int) -> int {
    let cmax = max3(rn, gn, bn);
    let cmin = min3(rn, gn, bn);
    if cmax == 0 {
        0
    } else {
        (cmax - cmin) * SCALE / cmax
    }
}

/// The CMYK components of normalized channels: `k = 1 - cmax`, and each of
/// cyan, magenta, yellow is `(cmax - channel) / cmax`, truncating. For pure
/// black (`cmax = 0`) the quotients are defined as 0 rather than left to a
/// division by zero.
pub open spec fn cmyk_of(rn: int, gn: int, bn: int) -> (int, int, int, int) {
    let cmax = max3(rn, gn, bn);
    if cmax == 0 {
        (0, 0, 0, SCALE as int)
    } else {
        (
            (cmax - rn) * SCALE / cmax,
            (cmax - gn) * SCALE / cmax,
            (cmax - bn) * SCALE / cmax,
            SCALE - cmax,
        )
    }
}

/// Computes [`cmyk_channel`] in machine arithmetic.
fn cmyk_channel_value(comp: i64, k: i64) -> (v: i64)
    requires
        0 <= comp <= SCALE,
        0 <= k <= SCALE,
    ensures
        v == cmyk_channel(comp, k),
        0 <= v <= CHAN_MAX,
{
    proof {
        assert(0 <= 255 * (SCALE - comp) * (SCALE - k) <= 255 * 1_000_000 * 1_000_000)
            by (nonlinear_arith)
            requires
                0 <= comp <= 1_000_000,
                0 <= k <= 1_000_000,
                SCALE == 1_000_000,
        ;
        lemma_div_pos_is_pos(255 * (SCALE - comp) * (SCALE - k), SCALE as int);
        lemma_div_is_ordered(
            255 * (SCALE - comp) * (SCALE - k),
            255int * 1_000_000 * 1_000_000,
            SCALE as int,
        );
    }
    255 * (SCALE - comp) * (SCALE - k) / SCALE
}

/// Computes `f * num / den` for a nonnegative ratio `num / den` at most 1,
/// so the result lies in `[0, f]`; it is at least 1 as soon as the numerator
/// of the product, `f * num`, reaches the denominator.
fn scaled_ratio(f: i64, num: i64, den: i64) -> (q: i64)
    requires
        0 <= f <= SEXTANT,
        0 < den <= SEXTANT,
        0 <= num <= den,
    ensures
        q == (f as int) * (num as int) / (den as int),
        0 <= q <= f,
        1 <= num && den <= f ==> 1 <= q,
{
    proof {
        lemma_mul_nonnegative(f as int, num as int);
        lemma_mul_upper_bound(f as int, SEXTANT as int, num as int, SEXTANT as int);
        if f == 0 {
            lemma_div_of0(den as int);
        } else {
            lemma_mul_left_inequality(f as int, num as int, den as int);
            lemma_div_is_ordered(f * num, f * den, den as int);
            lemma_div_multiples_vanish(f as int, den as int);
        }
        lemma_div_pos_is_pos(f * num, den as int);
        if 1 <= num && den <= f {
            lemma_mul_left_inequality(f as int, 1, num as int);
            lemma_div_is_ordered(den as int, f * num, den as int);
            lemma_div_by_self(den as int);
        }
    }
    f * num / den
}

/// Computes [`hue_x`] in machine arithmetic.
fn hue_x_value(h: i64, c: i64) -> (x: i64)
    requires
        0 <= h <= HUE_MAX,
        0 <= c <= SCALE,
    ensures
        x == hue_x(h, c as int),
        0 <= x <= c,
{
    proof {
        lemma_mod_bound(h as int, 2 * SEXTANT);
    }
    let t: i64 = h % (2 * SEXTANT);
    let d: i64 = if t >= SEXTANT {
        t - SEXTANT
    } else {
        SEXTANT - t
    };
    scaled_ratio(c, SEXTANT - d, SEXTANT)
}

/// Builds the color of a hue, a chroma and an offset, per
/// [`offset_channels`].
fn build_sextant(h: i64, c: i64, m: i64) -> (col: Color)
    requires
        0 <= h <= HUE_MAX,
        0 <= c <= SCALE,
        0 <= m,
        c + m <= SCALE,
    ensures
        col.wf(),
        col.red() == offset_channels(h, c as int, m as int).0,
        col.green() == offset_channels(h, c as int, m as int).1,
        col.blue() == offset_channels(h, c as int, m as int).2,
{
    let x = hue_x_value(h, c);
    let (cr, cg, cb): (i64, i64, i64) = if h < SEXTANT {
        (c, x, 0)
    } else if h < 2 * SEXTANT {
        (x, c, 0)
    } else if h < 3 * SEXTANT {
        (0, c, x)
    } else if h < 4 * SEXTANT {
        (0, x, c)
    } else if h < 5 * SEXTANT {
        (x, 0, c)
    } else {
        (c, 0, x)
    };
    Color { r: (cr + m) * 255, g: (cg + m) * 255, b: (cb + m) * 255 }
}

/// Establishes the bounds of the HSL offset `m = l - c / 2`: it is
/// nonnegative and keeps `c + m` within one whole unit, because the chroma
/// never exceeds `2l` nor `2(1 - l)`.
proof fn lemma_hsl_offset(c: int, l: int)
    requires
        0 <= c,
        c <= 2 * l,
        c <= 2 * (SCALE - l),
    ensures
        0 <= l - c / 2,
        c + (l - c / 2) <= SCALE,
{
    lemma_fundamental_div_mod(c, 2);
    lemma_mod_bound(c, 2);
}

/// Computes [`hsl_chroma`] in machine arithmetic, with the bounds
/// [`lemma_hsl_offset`] needs.
fn hsl_chroma_value(s: i64, l: i64) -> (c: i64)
    requires
        0 <= s <= SCALE,
        0 <= l <= SCALE,
    ensures
        c == hsl_chroma(s, l),
        0 <= c,
        c <= 2 * l,
        c <= 2 * (SCALE - l),
{
    let a: i64 = if 2 * l >= SCALE {
        2 * l - SCALE
    } else {
        SCALE - 2 * l
    };
    scaled_ratio(SCALE - a, s, SCALE)
}

/// Computes the normalization of a channel to `[0, 1]` whole units.
fn norm_value(ch: i64) -> (n: i64)
    requires
        0 <= ch <= CHAN_MAX,
    ensures
        n == norm(ch as int),
        0 <= n <= SCALE,
{
    proof {
        lemma_div_pos_is_pos(ch as int, 255);
        lemma_div_is_ordered(ch as int, CHAN_MAX as int, 255);
    }
    ch / 255
}

/// Computes [`hue_of`] in machine arithmetic; the result is wrapped into
/// `[0, 360)` degrees.
fn hue_value(rn: i64, gn: i64, bn: i64) -> (h: i64)
    requires
        0 <= rn <= SCALE,
        0 <= gn <= SCALE,
        0 <= bn <= SCALE,
    ensures
        h == hue_of(rn as int, gn as int, bn as int),
        0 <= h < HUE_MAX,
{
    let cmax: i64 = if rn >= gn && rn >= bn {
        rn
    } else if gn >= bn {
        gn
    } else {
        bn
    };
    let cmin: i64 = if rn <= gn && rn <= bn {
        rn
    } else if gn <= bn {
        gn
    } else {
        bn
    };
    let delta: i64 = cmax - cmin;
    if delta == 0 {
        0
    } else if cmax == rn {
        if gn >= bn {
            scaled_ratio(SEXTANT, gn - bn, delta)
        } else {
            HUE_MAX - scaled_ratio(SEXTANT, bn - gn, delta)
        }
    } else if cmax == gn {
        if bn >= rn {
            2 * SEXTANT + scaled_ratio(SEXTANT, bn - rn, delta)
        } else {
            2 * SEXTANT - scaled_ratio(SEXTANT, rn - bn, delta)
        }
    } else {
        if rn >= gn {
            4 * SEXTANT + scaled_ratio(SEXTANT, rn - gn, delta)
        } else {
            4 * SEXTANT - scaled_ratio(SEXTANT, gn - rn, delta)
        }
    }
}

} // verus!
