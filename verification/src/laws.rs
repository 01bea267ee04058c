//! The library's round-trip laws, proved once and for all inputs.

use vstd::prelude::*;
use vstd::arithmetic::div_mod::{
    lemma_div_by_multiple, lemma_div_denominator, lemma_div_is_ordered,
    lemma_div_is_ordered_by_denominator, lemma_div_multiples_vanish,
    lemma_div_multiples_vanish_fancy, lemma_div_multiples_vanish_quotient, lemma_div_pos_is_pos,
    lemma_fundamental_div_mod, lemma_fundamental_div_mod_converse, lemma_mod_bound,
};
use vstd::arithmetic::mul::{lemma_mul_inequality, lemma_mul_nonnegative};
use vstd::math::abs;
use crate::color::{
    cmyk_channel, cmyk_of, hsl_channels, hsl_chroma, hsl_sat_of, hue_of, hue_offset, hue_x,
    light_of, max3, min3, norm, sextant_rgb,
};
use crate::color::Color;
use crate::hex::{
    byte_of, hex_char_of, hex_decode_err, hex_digits_of, hex_seq_val, is_lower_hex_digit,
    lemma_hex_digit_round_trip, spec_to_hex,
};
use crate::{CHAN_MAX, HUE_MAX, SCALE, SEXTANT};

verus! {

/// Encoding any well-formed color gives six lowercase hexadecimal digits,
/// and decoding that string recovers exactly the byte-truncated channels:
/// the hex round trip loses nothing beyond the truncation to whole bytes.
pub proof fn lemma_hex_round_trip(c: Color)
    requires
        c.wf(),
    ensures
        spec_to_hex(c).len() == 6,
        forall|i: int|
            0 <= i < spec_to_hex(c).len() ==> is_lower_hex_digit(#[trigger] spec_to_hex(c)[i]),
        hex_decode_err(spec_to_hex(c)) is None,
        hex_seq_val(hex_digits_of(spec_to_hex(c))) / 0x10000 == byte_of(c.red()),
        hex_seq_val(hex_digits_of(spec_to_hex(c))) / 0x100 % 0x100 == byte_of(c.green()),
        hex_seq_val(hex_digits_of(spec_to_hex(c))) % 0x100 == byte_of(c.blue()),
{
    let s = spec_to_hex(c);
    let br = byte_of(c.red());
    let bg = byte_of(c.green());
    let bb = byte_of(c.blue());
    lemma_div_pos_is_pos(c.red(), SCALE as int);
    lemma_div_is_ordered(c.red(), CHAN_MAX as int, SCALE as int);
    lemma_div_pos_is_pos(c.green(), SCALE as int);
    lemma_div_is_ordered(c.green(), CHAN_MAX as int, SCALE as int);
    lemma_div_pos_is_pos(c.blue(), SCALE as int);
    lemma_div_is_ordered(c.blue(), CHAN_MAX as int, SCALE as int);
    let d0 = br / 16;
    let d1 = br % 16;
    let d2 = bg / 16;
    let d3 = bg % 16;
    let d4 = bb / 16;
    let d5 = bb % 16;
    lemma_div_pos_is_pos(br, 16);
    lemma_div_is_ordered(br, 255, 16);
    lemma_mod_bound(br, 16);
    lemma_div_pos_is_pos(bg, 16);
    lemma_div_is_ordered(bg, 255, 16);
    lemma_mod_bound(bg, 16);
    lemma_div_pos_is_pos(bb, 16);
    lemma_div_is_ordered(bb, 255, 16);
    lemma_mod_bound(bb, 16);
    lemma_hex_digit_round_trip(d0);
    lemma_hex_digit_round_trip(d1);
    lemma_hex_digit_round_trip(d2);
    lemma_hex_digit_round_trip(d3);
    lemma_hex_digit_round_trip(d4);
    lemma_hex_digit_round_trip(d5);
    assert forall|i: int| 0 <= i < s.len() implies is_lower_hex_digit(#[trigger] s[i]) by {
        if i == 0 {
        } else if i == 1 {
        } else if i == 2 {
        } else if i == 3 {
        } else if i == 4 {
        } else {
            assert(i == 5);
        }
    }
    let t1 = seq![hex_char_of(d0)];
    let t2 = seq![hex_char_of(d0), hex_char_of(d1)];
    let t3 = seq![hex_char_of(d0), hex_char_of(d1), hex_char_of(d2)];
    let t4 = seq![hex_char_of(d0), hex_char_of(d1), hex_char_of(d2), hex_char_of(d3)];
    let t5 = seq![
        hex_char_of(d0),
        hex_char_of(d1),
        hex_char_of(d2),
        hex_char_of(d3),
        hex_char_of(d4),
    ];
    assert(t1.drop_last() =~= Seq::<char>::empty());
    assert(t2.drop_last() =~= t1);
    assert(t3.drop_last() =~= t2);
    assert(t4.drop_last() =~= t3);
    assert(t5.drop_last() =~= t4);
    assert(s.drop_last() =~= t5);
    assert(hex_seq_val(Seq::<char>::empty()) == 0);
    assert(hex_seq_val(t1) == d0);
    assert(hex_seq_val(t2) == d0 * 16 + d1);
    assert(hex_seq_val(t3) == (d0 * 16 + d1) * 16 + d2);
    assert(hex_seq_val(t4) == ((d0 * 16 + d1) * 16 + d2) * 16 + d3);
    assert(hex_seq_val(t5) == (((d0 * 16 + d1) * 16 + d2) * 16 + d3) * 16 + d4);
    assert(hex_seq_val(s) == ((((d0 * 16 + d1) * 16 + d2) * 16 + d3) * 16 + d4) * 16 + d5);
    lemma_fundamental_div_mod(br, 16);
    lemma_fundamental_div_mod(bg, 16);
    lemma_fundamental_div_mod(bb, 16);
    let v = hex_seq_val(s);
    assert(v == br * 0x10000 + bg * 0x100 + bb);
    assert(hex_digits_of(s) == s);
    lemma_fundamental_div_mod_converse(v, 0x10000, br, bg * 0x100 + bb);
    lemma_fundamental_div_mod_converse(v, 0x100, br * 0x100 + bg, bb);
    lemma_fundamental_div_mod_converse(br * 0x100 + bg, 0x100, br, bg);
}

/// One CMYK component sent through its channel and recovered: with `d` the
/// remaining brightness `1 - k`, the channel normalizes back to
/// `(1 - ci) * d` and the recovered component overshoots `ci` by at most
/// the fixed-point grain `(1 - 1/SCALE) / d`.
proof fn lemma_cmyk_component(ci: i64, k: i64)
    requires
        0 <= ci <= SCALE,
        0 <= k < SCALE,
    ensures
        norm(cmyk_channel(ci, k)) == (SCALE - ci) * (SCALE - k) / (SCALE as int),
        0 <= norm(cmyk_channel(ci, k)) <= SCALE - k,
        ci == 0 ==> norm(cmyk_channel(ci, k)) == SCALE - k,
        ci <= (SCALE - k - norm(cmyk_channel(ci, k))) * (SCALE as int) / (SCALE - k),
        (SCALE - k - norm(cmyk_channel(ci, k))) * (SCALE as int) / (SCALE - k) <= ci + (SCALE
            - 1) / (SCALE - k),
{
    let m = SCALE as int;
    let d = m - k;
    let p = (m - ci) * d;
    assert(255 * (m - ci) * d == 255 * ((m - ci) * d)) by (nonlinear_arith);
    lemma_mul_nonnegative(m - ci, d);
    lemma_div_pos_is_pos(255 * p, m);
    lemma_div_denominator(255 * p, m, 255);
    assert(cmyk_channel(ci, k) / 255 == (255 * p) / (m * 255));
    lemma_div_multiples_vanish_quotient(255, p, m);
    assert((255 * p) / (255 * m) == p / m);
    assert(m * 255 == 255 * m);
    let nc = p / m;
    assert(norm(cmyk_channel(ci, k)) == nc);
    lemma_div_pos_is_pos(p, m);
    lemma_mul_inequality(m - ci, m, d);
    lemma_div_is_ordered(p, m * d, m);
    lemma_div_multiples_vanish(d, m);
    assert(nc <= d);
    if ci == 0 {
        assert(p == m * d) by (nonlinear_arith)
            requires
                p == (m - 0) * d,
        ;
        assert(nc == d);
    }
    lemma_fundamental_div_mod(p, m);
    lemma_mod_bound(p, m);
    let rho = p % m;
    assert((d - nc) * m == d * ci + rho) by (nonlinear_arith)
        requires
            p == m * nc + rho,
            p == (m - ci) * d,
    ;
    lemma_fundamental_div_mod(rho, d);
    lemma_mod_bound(rho, d);
    assert(d * ci + rho == (ci + rho / d) * d + rho % d) by (nonlinear_arith)
        requires
            rho == d * (rho / d) + rho % d,
    ;
    lemma_fundamental_div_mod_converse(d * ci + rho, d, ci + rho / d, rho % d);
    lemma_div_pos_is_pos(rho, d);
    lemma_div_is_ordered(rho, m - 1, d);
}

/// The CMYK round trip: a color built from a canonical CMYK quadruple (one
/// of cyan, magenta, yellow zero) recovers the black component exactly, and
/// each of the other components up to the fixed-point grain
/// `(1 - 1/SCALE) / (1 - k)`, never undershooting. At `k = 1` (pure black)
/// the quadruple comes back as `(0, 0, 0, 1)`, not a division error.
pub proof fn lemma_cmyk_round_trip(c: i64, m: i64, y: i64, k: i64)
    requires
        0 <= c <= SCALE,
        0 <= m <= SCALE,
        0 <= y <= SCALE,
        0 <= k <= SCALE,
        c == 0 || m == 0 || y == 0,
    ensures
        ({
            let back = cmyk_of(
                norm(cmyk_channel(c, k)),
                norm(cmyk_channel(m, k)),
                norm(cmyk_channel(y, k)),
            );
            &&& back.3 == k
            &&& k < SCALE ==> c <= back.0 <= c + (SCALE - 1) / (SCALE - k)
            &&& k < SCALE ==> m <= back.1 <= m + (SCALE - 1) / (SCALE - k)
            &&& k < SCALE ==> y <= back.2 <= y + (SCALE - 1) / (SCALE - k)
            &&& k == SCALE ==> back.0 == 0 && back.1 == 0 && back.2 == 0
        }),
{
    if k == SCALE {
        assert((SCALE - c) * (SCALE as int - SCALE) == 0) by (nonlinear_arith);
        assert((SCALE - m) * (SCALE as int - SCALE) == 0) by (nonlinear_arith);
        assert((SCALE - y) * (SCALE as int - SCALE) == 0) by (nonlinear_arith);
        assert(cmyk_channel(c, k) == 0);
        assert(cmyk_channel(m, k) == 0);
        assert(cmyk_channel(y, k) == 0);
        assert(norm(0) == 0);
    } else {
        lemma_cmyk_component(c, k);
        lemma_cmyk_component(m, k);
        lemma_cmyk_component(y, k);
        let d = SCALE - k;
        let rn = norm(cmyk_channel(c, k));
        let gn = norm(cmyk_channel(m, k));
        let bn = norm(cmyk_channel(y, k));
        assert(max3(rn, gn, bn) == d);
    }
}

/// The chroma of an HSL pair, bounded by twice the lightness and twice its
/// complement; these bounds keep the offset `m = l - c / 2` a valid channel
/// base.
proof fn lemma_hsl_chroma_bounds(s: i64, l: i64)
    requires
        0 <= s <= SCALE,
        0 <= l <= SCALE,
    ensures
        0 <= hsl_chroma(s, l),
        hsl_chroma(s, l) <= 2 * l,
        hsl_chroma(s, l) <= 2 * (SCALE - l),
{
    let m = SCALE as int;
    let a = abs(2 * l - m);
    lemma_mul_nonnegative(m - a, s as int);
    lemma_div_pos_is_pos((m - a) * s, m);
    lemma_mul_inequality(s as int, m, m - a);
    assert((m - a) * s == s * (m - a)) by (nonlinear_arith);
    assert(m * (m - a) == (m - a) * m) by (nonlinear_arith);
    lemma_div_is_ordered((m - a) * s, (m - a) * m, m);
    lemma_div_multiples_vanish(m - a, m);
    assert((m * (m - a)) / m == m - a);
}

/// The secondary component never exceeds the chroma.
proof fn lemma_hue_x_bounds(h: i64, c: int)
    requires
        0 <= h <= HUE_MAX,
        0 <= c,
    ensures
        0 <= hue_x(h, c) <= c,
{
    let sx = SEXTANT as int;
    lemma_mod_bound(h as int, 2 * sx);
    let off = hue_offset(h);
    assert(0 <= off <= sx);
    lemma_mul_nonnegative(c, off);
    lemma_div_pos_is_pos(c * off, sx);
    lemma_mul_inequality(off, sx, c);
    assert(c * off == off * c) by (nonlinear_arith);
    assert(sx * c == c * sx) by (nonlinear_arith);
    lemma_div_is_ordered(c * off, c * sx, sx);
    lemma_div_multiples_vanish(c, sx);
    assert((sx * c) / sx == c);
}

/// The extreme channels a valid HSL triple constructs: the largest
/// normalized channel is chroma plus offset, the smallest the offset alone,
/// so the chroma itself survives the construction with no loss.
proof fn lemma_hsl_extremes(h: i64, s: i64, l: i64)
    requires
        0 <= h <= HUE_MAX,
        0 <= s <= SCALE,
        0 <= l <= SCALE,
    ensures
        ({
            let ch = hsl_channels(h, s, l);
            let c = hsl_chroma(s, l);
            let m0 = l - c / 2;
            &&& 0 <= c && c <= 2 * l && c <= 2 * (SCALE - l)
            &&& 0 <= m0 && c + m0 <= SCALE
            &&& 0 <= hue_x(h, c) <= c
            &&& norm(ch.0) == sextant_rgb(h, c, hue_x(h, c)).0 + m0
            &&& norm(ch.1) == sextant_rgb(h, c, hue_x(h, c)).1 + m0
            &&& norm(ch.2) == sextant_rgb(h, c, hue_x(h, c)).2 + m0
            &&& max3(norm(ch.0), norm(ch.1), norm(ch.2)) == c + m0
            &&& min3(norm(ch.0), norm(ch.1), norm(ch.2)) == m0
        }),
{
    let c = hsl_chroma(s, l);
    lemma_hsl_chroma_bounds(s, l);
    let x = hue_x(h, c);
    lemma_hue_x_bounds(h, c);
    lemma_fundamental_div_mod(c, 2);
    lemma_mod_bound(c, 2);
    let m0 = l - c / 2;
    let ch = hsl_channels(h, s, l);
    let t = sextant_rgb(h, c, x);
    lemma_div_by_multiple(t.0 + m0, 255);
    lemma_div_by_multiple(t.1 + m0, 255);
    lemma_div_by_multiple(t.2 + m0, 255);
    assert(norm(ch.0) == t.0 + m0);
    assert(norm(ch.1) == t.1 + m0);
    assert(norm(ch.2) == t.2 + m0);
}

/// The HSL round trip recovers the lightness exactly: the channels a valid
/// HSL triple constructs have a lightness (midpoint of the extreme
/// channels) equal to the lightness that built them, with no tolerance at
/// all.
pub proof fn lemma_hsl_lightness_round_trip(h: i64, s: i64, l: i64)
    requires
        0 <= h <= HUE_MAX,
        0 <= s <= SCALE,
        0 <= l <= SCALE,
    ensures
        ({
            let ch = hsl_channels(h, s, l);
            light_of(norm(ch.0), norm(ch.1), norm(ch.2)) == l
        }),
{
    lemma_hsl_extremes(h, s, l);
    let c = hsl_chroma(s, l);
    let m0 = l - c / 2;
    let ch = hsl_channels(h, s, l);
    lemma_fundamental_div_mod(c, 2);
    lemma_mod_bound(c, 2);
    lemma_fundamental_div_mod_converse((c + m0) + m0, 2, m0 + c / 2, c % 2);
    assert(light_of(norm(ch.0), norm(ch.1), norm(ch.2)) == m0 + c / 2);
}

/// A grey HSL triple (saturation zero) has no hue to recover: the channels
/// it constructs are all equal, and reading them back gives hue 0,
/// saturation 0 and the original lightness.
pub proof fn lemma_hsl_grey_round_trip(h: i64, l: i64)
    requires
        0 <= h <= HUE_MAX,
        0 <= l <= SCALE,
    ensures
        ({
            let ch = hsl_channels(h, 0, l);
            &&& norm(ch.0) == l && norm(ch.1) == l && norm(ch.2) == l
            &&& hue_of(norm(ch.0), norm(ch.1), norm(ch.2)) == 0
            &&& hsl_sat_of(norm(ch.0), norm(ch.1), norm(ch.2)) == 0
            &&& light_of(norm(ch.0), norm(ch.1), norm(ch.2)) == l
        }),
{
    let m = SCALE as int;
    let a = abs(2 * l - m);
    assert((m - a) * 0 == 0) by (nonlinear_arith);
    assert(hsl_chroma(0, l) == 0int / m);
    assert(hsl_chroma(0, l) == 0);
    let x = hue_x(h, 0);
    lemma_hue_x_bounds(h, 0);
    assert(x == 0);
    let ch = hsl_channels(h, 0, l);
    lemma_div_by_multiple(l as int, 255);
    assert(norm(ch.0) == l);
    assert(norm(ch.1) == l);
    assert(norm(ch.2) == l);
    lemma_div_multiples_vanish(l as int, 2);
    assert((l + l) == 2 * l);
    assert(light_of(l as int, l as int, l as int) == l);
}

/// The HSL round trip recovers the saturation up to the fixed-point grain:
/// for lightness strictly between black and white, the saturation read back
/// from the constructed channels differs from the one given by at most
/// about `2 / (1 - |2l - 1|)` whole units' worth of micro-units — the grain
/// the chroma truncation leaves, which widens as the lightness approaches
/// an extreme.
pub proof fn lemma_hsl_saturation_round_trip(h: i64, s: i64, l: i64)
    requires
        0 <= h <= HUE_MAX,
        0 <= s <= SCALE,
        1 <= l <= SCALE - 1,
    ensures
        ({
            let ch = hsl_channels(h, s, l);
            let sp = hsl_sat_of(norm(ch.0), norm(ch.1), norm(ch.2));
            let d = SCALE - abs(2 * l - SCALE);
            let grain = 2 * (SCALE as int) / (d - 1) + 2;
            &&& sp - s <= grain
            &&& s - sp <= grain
        }),
{
    lemma_hsl_extremes(h, s, l);
    let ch = hsl_channels(h, s, l);
    let c = hsl_chroma(s, l);
    let m0 = l - c / 2;
    let cmax = max3(norm(ch.0), norm(ch.1), norm(ch.2));
    let cmin = min3(norm(ch.0), norm(ch.1), norm(ch.2));
    let sp = hsl_sat_of(norm(ch.0), norm(ch.1), norm(ch.2));
    let m = SCALE as int;
    let a = abs(2 * l - m);
    let d = m - a;
    assert(2 <= d <= m);
    assert(c == d * s / m);
    lemma_mul_nonnegative(d, s as int);
    lemma_fundamental_div_mod(d * s, m);
    lemma_mod_bound(d * s, m);
    let rho = (d * s) % m;
    assert(c * m == d * s - rho) by (nonlinear_arith)
        requires
            d * s == m * c + rho,
    ;
    let q = 2 * m / (d - 1);
    lemma_fundamental_div_mod(2 * m, d - 1);
    lemma_mod_bound(2 * m, d - 1);
    assert((d - 1) * q >= 2 * m - (d - 2)) by (nonlinear_arith)
        requires
            2 * m == (d - 1) * q + 2 * m % (d - 1),
            0 <= 2 * m % (d - 1) < d - 1,
    ;
    lemma_div_pos_is_pos(2 * m, d - 1);
    let grain = q + 2;
    lemma_fundamental_div_mod(c, 2);
    lemma_mod_bound(c, 2);
    let eps = c % 2;
    let sum = cmax + cmin;
    assert(sum == 2 * l + eps);
    if c == 0 {
        assert(sp == 0);
        assert(d * s == rho);
        lemma_div_multiples_vanish(s as int, d);
        assert(s == (d * s) / d);
        lemma_div_is_ordered(d * s, m - 1, d);
        assert(s <= (m - 1) / d);
        lemma_div_is_ordered_by_denominator(m - 1, d - 1, d);
        lemma_div_is_ordered(m - 1, 2 * m, d - 1);
        assert(s <= grain);
    } else {
        assert(cmax - cmin == c);
        if sum <= m {
            // Below half lightness (or exactly at it with even chroma) the
            // saturation denominator is d + eps.
            let den = sum;
            assert(den == d + eps);
            assert(sp == c * m / den);
            assert(0 < den);
            assert(c * m <= den * s) by (nonlinear_arith)
                requires
                    c * m == d * s - rho,
                    den == d + eps,
                    0 <= rho,
                    0 <= eps,
                    0 <= s,
            ;
            lemma_div_is_ordered(c * m, den * s, den);
            lemma_div_multiples_vanish(s as int, den);
            assert(sp <= s);
            if s - grain >= 0 {
                assert(den * (s - grain) <= c * m) by (nonlinear_arith)
                    requires
                        c * m == d * s - rho,
                        den == d + eps,
                        0 <= eps <= 1,
                        0 <= rho < m,
                        0 <= s <= m,
                        grain == q + 2,
                        (d - 1) * q >= 2 * m - (d - 2),
                        0 <= q,
                        2 <= d,
                ;
                lemma_mul_nonnegative(den, s - grain);
                lemma_div_is_ordered(den * (s - grain), c * m, den);
                lemma_div_multiples_vanish(s - grain, den);
            } else {
                lemma_div_pos_is_pos(c * m, den);
            }
        } else {
            // Above half lightness the saturation denominator is d - eps.
            let den = 2 * m - sum;
            assert(den == d - eps);
            assert(1 <= den);
            assert(sp == c * m / den);
            assert(c * m <= den * (s + grain)) by (nonlinear_arith)
                requires
                    c * m == d * s - rho,
                    den == d - eps,
                    0 <= eps <= 1,
                    0 <= rho < m,
                    0 <= s <= m,
                    grain == q + 2,
                    (d - 1) * q >= 2 * m - (d - 2),
                    0 <= q,
                    2 <= d,
            ;
            lemma_mul_nonnegative(den, s + grain);
            lemma_div_is_ordered(c * m, den * (s + grain), den);
            lemma_div_multiples_vanish(s + grain, den);
            assert(sp <= s + grain);
            if s - grain >= 0 {
                assert(den * (s - grain) <= c * m) by (nonlinear_arith)
                    requires
                        c * m == d * s - rho,
                        den == d - eps,
                        0 <= eps <= 1,
                        0 <= rho < m,
                        0 <= s <= m,
                        grain == q + 2,
                        (d - 1) * q >= 2 * m - (d - 2),
                        0 <= q,
                        2 <= d,
                ;
                lemma_mul_nonnegative(den, s - grain);
                lemma_div_is_ordered(den * (s - grain), c * m, den);
                lemma_div_multiples_vanish(s - grain, den);
            } else {
                lemma_div_pos_is_pos(c * m, den);
            }
        }
    }
}

/// A ratio pushed through the sextant truncation and read back: with
/// `x = c * off / SEXTANT`, the recovery `SEXTANT * x / c` falls short of
/// `off` by at most `(SEXTANT - 1) / c + 1` — the grain the two truncating
/// divisions leave.
proof fn lemma_ratio_recovery(c: int, off: int)
    requires
        1 <= c <= SCALE,
        0 <= off <= SEXTANT,
    ensures
        ({
            let sx = SEXTANT as int;
            let x = c * off / sx;
            let back = sx * x / c;
            &&& 0 <= x <= c
            &&& 0 <= back <= off
            &&& off - back <= (sx - 1) / c + 1
            &&& (x == c ==> off == sx)
            &&& (off == sx ==> x == c && back == sx)
            &&& (x == 0 ==> off <= (sx - 1) / c)
        }),
{
    let sx = SEXTANT as int;
    lemma_mul_nonnegative(c, off);
    lemma_fundamental_div_mod(c * off, sx);
    lemma_mod_bound(c * off, sx);
    let x = c * off / sx;
    let rho = (c * off) % sx;
    lemma_div_pos_is_pos(c * off, sx);
    lemma_mul_inequality(off, sx, c);
    assert(c * off == off * c) by (nonlinear_arith);
    assert(sx * c == c * sx) by (nonlinear_arith);
    lemma_div_is_ordered(c * off, c * sx, sx);
    lemma_div_multiples_vanish(c, sx);
    assert(x <= c);
    assert(sx * x == c * off - rho);
    let q = (rho + c - 1) / c;
    lemma_fundamental_div_mod(rho + c - 1, c);
    lemma_mod_bound(rho + c - 1, c);
    lemma_div_pos_is_pos(rho + c - 1, c);
    assert(0 <= c * q - rho < c) by (nonlinear_arith)
        requires
            rho + c - 1 == c * q + (rho + c - 1) % c,
            0 <= (rho + c - 1) % c < c,
            1 <= c,
    ;
    assert(sx * x == (off - q) * c + (c * q - rho)) by (nonlinear_arith)
        requires
            sx * x == c * off - rho,
    ;
    lemma_fundamental_div_mod_converse(sx * x, c, off - q, c * q - rho);
    assert(sx * x / c == off - q);
    let b3 = (sx - 1) / c + 1;
    lemma_fundamental_div_mod(sx - 1, c);
    lemma_mod_bound(sx - 1, c);
    lemma_div_pos_is_pos(sx - 1, c);
    assert(c * b3 >= sx) by (nonlinear_arith)
        requires
            b3 == (sx - 1) / c + 1,
            sx - 1 == c * ((sx - 1) / c) + (sx - 1) % c,
            0 <= (sx - 1) % c < c,
    ;
    lemma_div_is_ordered(rho + c - 1, c * b3 + (c - 1), c);
    lemma_div_multiples_vanish_fancy(b3, c - 1, c);
    assert(q <= b3);
    if x == c {
        assert(off >= sx) by (nonlinear_arith)
            requires
                sx * c == c * off - rho,
                0 <= rho,
                1 <= c,
        ;
    }
    if off == sx {
        assert(c * off == c * sx);
        assert(x == c);
        lemma_div_multiples_vanish(sx, c);
        assert(sx * x == c * sx);
        assert(sx * x / c == sx);
    }
    if x == 0 {
        lemma_div_multiples_vanish(off, c);
        assert(off == (c * off) / c);
        assert(c * off == rho);
        lemma_div_is_ordered(c * off, sx - 1, c);
    }
}

/// The HSL round trip recovers the hue up to the fixed-point grain: where
/// the chroma is nonzero, the hue read back from the constructed channels
/// differs from the hue given by at most `(SEXTANT - 1) / chroma + 1`
/// micro-degrees — about 60 degrees divided by the chroma — allowing for
/// the wrap of 360 degrees back to 0.
pub proof fn lemma_hsl_hue_round_trip(h: i64, s: i64, l: i64)
    requires
        0 <= h <= HUE_MAX,
        0 <= s <= SCALE,
        0 <= l <= SCALE,
        1 <= hsl_chroma(s, l),
    ensures
        ({
            let ch = hsl_channels(h, s, l);
            let hp = hue_of(norm(ch.0), norm(ch.1), norm(ch.2));
            let tol = (SEXTANT as int - 1) / hsl_chroma(s, l) + 1;
            ||| h - tol <= hp <= h + tol
            ||| h - tol <= hp + HUE_MAX <= h + tol
        }),
{
    lemma_hsl_extremes(h, s, l);
    let ch = hsl_channels(h, s, l);
    let c = hsl_chroma(s, l);
    let m0 = l - c / 2;
    let x = hue_x(h, c);
    let sx = SEXTANT as int;
    let rn = norm(ch.0);
    let gn = norm(ch.1);
    let bn = norm(ch.2);
    let tol = (sx - 1) / c + 1;
    let hp = hue_of(rn, gn, bn);
    assert(c <= SCALE);
    lemma_div_pos_is_pos(sx - 1, c);
    // The offset of the hue within its rising or falling half-arc.
    if h < 2 * sx {
        lemma_fundamental_div_mod_converse(h as int, 2 * sx, 0, h as int);
    } else if h < 4 * sx {
        lemma_fundamental_div_mod_converse(h as int, 2 * sx, 1, h - 2 * sx);
    } else if h < 6 * sx {
        lemma_fundamental_div_mod_converse(h as int, 2 * sx, 2, h - 4 * sx);
    } else {
        lemma_fundamental_div_mod_converse(h as int, 2 * sx, 3, 0);
    }
    let off = hue_offset(h);
    assert(0 <= off <= sx);
    assert(x == c * off / sx);
    lemma_ratio_recovery(c, off);
    let back = sx * x / c;
    if h < sx {
        // (c, x, 0): the largest channel is red and the ratio is x / c.
        assert(off == h);
        assert(hp == sx * (gn - bn) / (rn - m0));
        assert(hp == back);
    } else if h < 2 * sx {
        // (x, c, 0): green is largest unless x == c at the sextant edge.
        assert(off == 2 * sx - h);
        if x == c {
            assert(h == sx);
            lemma_div_multiples_vanish(sx, c);
            assert(c * sx == sx * c) by (nonlinear_arith);
            assert(hp == sx * c / c);
            assert(hp == sx);
        } else if x == 0 {
            assert(sx * 0 == 0) by (nonlinear_arith);
            lemma_div_pos_is_pos(0, c);
            assert(hp == 2 * sx + sx * (bn - rn) / c);
            assert(hp == 2 * sx);
            assert(2 * sx - h <= tol);
        } else {
            assert(hp == 2 * sx - sx * (rn - bn) / c);
            assert(hp == 2 * sx - back);
        }
    } else if h < 3 * sx {
        // (0, c, x): green is largest and the ratio rises with the hue.
        assert(off == h - 2 * sx);
        assert(x < c);
        assert(hp == 2 * sx + sx * (bn - rn) / c);
        assert(hp == 2 * sx + back);
    } else if h < 4 * sx {
        // (0, x, c): blue is largest unless x == c at the sextant edge.
        assert(off == 4 * sx - h);
        if x == c {
            assert(h == 3 * sx);
            lemma_div_multiples_vanish(sx, c);
            assert(c * sx == sx * c) by (nonlinear_arith);
            assert(hp == 2 * sx + sx * (bn - rn) / c);
            assert(hp == 3 * sx);
        } else if x == 0 {
            assert(sx * 0 == 0) by (nonlinear_arith);
            lemma_div_pos_is_pos(0, c);
            assert(hp == 4 * sx + sx * (rn - gn) / c);
            assert(hp == 4 * sx);
            assert(4 * sx - h <= tol);
        } else {
            assert(hp == 4 * sx - sx * (gn - rn) / c);
            assert(hp == 4 * sx - back);
        }
    } else if h < 5 * sx {
        // (x, 0, c): blue is largest and the ratio rises with the hue.
        assert(off == h - 4 * sx);
        assert(x < c);
        assert(hp == 4 * sx + sx * (rn - gn) / c);
        assert(hp == 4 * sx + back);
    } else {
        // (c, 0, x): red is largest again; at the top of the circle the
        // recovered hue wraps to 0.
        assert(off == 6 * sx - h);
        if x == 0 {
            assert(sx * 0 == 0) by (nonlinear_arith);
            lemma_div_pos_is_pos(0, c);
            assert(hp == sx * (gn - bn) / c);
            assert(hp == 0);
            assert(6 * sx - h <= tol);
            assert(h - tol <= hp + HUE_MAX <= h + tol);
        } else {
            assert(hp == HUE_MAX - sx * (bn - gn) / c);
            assert(hp == 6 * sx - back);
        }
    }
}

} // verus!
