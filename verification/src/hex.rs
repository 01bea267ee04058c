//! Hexadecimal encoding and decoding of a color.
//!
//! A color renders as six lowercase hex digits, two per byte-truncated
//! channel, red first. Decoding accepts six digits, optionally prefixed by
//! `#`, in either letter case; a seven-digit string without the prefix is
//! accepted only while the extra high digit leaves the decoded value within
//! three bytes.

use vstd::prelude::*;
use vstd::arithmetic::div_mod::{lemma_div_is_ordered, lemma_div_pos_is_pos, lemma_mod_bound};
use vstd::string::StringExecFns;
use crate::color::Color;
use crate::error::ColorError;
use crate::{CHAN_MAX, SCALE};

verus! {

/// Whether a character is a hexadecimal digit, in either letter case.
pub open spec fn is_hex_digit(c: char) -> bool {
    ||| c == '0' || c == '1' || c == '2' || c == '3' || c == '4'
    ||| c == '5' || c == '6' || c == '7' || c == '8' || c == '9'
    ||| c == 'a' || c == 'b' || c == 'c' || c == 'd' || c == 'e' || c == 'f'
    ||| c == 'A' || c == 'B' || c == 'C' || c == 'D' || c == 'E' || c == 'F'
}

/// Whether a character is a lowercase hexadecimal digit.
pub open spec fn is_lower_hex_digit(c: char) -> bool {
    ||| c == '0' || c == '1' || c == '2' || c == '3' || c == '4'
    ||| c == '5' || c == '6' || c == '7' || c == '8' || c == '9'
    ||| c == 'a' || c == 'b' || c == 'c' || c == 'd' || c == 'e' || c == 'f'
}

/// The value of a hexadecimal digit (0 where the character is no digit).
pub open spec fn hex_val_of(c: char) -> int {
    if c == '0' {
        0
    } else if c == '1' {
        1
    } else if c == '2' {
        2
    } else if c == '3' {
        3
    } else if c == '4' {
        4
    } else if c == '5' {
        5
    } else if c == '6' {
        6
    } else if c == '7' {
        7
    } else if c == '8' {
        8
    } else if c == '9' {
        9
    } else if c == 'a' || c == 'A' {
        10
    } else if c == 'b' || c == 'B' {
        11
    } else if c == 'c' || c == 'C' {
        12
    } else if c == 'd' || c == 'D' {
        13
    } else if c == 'e' || c == 'E' {
        14
    } else if c == 'f' || c == 'F' {
        15
    } else {
        0
    }
}

/// The lowercase character of a hexadecimal digit value in `[0, 16)`.
pub open spec fn hex_char_of(d: int) -> char {
    if d == 0 {
        '0'
    } else if d == 1 {
        '1'
    } else if d == 2 {
        '2'
    } else if d == 3 {
        '3'
    } else if d == 4 {
        '4'
    } else if d == 5 {
        '5'
    } else if d == 6 {
        '6'
    } else if d == 7 {
        '7'
    } else if d == 8 {
        '8'
    } else if d == 9 {
        '9'
    } else if d == 10 {
        'a'
    } else if d == 11 {
        'b'
    } else if d == 12 {
        'c'
    } else if d == 13 {
        'd'
    } else if d == 14 {
        'e'
    } else {
        'f'
    }
}

/// Whether every character of a sequence is a hexadecimal digit.
pub open spec fn all_hex(s: Seq<char>) -> bool {
    forall|i: int| 0 <= i < s.len() ==> is_hex_digit(#[trigger] s[i])
}

/// The big-endian value of a sequence of hexadecimal digits.
pub open spec fn hex_seq_val(s: Seq<char>) -> int
    decreases s.len(),
{
    if s.len() == 0 {
        0
    } else {
        hex_seq_val(s.drop_last()) * 16 + hex_val_of(s.last())
    }
}

/// Sixteen to a power.
pub open spec fn sixteen_to(n: nat) -> int
    decreases n,
{
    if n == 0 {
        1
    } else {
        16 * sixteen_to((n - 1) as nat)
    }
}

/// A digit sequence's value is bounded by sixteen to its length.
pub proof fn lemma_hex_seq_val_bound(s: Seq<char>)
    ensures
        0 <= hex_seq_val(s) < sixteen_to(s.len()),
    decreases s.len(),
{
    if s.len() > 0 {
        lemma_hex_seq_val_bound(s.drop_last());
    }
}

/// Sixteen-to is positive.
pub proof fn lemma_sixteen_to_pos(n: nat)
    ensures
        sixteen_to(n) >= 1,
    decreases n,
{
    if n > 0 {
        lemma_sixteen_to_pos((n - 1) as nat);
    }
}

/// Sixteen-to is monotone in the exponent.
pub proof fn lemma_sixteen_to_le(a: nat, b: nat)
    requires
        a <= b,
    ensures
        sixteen_to(a) <= sixteen_to(b),
    decreases b,
{
    if a < b {
        lemma_sixteen_to_le(a, (b - 1) as nat);
        lemma_sixteen_to_pos((b - 1) as nat);
        assert(sixteen_to(b) == 16 * sixteen_to((b - 1) as nat));
    }
}

/// The small powers of sixteen the decoder reasons with.
pub proof fn lemma_sixteen_to_values()
    ensures
        sixteen_to(6) == 0x1000000,
        sixteen_to(7) == 0x10000000,
{
    assert(sixteen_to(0) == 1);
    assert(sixteen_to(1) == 16);
    assert(sixteen_to(2) == 256);
    assert(sixteen_to(3) == 0x1000);
    assert(sixteen_to(4) == 0x10000);
    assert(sixteen_to(5) == 0x100000);
    assert(sixteen_to(6) == 0x1000000);
    assert(sixteen_to(7) == 0x10000000);
}

/// Encoding a digit value gives a lowercase digit that decodes back to it.
pub proof fn lemma_hex_digit_round_trip(d: int)
    requires
        0 <= d < 16,
    ensures
        is_lower_hex_digit(hex_char_of(d)),
        is_hex_digit(hex_char_of(d)),
        hex_val_of(hex_char_of(d)) == d,
{
}

/// A channel brought from micro-units to its byte truncation in `[0, 255]`.
pub open spec fn byte_of(ch: int) -> int {
    ch / (SCALE as int)
}

/// The six lowercase digits a color encodes to: two per byte-truncated
/// channel, red first.
pub open spec fn spec_to_hex(c: Color) -> Seq<char> {
    seq![
        hex_char_of(byte_of(c.red()) / 16),
        hex_char_of(byte_of(c.red()) % 16),
        hex_char_of(byte_of(c.green()) / 16),
        hex_char_of(byte_of(c.green()) % 16),
        hex_char_of(byte_of(c.blue()) / 16),
        hex_char_of(byte_of(c.blue()) % 16),
    ]
}

/// The digits a hex string decodes: the optional leading `#` of a
/// seven-character string is stripped.
pub open spec fn hex_digits_of(s: Seq<char>) -> Seq<char> {
    if s.len() == 7 && s[0] == '#' {
        s.subrange(1, 7)
    } else {
        s
    }
}

/// Why a hex string is rejected, or `None` where it decodes: the length
/// must be 6 or 7, every digit hexadecimal, and the decoded value within
/// three bytes.
pub open spec fn hex_decode_err(s: Seq<char>) -> Option<ColorError> {
    if s.len() != 6 && s.len() != 7 {
        Some(ColorError::IncorrectLength(s.len() as usize))
    } else if !all_hex(hex_digits_of(s)) {
        Some(ColorError::InvalidHexSyntax)
    } else if hex_seq_val(hex_digits_of(s)) > 0xFFFFFF {
        Some(ColorError::InvalidHexSyntax)
    } else {
        None
    }
}

/// The digit value of a character, in either letter case.
fn hex_val(c: char) -> (r: Option<u8>)
    ensures
        match r {
            Some(v) => is_hex_digit(c) && v == hex_val_of(c),
            None => !is_hex_digit(c),
        },
{
    if c == '0' {
        Some(0)
    } else if c == '1' {
        Some(1)
    } else if c == '2' {
        Some(2)
    } else if c == '3' {
        Some(3)
    } else if c == '4' {
        Some(4)
    } else if c == '5' {
        Some(5)
    } else if c == '6' {
        Some(6)
    } else if c == '7' {
        Some(7)
    } else if c == '8' {
        Some(8)
    } else if c == '9' {
        Some(9)
    } else if c == 'a' || c == 'A' {
        Some(10)
    } else if c == 'b' || c == 'B' {
        Some(11)
    } else if c == 'c' || c == 'C' {
        Some(12)
    } else if c == 'd' || c == 'D' {
        Some(13)
    } else if c == 'e' || c == 'E' {
        Some(14)
    } else if c == 'f' || c == 'F' {
        Some(15)
    } else {
        None
    }
}

/// The one-character string of a digit value in `[0, 16)`, lowercase.
pub(crate) fn hex_digit_str(d: i64) -> (r: &'static str)
    requires
        0 <= d < 16,
    ensures
        r@ =~= seq![hex_char_of(d as int)],
{
    proof {
        reveal_strlit("0");
        reveal_strlit("1");
        reveal_strlit("2");
        reveal_strlit("3");
        reveal_strlit("4");
        reveal_strlit("5");
        reveal_strlit("6");
        reveal_strlit("7");
        reveal_strlit("8");
        reveal_strlit("9");
        reveal_strlit("a");
        reveal_strlit("b");
        reveal_strlit("c");
        reveal_strlit("d");
        reveal_strlit("e");
        reveal_strlit("f");
    }
    if d == 0 {
        "0"
    } else if d == 1 {
        "1"
    } else if d == 2 {
        "2"
    } else if d == 3 {
        "3"
    } else if d == 4 {
        "4"
    } else if d == 5 {
        "5"
    } else if d == 6 {
        "6"
    } else if d == 7 {
        "7"
    } else if d == 8 {
        "8"
    } else if d == 9 {
        "9"
    } else if d == 10 {
        "a"
    } else if d == 11 {
        "b"
    } else if d == 12 {
        "c"
    } else if d == 13 {
        "d"
    } else if d == 14 {
        "e"
    } else {
        "f"
    }
}

/// Computes the byte truncation of a channel.
fn byte_value(ch: i64) -> (v: i64)
    requires
        0 <= ch <= CHAN_MAX,
    ensures
        v == byte_of(ch as int),
        0 <= v <= 255,
{
    proof {
        lemma_div_pos_is_pos(ch as int, SCALE as int);
        lemma_div_is_ordered(ch as int, CHAN_MAX as int, SCALE as int);
    }
    ch / SCALE
}

/// Appends the two lowercase digits of a byte value.
fn append_byte(out: &mut String, v: i64)
    requires
        0 <= v <= 255,
    ensures
        final(out)@ == old(out)@ + seq![hex_char_of(v as int / 16), hex_char_of(v as int % 16)],
{
    proof {
        lemma_div_pos_is_pos(v as int, 16);
        lemma_div_is_ordered(v as int, 255, 16);
        lemma_mod_bound(v as int, 16);
    }
    out.append(hex_digit_str(v / 16));
    out.append(hex_digit_str(v % 16));
    proof {
        assert(final(out)@ =~= old(out)@ + seq![
            hex_char_of(v as int / 16),
            hex_char_of(v as int % 16),
        ]);
    }
}

impl Color {
    /// The hexadecimal rendering: exactly six lowercase digits, two per
    /// byte-truncated channel, red first, with no `#` prefix.
    pub fn to_hex(&self) -> (res: String)
        requires
            self.wf(),
        ensures
            res@ == spec_to_hex(*self),
            res@.len() == 6,
    {
        let mut out = String::new();
        append_byte(&mut out, byte_value(self.r()));
        append_byte(&mut out, byte_value(self.g()));
        append_byte(&mut out, byte_value(self.b()));
        proof {
            assert(out@ =~= spec_to_hex(*self));
        }
        out
    }

    /// Decode a hex string of six digits, optionally prefixed by `#`, into
    /// a color whose channels are the three decoded bytes, red the most
    /// significant; rejects a wrong length, a non-digit, and a decoded
    /// value beyond three bytes.
    pub fn from_hex(s: &str) -> (res: Result<Color, ColorError>)
        ensures
            match hex_decode_err(s@) {
                Some(e) => res == Err::<Color, ColorError>(e),
                None => res matches Ok(c) && c.wf()
                    && c.red() == hex_seq_val(hex_digits_of(s@)) / 0x10000 * SCALE
                    && c.green() == hex_seq_val(hex_digits_of(s@)) / 0x100 % 0x100 * SCALE
                    && c.blue() == hex_seq_val(hex_digits_of(s@)) % 0x100 * SCALE,
            },
    {
        let n = s.unicode_len();
        if n != 6 && n != 7 {
            return Err(ColorError::IncorrectLength(n));
        }
        let start: usize = if n == 7 && s.get_char(0) == '#' {
            1
        } else {
            0
        };
        let ghost ds = hex_digits_of(s@);
        proof {
            assert(ds =~= s@.subrange(start as int, n as int));
        }
        let mut acc: i64 = 0;
        let mut j: usize = start;
        proof {
            lemma_sixteen_to_values();
        }
        while j < n
            invariant
                start <= j <= n,
                n == s@.len(),
                n == 6 || n == 7,
                start == 0 || start == 1,
                ds == hex_digits_of(s@),
                ds =~= s@.subrange(start as int, n as int),
                all_hex(ds.take(j - start)),
                acc == hex_seq_val(ds.take(j - start)),
                0 <= acc,
                acc < sixteen_to((j - start) as nat),
            decreases n - j,
        {
            let ch = s.get_char(j);
            proof {
                assert(ds[j - start] == s@[j as int]);
            }
            match hex_val(ch) {
                None => {
                    proof {
                        assert(!is_hex_digit(ds[j - start]));
                    }
                    return Err(ColorError::InvalidHexSyntax);
                },
                Some(d) => {
                    proof {
                        let k = j - start;
                        assert(ds.take(k + 1).drop_last() =~= ds.take(k));
                        assert(ds.take(k + 1).last() == ds[k]);
                        lemma_sixteen_to_le((k + 1) as nat, 7);
                        lemma_sixteen_to_values();
                        assert(sixteen_to((k + 1) as nat) == 16 * sixteen_to(k as nat));
                    }
                    acc = acc * 16 + (d as i64);
                },
            }
            j += 1;
        }
        proof {
            assert(ds.take(n - start) =~= ds);
            lemma_sixteen_to_le((n - start) as nat, 7);
            lemma_sixteen_to_values();
        }
        if acc > 0xFFFFFF {
            return Err(ColorError::InvalidHexSyntax);
        }
        proof {
            lemma_div_pos_is_pos(acc as int, 0x10000);
            lemma_div_is_ordered(acc as int, 0xFFFFFF, 0x10000);
            lemma_div_pos_is_pos(acc as int, 0x100);
            lemma_mod_bound(acc as int / 0x100, 0x100);
            lemma_mod_bound(acc as int, 0x100);
        }
        let rb: i64 = acc / 0x10000;
        let gb: i64 = acc / 0x100 % 0x100;
        let bb: i64 = acc % 0x100;
        Ok(Color::from_raw(rb * SCALE, gb * SCALE, bb * SCALE))
    }
}

} // verus!
