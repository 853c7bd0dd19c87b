//! Colors as byte channels, with the hex literal codec and the
//! componentwise arithmetic the expression language defines on them.
use vstd::prelude::*;

verus! {

/// A color with 8-bit red, green, blue and alpha channels.
#[derive(Debug, Clone, Copy, PartialEq, Eq, Structural)]
pub struct ColorValue {
    pub r: u8,
    pub g: u8,
    pub b: u8,
    pub a: u8,
}

/// The lowercase character for one hex digit.
pub open spec fn hex_digit_char(d: nat) -> char {
    if d == 0 {
        '0'
    } else if d == 1 {
        '1'
    } else if d == 2 {
        '2'
    } else if d == 3 {
        '3'
    } else if d == 4 {
        '4'
    } else if d == 5 {
        '5'
    } else if d == 6 {
        '6'
    } else if d == 7 {
        '7'
    } else if d == 8 {
        '8'
    } else if d == 9 {
        '9'
    } else if d == 10 {
        'a'
    } else if d == 11 {
        'b'
    } else if d == 12 {
        'c'
    } else if d == 13 {
        'd'
    } else if d == 14 {
        'e'
    } else {
        'f'
    }
}

/// Whether `c` is a hex digit, in either case.
pub open spec fn is_hex_digit(c: char) -> bool {
    ('0' <= c && c <= '9') || ('a' <= c && c <= 'f') || ('A' <= c && c <= 'F')
}

/// The numeric value of a hex digit character.
pub open spec fn hex_val(c: char) -> nat
    recommends
        is_hex_digit(c),
{
    if '0' <= c && c <= '9' {
        (c as nat - '0' as nat) as nat
    } else if 'a' <= c && c <= 'f' {
        (c as nat - 'a' as nat + 10) as nat
    } else {
        (c as nat - 'A' as nat + 10) as nat
    }
}

/// The two lowercase hex digits of a byte.
pub open spec fn byte_hex(b: u8) -> Seq<char> {
    seq![hex_digit_char((b / 16) as nat), hex_digit_char((b % 16) as nat)]
}

/// The hex text of a color: `#rrggbb`, with `aa` appended only when the
/// alpha channel is not fully opaque.
pub open spec fn color_hex_chars(c: ColorValue) -> Seq<char> {
    let base = seq!['#'] + byte_hex(c.r) + byte_hex(c.g) + byte_hex(c.b);
    if c.a == 255 {
        base
    } else {
        base + byte_hex(c.a)
    }
}

/// Whether every character of `s` is a hex digit.
pub open spec fn all_hex_digits(s: Seq<char>) -> bool {
    forall|i: int| 0 <= i < s.len() ==> is_hex_digit(#[trigger] s[i])
}

/// The color denoted by a run of hex digits after `#`: the 3-, 4-, 6- and
/// 8-digit forms, short forms doubling each digit; anything else is not a
/// color literal.
pub open spec fn hex_color_of(s: Seq<char>) -> Option<ColorValue> {
    if !all_hex_digits(s) {
        None
    } else if s.len() == 3 {
        Some(
            ColorValue {
                r: (17 * hex_val(s[0])) as u8,
                g: (17 * hex_val(s[1])) as u8,
                b: (17 * hex_val(s[2])) as u8,
                a: 255,
            },
        )
    } else if s.len() == 4 {
        Some(
            ColorValue {
                r: (17 * hex_val(s[0])) as u8,
                g: (17 * hex_val(s[1])) as u8,
                b: (17 * hex_val(s[2])) as u8,
                a: (17 * hex_val(s[3])) as u8,
            },
        )
    } else if s.len() == 6 {
        Some(
            ColorValue {
                r: (16 * hex_val(s[0]) + hex_val(s[1])) as u8,
                g: (16 * hex_val(s[2]) + hex_val(s[3])) as u8,
                b: (16 * hex_val(s[4]) + hex_val(s[5])) as u8,
                a: 255,
            },
        )
    } else if s.len() == 8 {
        Some(
            ColorValue {
                r: (16 * hex_val(s[0]) + hex_val(s[1])) as u8,
                g: (16 * hex_val(s[2]) + hex_val(s[3])) as u8,
                b: (16 * hex_val(s[4]) + hex_val(s[5])) as u8,
                a: (16 * hex_val(s[6]) + hex_val(s[7])) as u8,
            },
        )
    } else {
        None
    }
}

/// A hex digit character maps back to its value.
pub proof fn lemma_hex_digit_roundtrip(d: nat)
    requires
        d < 16,
    ensures
        is_hex_digit(hex_digit_char(d)),
        hex_val(hex_digit_char(d)) == d,
{
}

/// Displaying a color as hex text and reading that text back yields the
/// same channels.
pub proof fn lemma_color_hex_roundtrip(c: ColorValue)
    ensures
        hex_color_of(color_hex_chars(c).subrange(1, color_hex_chars(c).len() as int)) == Some(c),
{
    let full = color_hex_chars(c);
    let s = full.subrange(1, full.len() as int);
    lemma_hex_digit_roundtrip((c.r / 16) as nat);
    lemma_hex_digit_roundtrip((c.r % 16) as nat);
    lemma_hex_digit_roundtrip((c.g / 16) as nat);
    lemma_hex_digit_roundtrip((c.g % 16) as nat);
    lemma_hex_digit_roundtrip((c.b / 16) as nat);
    lemma_hex_digit_roundtrip((c.b % 16) as nat);
    lemma_hex_digit_roundtrip((c.a / 16) as nat);
    lemma_hex_digit_roundtrip((c.a % 16) as nat);
    if c.a == 255 {
        assert(s.len() == 6);
        assert(s[0] == hex_digit_char((c.r / 16) as nat));
        assert(s[1] == hex_digit_char((c.r % 16) as nat));
        assert(s[2] == hex_digit_char((c.g / 16) as nat));
        assert(s[3] == hex_digit_char((c.g % 16) as nat));
        assert(s[4] == hex_digit_char((c.b / 16) as nat));
        assert(s[5] == hex_digit_char((c.b % 16) as nat));
        assert(all_hex_digits(s));
    } else {
        assert(s.len() == 8);
        assert(s[0] == hex_digit_char((c.r / 16) as nat));
        assert(s[1] == hex_digit_char((c.r % 16) as nat));
        assert(s[2] == hex_digit_char((c.g / 16) as nat));
        assert(s[3] == hex_digit_char((c.g % 16) as nat));
        assert(s[4] == hex_digit_char((c.b / 16) as nat));
        assert(s[5] == hex_digit_char((c.b % 16) as nat));
        assert(s[6] == hex_digit_char((c.a / 16) as nat));
        assert(s[7] == hex_digit_char((c.a % 16) as nat));
        assert(all_hex_digits(s));
    }
}

/// The hex digit character for `d`, which must be below sixteen.
pub fn hex_digit_char_exec(d: u8) -> (c: char)
    requires
        d < 16,
    ensures
        c == hex_digit_char(d as nat),
{
    if d == 0 {
        '0'
    } else if d == 1 {
        '1'
    } else if d == 2 {
        '2'
    } else if d == 3 {
        '3'
    } else if d == 4 {
        '4'
    } else if d == 5 {
        '5'
    } else if d == 6 {
        '6'
    } else if d == 7 {
        '7'
    } else if d == 8 {
        '8'
    } else if d == 9 {
        '9'
    } else if d == 10 {
        'a'
    } else if d == 11 {
        'b'
    } else if d == 12 {
        'c'
    } else if d == 13 {
        'd'
    } else if d == 14 {
        'e'
    } else {
        'f'
    }
}

/// Whether `c` is a hex digit.
pub fn is_hex_digit_exec(c: char) -> (r: bool)
    ensures
        r == is_hex_digit(c),
{
    ('0' <= c && c <= '9') || ('a' <= c && c <= 'f') || ('A' <= c && c <= 'F')
}

/// The numeric value of a hex digit character.
pub fn hex_val_exec(c: char) -> (r: u8)
    requires
        is_hex_digit(c),
    ensures
        r == hex_val(c),
        r < 16,
{
    if '0' <= c && c <= '9' {
        (c as u32 - '0' as u32) as u8
    } else if 'a' <= c && c <= 'f' {
        (c as u32 - 'a' as u32 + 10) as u8
    } else {
        (c as u32 - 'A' as u32 + 10) as u8
    }
}

impl ColorValue {
    /// Reads a color from a run of hex digit characters (without the
    /// leading `#`).
    pub fn from_hex(digits: &Vec<char>) -> (r: Option<ColorValue>)
        ensures
            r == hex_color_of(digits@),
    {
        let n = digits.len();
        if !(n == 3 || n == 4 || n == 6 || n == 8) {
            proof {
                assert(hex_color_of(digits@) is None);
            }
            return None;
        }
        let mut i: usize = 0;
        while i < n
            invariant
                i <= n,
                n == digits@.len(),
                forall|j: int| 0 <= j < i ==> is_hex_digit(#[trigger] digits@[j]),
            decreases n - i,
        {
            if !is_hex_digit_exec(digits[i]) {
                proof {
                    assert(!all_hex_digits(digits@));
                }
                return None;
            }
            i = i + 1;
        }
        proof {
            assert(all_hex_digits(digits@));
        }
        if n == 3 {
            Some(
                ColorValue {
                    r: 17 * hex_val_exec(digits[0]),
                    g: 17 * hex_val_exec(digits[1]),
                    b: 17 * hex_val_exec(digits[2]),
                    a: 255,
                },
            )
        } else if n == 4 {
            Some(
                ColorValue {
                    r: 17 * hex_val_exec(digits[0]),
                    g: 17 * hex_val_exec(digits[1]),
                    b: 17 * hex_val_exec(digits[2]),
                    a: 17 * hex_val_exec(digits[3]),
                },
            )
        } else if n == 6 {
            Some(
                ColorValue {
                    r: 16 * hex_val_exec(digits[0]) + hex_val_exec(digits[1]),
                    g: 16 * hex_val_exec(digits[2]) + hex_val_exec(digits[3]),
                    b: 16 * hex_val_exec(digits[4]) + hex_val_exec(digits[5]),
                    a: 255,
                },
            )
        } else {
            Some(
                ColorValue {
                    r: 16 * hex_val_exec(digits[0]) + hex_val_exec(digits[1]),
                    g: 16 * hex_val_exec(digits[2]) + hex_val_exec(digits[3]),
                    b: 16 * hex_val_exec(digits[4]) + hex_val_exec(digits[5]),
                    a: 16 * hex_val_exec(digits[6]) + hex_val_exec(digits[7]),
                },
            )
        }
    }

    /// The hex text of this color, as characters.
    pub fn to_hex_chars(&self) -> (v: Vec<char>)
        ensures
            v@ == color_hex_chars(*self),
    {
        let mut v: Vec<char> = Vec::new();
        v.push('#');
        v.push(hex_digit_char_exec(self.r / 16));
        v.push(hex_digit_char_exec(self.r % 16));
        v.push(hex_digit_char_exec(self.g / 16));
        v.push(hex_digit_char_exec(self.g % 16));
        v.push(hex_digit_char_exec(self.b / 16));
        v.push(hex_digit_char_exec(self.b % 16));
        if self.a != 255 {
            v.push(hex_digit_char_exec(self.a / 16));
            v.push(hex_digit_char_exec(self.a % 16));
        }
        proof {
            assert(v@ =~= color_hex_chars(*self));
        }
        v
    }
}

/// One channel of a componentwise product: the channels taken as fractions
/// of 255, multiplied, and rounded back to the nearest byte.
pub open spec fn chan_mul(a: u8, b: u8) -> u8 {
    ((2 * (a as nat) * (b as nat) + 255) / 510) as u8
}

/// One channel of a componentwise quotient, saturated at full intensity; a
/// zero divisor channel saturates.
pub open spec fn chan_div(a: u8, b: u8) -> u8 {
    if b == 0 {
        255
    } else if (510 * (a as nat) + (b as nat)) / (2 * (b as nat)) > 255 {
        255
    } else {
        ((510 * (a as nat) + (b as nat)) / (2 * (b as nat))) as u8
    }
}

/// The componentwise product of two colors.
pub open spec fn spec_color_mul(x: ColorValue, y: ColorValue) -> ColorValue {
    ColorValue {
        r: chan_mul(x.r, y.r),
        g: chan_mul(x.g, y.g),
        b: chan_mul(x.b, y.b),
        a: chan_mul(x.a, y.a),
    }
}

/// The componentwise quotient of two colors.
pub open spec fn spec_color_div(x: ColorValue, y: ColorValue) -> ColorValue {
    ColorValue {
        r: chan_div(x.r, y.r),
        g: chan_div(x.g, y.g),
        b: chan_div(x.b, y.b),
        a: chan_div(x.a, y.a),
    }
}

/// One channel of the product, on bytes.
pub fn chan_mul_exec(a: u8, b: u8) -> (r: u8)
    ensures
        r == chan_mul(a, b),
{
    proof {
        assert(2 * (a as int) * (b as int) <= 130050) by (nonlinear_arith)
            requires
                a <= 255,
                b <= 255,
        ;
    }
    let p: u32 = 2 * (a as u32) * (b as u32) + 255;
    (p / 510) as u8
}

/// One channel of the quotient, on bytes.
pub fn chan_div_exec(a: u8, b: u8) -> (r: u8)
    ensures
        r == chan_div(a, b),
{
    if b == 0 {
        255
    } else {
        let q: u32 = (510 * (a as u32) + (b as u32)) / (2 * (b as u32));
        if q > 255 {
            255
        } else {
            q as u8
        }
    }
}

impl ColorValue {
    /// Componentwise product with another color.
    pub fn mul(&self, other: &ColorValue) -> (r: ColorValue)
        ensures
            r == spec_color_mul(*self, *other),
    {
        ColorValue {
            r: chan_mul_exec(self.r, other.r),
            g: chan_mul_exec(self.g, other.g),
            b: chan_mul_exec(self.b, other.b),
            a: chan_mul_exec(self.a, other.a),
        }
    }

    /// Componentwise quotient by another color.
    pub fn div(&self, other: &ColorValue) -> (r: ColorValue)
        ensures
            r == spec_color_div(*self, *other),
    {
        ColorValue {
            r: chan_div_exec(self.r, other.r),
            g: chan_div_exec(self.g, other.g),
            b: chan_div_exec(self.b, other.b),
            a: chan_div_exec(self.a, other.a),
        }
    }
}

} // verus!
