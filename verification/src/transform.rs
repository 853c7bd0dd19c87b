//! Colorimetric arithmetic for extension transforms.
//!
//! Channels and factors are carried as fixed-point numbers scaled by
//! `FX_ONE`, so the hue/saturation/lightness round trip and the
//! lighten/darken/alpha adjustments are exact integer arithmetic with a
//! precision far below what a byte channel can register.
use vstd::prelude::*;

use crate::color::ColorValue;
use crate::decimal::{pow10, pow10_checked, Decimal};

verus! {

/// The fixed-point unit: values in the unit interval run from 0 to this.
pub const FX_ONE: u128 = 1000000000000;

/// The largest factor magnitude a transform accepts, in fixed point.
pub const FX_FACTOR_MAX: u128 = 1000000000000000000;

/// A color in hue/saturation/lightness form: the hue as a sector below 6
/// with a fixed-point offset into it, saturation and lightness in fixed
/// point.
pub struct HslFx {
    pub k: nat,
    pub t: nat,
    pub s: nat,
    pub l: nat,
}

/// The byte nearest to a fixed-point unit-interval value, saturated at
/// full intensity.
pub open spec fn fx_byte(v: nat) -> nat {
    let q = ((510 * v + FX_ONE) / (2 * FX_ONE)) as nat;
    if q > 255 {
        255
    } else {
        q
    }
}

/// The hue of a color with distinct extremes, as a sector and offset;
/// ties go to red, then green, then blue.
pub open spec fn spec_hue(r: nat, g: nat, b: nat, mx: nat, mn: nat) -> (nat, nat) {
    let delta = (mx - mn) as nat;
    if mx == r {
        if g >= b {
            let v = ((((g - b) * FX_ONE) as nat) / delta) as nat;
            if v >= FX_ONE {
                (1 as nat, 0 as nat)
            } else {
                (0 as nat, v)
            }
        } else {
            let v = ((((b - g) * FX_ONE) as nat) / delta) as nat;
            if v >= FX_ONE {
                (5 as nat, 0 as nat)
            } else {
                (5 as nat, (FX_ONE - v) as nat)
            }
        }
    } else if mx == g {
        if b >= r {
            let v = ((((b - r) * FX_ONE) as nat) / delta) as nat;
            if v >= FX_ONE {
                (3 as nat, 0 as nat)
            } else {
                (2 as nat, v)
            }
        } else {
            let v = ((((r - b) * FX_ONE) as nat) / delta) as nat;
            if v >= FX_ONE {
                (1 as nat, 0 as nat)
            } else {
                (1 as nat, (FX_ONE - v) as nat)
            }
        }
    } else {
        if r >= g {
            let v = ((((r - g) * FX_ONE) as nat) / delta) as nat;
            if v >= FX_ONE {
                (5 as nat, 0 as nat)
            } else {
                (4 as nat, v)
            }
        } else {
            let v = ((((g - r) * FX_ONE) as nat) / delta) as nat;
            if v >= FX_ONE {
                (3 as nat, 0 as nat)
            } else {
                (3 as nat, (FX_ONE - v) as nat)
            }
        }
    }
}

/// The hue/saturation/lightness form of a color's byte channels.
pub open spec fn spec_hsl_of(r: u8, g: u8, b: u8) -> HslFx {
    let rn = r as nat;
    let gn = g as nat;
    let bn = b as nat;
    let mx = if rn >= gn && rn >= bn {
        rn
    } else if gn >= bn {
        gn
    } else {
        bn
    };
    let mn = if rn <= gn && rn <= bn {
        rn
    } else if gn <= bn {
        gn
    } else {
        bn
    };
    let l = (((mx + mn) * FX_ONE) / 510) as nat;
    if mx == mn {
        HslFx { k: 0, t: 0, s: 0, l }
    } else {
        let delta = (mx - mn) as nat;
        let denom = if mx + mn <= 255 {
            mx + mn
        } else {
            (510 - (mx + mn)) as nat
        };
        let sat = ((delta * FX_ONE) as nat / denom) as nat;
        let kt = spec_hue(rn, gn, bn, mx, mn);
        HslFx { k: kt.0, t: kt.1, s: sat, l }
    }
}

/// A unit-interval value moved by `±value·factor` and clamped back to the
/// unit interval; `add` chooses the direction the positive factor moves
/// it.
pub open spec fn spec_scale_signed(base: nat, fneg: bool, f: nat, add: bool) -> nat {
    let term = ((base * f) / (FX_ONE as nat)) as nat;
    let up = (add && !fneg) || (!add && fneg);
    if up {
        if base + term > FX_ONE {
            FX_ONE as nat
        } else {
            base + term
        }
    } else {
        if term > base {
            0
        } else {
            (base - term) as nat
        }
    }
}

/// The byte channels of a hue/saturation/lightness color.
pub open spec fn spec_rgb_of_hsl(k: nat, t: nat, sat: nat, l: nat) -> (nat, nat, nat) {
    let abs2l1 = if 2 * l >= FX_ONE {
        (2 * l - FX_ONE) as nat
    } else {
        (FX_ONE - 2 * l) as nat
    };
    let c = ((((FX_ONE - abs2l1) as nat) * sat) / (FX_ONE as nat)) as nat;
    let x = if k % 2 == 0 {
        ((c * t) / (FX_ONE as nat)) as nat
    } else {
        ((c * ((FX_ONE - t) as nat)) / (FX_ONE as nat)) as nat
    };
    let m = if c / 2 <= l {
        (l - c / 2) as nat
    } else {
        0
    };
    let r1 = if k == 0 || k == 5 {
        c
    } else if k == 1 || k == 4 {
        x
    } else {
        0
    };
    let g1 = if k == 1 || k == 2 {
        c
    } else if k == 0 || k == 3 {
        x
    } else {
        0
    };
    let b1 = if k == 3 || k == 4 {
        c
    } else if k == 2 || k == 5 {
        x
    } else {
        0
    };
    (fx_byte(r1 + m), fx_byte(g1 + m), fx_byte(b1 + m))
}

/// A lighten or darken in hue/saturation/lightness space: the lightness
/// moves by its own multiple of the factor, hue, saturation and the alpha
/// channel stay.
pub open spec fn spec_hsl_modify(c: ColorValue, darken: bool, fneg: bool, f: nat) -> ColorValue {
    let h = spec_hsl_of(c.r, c.g, c.b);
    let l2 = spec_scale_signed(h.l, fneg, f, !darken);
    let rgb = spec_rgb_of_hsl(h.k, h.t, h.s, l2);
    ColorValue { r: rgb.0 as u8, g: rgb.1 as u8, b: rgb.2 as u8, a: c.a }
}

/// An alpha shift: the alpha channel moves by its own multiple of the
/// factor, the color channels stay. The lightness/chroma/hue form this
/// rides on leaves those components untouched, so only alpha changes.
pub open spec fn spec_alpha_modify(c: ColorValue, fneg: bool, f: nat) -> ColorValue {
    let afx = (((c.a as nat) * FX_ONE) / 255) as nat;
    let a2 = spec_scale_signed(afx, fneg, f, true);
    ColorValue { r: c.r, g: c.g, b: c.b, a: fx_byte(a2) as u8 }
}

/// A transform factor in fixed point: the decimal's magnitude scaled to
/// `FX_ONE`, truncated toward zero.
pub open spec fn spec_factor_fx(d: Decimal) -> nat {
    if d.scale <= 12 {
        ((d.mantissa as nat) * pow10((12 - d.scale) as nat)) as nat
    } else {
        ((d.mantissa as nat) / pow10((d.scale - 12) as nat)) as nat
    }
}


/// A quotient is bounded by any multiple-bound of its dividend.
proof fn lemma_div_le(a: nat, b: nat, c: nat)
    requires
        b > 0,
        a <= b * c,
    ensures
        a / b <= c,
{
    vstd::arithmetic::div_mod::lemma_multiply_divide_le(a as int, b as int, c as int);
}

/// Multiplying both sides by a positive constant keeps an order.
proof fn lemma_mul_le(a: nat, b: nat, k: nat)
    requires
        a <= b,
    ensures
        a * k <= b * k,
{
    vstd::arithmetic::mul::lemma_mul_inequality(a as int, b as int, k as int);
}

/// The byte nearest to a fixed-point unit-interval value.
fn fx_byte_exec(v: u128) -> (r: u8)
    requires
        v <= 2 * FX_ONE,
    ensures
        r as nat == fx_byte(v as nat),
{
    let q = (510 * v + FX_ONE) / (2 * FX_ONE);
    if q > 255 {
        255
    } else {
        q as u8
    }
}

/// The hue/saturation/lightness form of a color's byte channels.
fn hsl_of_exec(r: u8, g: u8, b: u8) -> (h: (u8, u128, u128, u128))
    ensures
        ({
            let sh = spec_hsl_of(r, g, b);
            &&& sh.k == h.0 as nat
            &&& sh.t == h.1 as nat
            &&& sh.s == h.2 as nat
            &&& sh.l == h.3 as nat
            &&& h.0 < 6
            &&& h.1 <= FX_ONE
            &&& h.2 <= FX_ONE
            &&& h.3 <= FX_ONE
        }),
{
    let rn = r as u128;
    let gn = g as u128;
    let bn = b as u128;
    let mx = if rn >= gn && rn >= bn {
        rn
    } else if gn >= bn {
        gn
    } else {
        bn
    };
    let mn = if rn <= gn && rn <= bn {
        rn
    } else if gn <= bn {
        gn
    } else {
        bn
    };
    proof {
        lemma_mul_le((mx + mn) as nat, 510, FX_ONE as nat);
        lemma_div_le(((mx + mn) * FX_ONE) as nat, 510, FX_ONE as nat);
    }
    let l = ((mx + mn) * FX_ONE) / 510;
    if mx == mn {
        (0u8, 0u128, 0u128, l)
    } else {
        let delta = mx - mn;
        let denom = if mx + mn <= 255 {
            mx + mn
        } else {
            510 - (mx + mn)
        };
        proof {
            lemma_mul_le(delta as nat, denom as nat, FX_ONE as nat);
            lemma_div_le((delta * FX_ONE) as nat, denom as nat, FX_ONE as nat);
        }
        let sat = (delta * FX_ONE) / denom;
        let kt: (u8, u128) = if mx == rn {
            if gn >= bn {
                proof {
                    lemma_mul_le((gn - bn) as nat, delta as nat, FX_ONE as nat);
                    lemma_div_le(((gn - bn) * FX_ONE) as nat, delta as nat, FX_ONE as nat);
                }
                let v = ((gn - bn) * FX_ONE) / delta;
                if v >= FX_ONE {
                    (1u8, 0u128)
                } else {
                    (0u8, v)
                }
            } else {
                proof {
                    lemma_mul_le((bn - gn) as nat, delta as nat, FX_ONE as nat);
                    lemma_div_le(((bn - gn) * FX_ONE) as nat, delta as nat, FX_ONE as nat);
                }
                let v = ((bn - gn) * FX_ONE) / delta;
                if v >= FX_ONE {
                    (5u8, 0u128)
                } else {
                    (5u8, FX_ONE - v)
                }
            }
        } else if mx == gn {
            if bn >= rn {
                proof {
                    lemma_mul_le((bn - rn) as nat, delta as nat, FX_ONE as nat);
                    lemma_div_le(((bn - rn) * FX_ONE) as nat, delta as nat, FX_ONE as nat);
                }
                let v = ((bn - rn) * FX_ONE) / delta;
                if v >= FX_ONE {
                    (3u8, 0u128)
                } else {
                    (2u8, v)
                }
            } else {
                proof {
                    lemma_mul_le((rn - bn) as nat, delta as nat, FX_ONE as nat);
                    lemma_div_le(((rn - bn) * FX_ONE) as nat, delta as nat, FX_ONE as nat);
                }
                let v = ((rn - bn) * FX_ONE) / delta;
                if v >= FX_ONE {
                    (1u8, 0u128)
                } else {
                    (1u8, FX_ONE - v)
                }
            }
        } else {
            if rn >= gn {
                proof {
                    lemma_mul_le((rn - gn) as nat, delta as nat, FX_ONE as nat);
                    lemma_div_le(((rn - gn) * FX_ONE) as nat, delta as nat, FX_ONE as nat);
                }
                let v = ((rn - gn) * FX_ONE) / delta;
                if v >= FX_ONE {
                    (5u8, 0u128)
                } else {
                    (4u8, v)
                }
            } else {
                proof {
                    lemma_mul_le((gn - rn) as nat, delta as nat, FX_ONE as nat);
                    lemma_div_le(((gn - rn) * FX_ONE) as nat, delta as nat, FX_ONE as nat);
                }
                let v = ((gn - rn) * FX_ONE) / delta;
                if v >= FX_ONE {
                    (3u8, 0u128)
                } else {
                    (3u8, FX_ONE - v)
                }
            }
        };
        (kt.0, kt.1, sat, l)
    }
}

/// Moves a unit-interval value by its own multiple of the factor.
fn scale_signed_exec(base: u128, fneg: bool, f: u128, add: bool) -> (r: u128)
    requires
        base <= FX_ONE,
        f <= FX_FACTOR_MAX,
    ensures
        r as nat == spec_scale_signed(base as nat, fneg, f as nat, add),
        r <= FX_ONE,
{
    proof {
        lemma_mul_le(base as nat, FX_ONE as nat, f as nat);
        lemma_div_le((base * f) as nat, FX_ONE as nat, f as nat);
    }
    let term = (base * f) / FX_ONE;
    let up = (add && !fneg) || (!add && fneg);
    if up {
        if term > FX_ONE || base + term > FX_ONE {
            FX_ONE
        } else {
            base + term
        }
    } else {
        if term > base {
            0
        } else {
            base - term
        }
    }
}

/// The byte channels of a hue/saturation/lightness color.
fn rgb_of_hsl_exec(k: u8, t: u128, sat: u128, l: u128) -> (rgb: (u8, u8, u8))
    requires
        k < 6,
        t <= FX_ONE,
        sat <= FX_ONE,
        l <= FX_ONE,
    ensures
        spec_rgb_of_hsl(k as nat, t as nat, sat as nat, l as nat) == (
            rgb.0 as nat,
            rgb.1 as nat,
            rgb.2 as nat,
        ),
{
    let abs2l1 = if 2 * l >= FX_ONE {
        2 * l - FX_ONE
    } else {
        FX_ONE - 2 * l
    };
    proof {
        lemma_mul_le((FX_ONE - abs2l1) as nat, FX_ONE as nat, sat as nat);
        lemma_div_le(((FX_ONE - abs2l1) * sat) as nat, FX_ONE as nat, sat as nat);
    }
    let c = ((FX_ONE - abs2l1) * sat) / FX_ONE;
    let x = if k % 2 == 0 {
        proof {
            lemma_mul_le(c as nat, FX_ONE as nat, t as nat);
            lemma_div_le((c * t) as nat, FX_ONE as nat, t as nat);
        }
        (c * t) / FX_ONE
    } else {
        proof {
            lemma_mul_le(c as nat, FX_ONE as nat, (FX_ONE - t) as nat);
            lemma_div_le((c * (FX_ONE - t)) as nat, FX_ONE as nat, (FX_ONE - t) as nat);
        }
        (c * (FX_ONE - t)) / FX_ONE
    };
    let m = if c / 2 <= l {
        l - c / 2
    } else {
        0
    };
    let r1 = if k == 0 || k == 5 {
        c
    } else if k == 1 || k == 4 {
        x
    } else {
        0
    };
    let g1 = if k == 1 || k == 2 {
        c
    } else if k == 0 || k == 3 {
        x
    } else {
        0
    };
    let b1 = if k == 3 || k == 4 {
        c
    } else if k == 2 || k == 5 {
        x
    } else {
        0
    };
    (fx_byte_exec(r1 + m), fx_byte_exec(g1 + m), fx_byte_exec(b1 + m))
}

/// Applies a lighten or darken in hue/saturation/lightness space.
pub fn hsl_modify(c: &ColorValue, darken: bool, fneg: bool, f: u128) -> (r: ColorValue)
    requires
        f <= FX_FACTOR_MAX,
    ensures
        r == spec_hsl_modify(*c, darken, fneg, f as nat),
{
    let h = hsl_of_exec(c.r, c.g, c.b);
    let l2 = scale_signed_exec(h.3, fneg, f, !darken);
    let rgb = rgb_of_hsl_exec(h.0, h.1, h.2, l2);
    ColorValue { r: rgb.0, g: rgb.1, b: rgb.2, a: c.a }
}

/// Applies an alpha shift.
pub fn alpha_modify(c: &ColorValue, fneg: bool, f: u128) -> (r: ColorValue)
    requires
        f <= FX_FACTOR_MAX,
    ensures
        r == spec_alpha_modify(*c, fneg, f as nat),
{
    proof {
        lemma_mul_le(c.a as nat, 255, FX_ONE as nat);
        lemma_div_le(((c.a as u128) * FX_ONE) as nat, 255, FX_ONE as nat);
    }
    let afx = ((c.a as u128) * FX_ONE) / 255;
    let a2 = scale_signed_exec(afx, fneg, f, true);
    let ab = fx_byte_exec(a2);
    ColorValue { r: c.r, g: c.g, b: c.b, a: ab }
}

/// The fixed-point magnitude of a transform factor, with its sign;
/// `None` when the magnitude exceeds what a transform accepts.
pub fn factor_fx(d: &Decimal) -> (r: Option<(bool, u128)>)
    ensures
        match r {
            Some(p) => p.0 == d.neg && p.1 as nat == spec_factor_fx(*d) && p.1 <= FX_FACTOR_MAX,
            None => spec_factor_fx(*d) > FX_FACTOR_MAX,
        },
{
    if d.scale <= 12 {
        let p = match pow10_checked(12 - d.scale) {
            Some(p) => p,
            None => {
                proof {
                    crate::decimal::lemma_pow10_mono((12 - d.scale) as nat, 12);
                    lemma_pow10_12();
                }
                1
            },
        };
        match d.mantissa.checked_mul(p) {
            Some(f) => {
                if f > FX_FACTOR_MAX {
                    None
                } else {
                    Some((d.neg, f))
                }
            },
            None => {
                proof {
                    assert(d.mantissa * pow10((12 - d.scale) as nat) > u128::MAX);
                }
                None
            },
        }
    } else {
        match pow10_checked(d.scale - 12) {
            None => {
                proof {
                    vstd::arithmetic::div_mod::lemma_basic_div(
                        d.mantissa as int,
                        pow10((d.scale - 12) as nat) as int,
                    );
                }
                Some((d.neg, 0))
            },
            Some(p) => {
                proof {
                    crate::decimal::lemma_pow10_pos((d.scale - 12) as nat);
                }
                let f = d.mantissa / p;
                if f > FX_FACTOR_MAX {
                    None
                } else {
                    Some((d.neg, f))
                }
            },
        }
    }
}

/// Ten to the twelfth fits the machine word.
proof fn lemma_pow10_12()
    ensures
        pow10(12) == FX_ONE,
{
    reveal_with_fuel(pow10, 13);
}


/// A lighten or darken moves lightness only: the transformed color is
/// rebuilt from the base color's own hue sector, hue offset and
/// saturation, and its alpha channel is untouched.
pub proof fn lemma_hsl_modify_components(c: ColorValue, darken: bool, fneg: bool, f: nat)
    ensures
        spec_hsl_modify(c, darken, fneg, f).a == c.a,
        ({
            let h = spec_hsl_of(c.r, c.g, c.b);
            let rgb = spec_rgb_of_hsl(h.k, h.t, h.s, spec_scale_signed(h.l, fneg, f, !darken));
            spec_hsl_modify(c, darken, fneg, f) == ColorValue {
                r: rgb.0 as u8,
                g: rgb.1 as u8,
                b: rgb.2 as u8,
                a: c.a,
            }
        }),
{
}

/// An alpha shift moves the alpha channel only: the color channels of the
/// transformed color are the base color's own.
pub proof fn lemma_alpha_modify_components(c: ColorValue, fneg: bool, f: nat)
    ensures
        spec_alpha_modify(c, fneg, f).r == c.r,
        spec_alpha_modify(c, fneg, f).g == c.g,
        spec_alpha_modify(c, fneg, f).b == c.b,
{
}

} // verus!
