//! Exact decimal numbers.
//!
//! A token's numeric magnitude is kept as a sign, an integer mantissa and a
//! decimal scale: the value is `±mantissa / 10^scale`. The representation is
//! normalized — no trailing zero digits in the fraction, and zero is never
//! negative — so two equal magnitudes are structurally equal.
use vstd::prelude::*;

verus! {

/// Largest decimal scale the engine accepts; arithmetic whose result would
/// need a longer fraction reports an overflow fault instead.
pub const SCALE_CAP: u32 = 100000;

/// Fraction digits produced by a division whose quotient does not terminate
/// earlier.
pub const DIV_PRECISION: u32 = 12;

/// A signed decimal magnitude: `±mantissa / 10^scale`.
#[derive(Debug, Clone, Copy, PartialEq, Eq, Structural)]
pub struct Decimal {
    pub neg: bool,
    pub mantissa: u128,
    pub scale: u32,
}

/// `10^n`.
pub open spec fn pow10(n: nat) -> nat
    decreases n,
{
    if n == 0 {
        1
    } else {
        10 * pow10((n - 1) as nat)
    }
}

/// The normalized decimal with the same value as `±m / 10^s`: trailing
/// fraction zeros are stripped and zero is made non-negative with scale 0.
pub open spec fn dec_norm(neg: bool, m: u128, s: u32) -> Decimal
    decreases s,
{
    if s > 0 && m % 10 == 0 {
        dec_norm(neg, (m / 10) as u128, (s - 1) as u32)
    } else if m == 0 {
        Decimal { neg: false, mantissa: 0, scale: 0 }
    } else {
        Decimal { neg, mantissa: m, scale: s }
    }
}

/// A well-formed decimal: normalized, with a bounded scale.
pub open spec fn dec_wf(d: Decimal) -> bool {
    &&& d.mantissa == 0 ==> !d.neg && d.scale == 0
    &&& d.scale > 0 ==> d.mantissa % 10 != 0
    &&& d.scale <= SCALE_CAP
}

/// The decimal zero.
pub open spec fn spec_dec_zero() -> Decimal {
    Decimal { neg: false, mantissa: 0, scale: 0 }
}

/// Normalization yields a well-formed decimal whenever the input scale is
/// within the cap.
pub proof fn lemma_dec_norm_wf(neg: bool, m: u128, s: u32)
    requires
        s <= SCALE_CAP,
    ensures
        dec_wf(dec_norm(neg, m, s)),
    decreases s,
{
    if s > 0 && m % 10 == 0 {
        lemma_dec_norm_wf(neg, (m / 10) as u128, (s - 1) as u32);
    }
}

/// A well-formed decimal is a fixed point of normalization.
pub proof fn lemma_dec_norm_id(d: Decimal)
    requires
        dec_wf(d),
    ensures
        dec_norm(d.neg, d.mantissa, d.scale) == d,
{
}

/// The product of two decimals, or `None` when the mantissa product exceeds
/// the machine word or the result's scale exceeds the cap.
pub open spec fn spec_dec_mul(a: Decimal, b: Decimal) -> Option<Decimal> {
    if a.mantissa * b.mantissa > u128::MAX {
        None
    } else {
        let n = dec_norm(
            a.neg != b.neg,
            (a.mantissa * b.mantissa) as u128,
            (a.scale + b.scale) as u32,
        );
        if n.scale > SCALE_CAP {
            None
        } else {
            Some(n)
        }
    }
}

/// The quotient of two decimals, truncated toward zero after
/// `DIV_PRECISION` extra fraction digits; `None` on machine-word overflow.
/// Meaningful only for a non-zero divisor.
pub open spec fn spec_dec_div(a: Decimal, b: Decimal) -> Option<Decimal>
    recommends
        b.mantissa != 0,
{
    if a.mantissa == 0 {
        Some(spec_dec_zero())
    } else if a.mantissa * pow10((b.scale + DIV_PRECISION) as nat) > u128::MAX {
        None
    } else {
        let q = (a.mantissa * pow10((b.scale + DIV_PRECISION) as nat)) as u128 / b.mantissa;
        let n = dec_norm(a.neg != b.neg, q, (a.scale + DIV_PRECISION) as u32);
        if n.scale > SCALE_CAP {
            None
        } else {
            Some(n)
        }
    }
}

/// The percentage-to-fraction shift: the value divided by 100, exactly.
pub open spec fn spec_dec_div100(d: Decimal) -> Decimal {
    dec_norm(d.neg, d.mantissa, (d.scale + 2) as u32)
}

impl Decimal {
    /// The decimal zero.
    pub fn zero() -> (r: Decimal)
        ensures
            r == spec_dec_zero(),
            dec_wf(r),
    {
        Decimal { neg: false, mantissa: 0, scale: 0 }
    }

    /// Normalizes `±m / 10^s`.
    pub fn normalize(neg: bool, m: u128, s: u32) -> (r: Decimal)
        ensures
            r == dec_norm(neg, m, s),
    {
        let ghost m0: u128 = m;
        let ghost s0: u32 = s;
        let mut m: u128 = m;
        let mut s: u32 = s;
        while s > 0 && m % 10 == 0
            invariant
                dec_norm(neg, m, s) == dec_norm(neg, m0, s0),
            decreases s,
        {
            proof {
                assert(dec_norm(neg, m, s) == dec_norm(neg, (m / 10) as u128, (s - 1) as u32));
            }
            m = m / 10;
            s = s - 1;
        }
        if m == 0 {
            Decimal { neg: false, mantissa: 0, scale: 0 }
        } else {
            Decimal { neg, mantissa: m, scale: s }
        }
    }

    /// Multiplies two well-formed decimals; `None` reports overflow.
    pub fn mul(&self, other: &Decimal) -> (r: Option<Decimal>)
        requires
            dec_wf(*self),
            dec_wf(*other),
        ensures
            r == spec_dec_mul(*self, *other),
            r is Some ==> dec_wf(r->0),
    {
        match self.mantissa.checked_mul(other.mantissa) {
            Option::None => Option::None,
            Option::Some(p) => {
                let n = Decimal::normalize(self.neg != other.neg, p, self.scale + other.scale);
                proof {
                    lemma_dec_norm_wf_capped(self.neg != other.neg, p, (self.scale + other.scale) as u32);
                }
                if n.scale > SCALE_CAP {
                    Option::None
                } else {
                    Option::Some(n)
                }
            },
        }
    }

    /// Divides two well-formed decimals, the divisor non-zero; `None`
    /// reports overflow.
    pub fn div(&self, other: &Decimal) -> (r: Option<Decimal>)
        requires
            dec_wf(*self),
            dec_wf(*other),
            other.mantissa != 0,
        ensures
            r == spec_dec_div(*self, *other),
            r is Some ==> dec_wf(r->0),
    {
        if self.mantissa == 0 {
            Option::Some(Decimal::zero())
        } else {
            match pow10_checked(other.scale + DIV_PRECISION) {
                Option::None => {
                    proof {
                        let p = pow10((other.scale + DIV_PRECISION) as nat);
                        lemma_pow10_pos((other.scale + DIV_PRECISION) as nat);
                        assert(self.mantissa as int * p >= p) by (nonlinear_arith)
                            requires
                                self.mantissa >= 1,
                                p >= 1,
                        ;
                    }
                    Option::None
                },
                Option::Some(pw) => {
                    match self.mantissa.checked_mul(pw) {
                        Option::None => Option::None,
                        Option::Some(scaled) => {
                            let q = scaled / other.mantissa;
                            let n = Decimal::normalize(
                                self.neg != other.neg,
                                q,
                                self.scale + DIV_PRECISION,
                            );
                            proof {
                                lemma_dec_norm_wf_capped(
                                    self.neg != other.neg,
                                    q,
                                    (self.scale + DIV_PRECISION) as u32,
                                );
                            }
                            if n.scale > SCALE_CAP {
                                Option::None
                            } else {
                                Option::Some(n)
                            }
                        },
                    }
                },
            }
        }
    }

    /// The value divided by 100, exactly; used to render percentages as
    /// fractions.
    pub fn div100(&self) -> (r: Decimal)
        requires
            dec_wf(*self),
        ensures
            r == spec_dec_div100(*self),
    {
        Decimal::normalize(self.neg, self.mantissa, self.scale + 2)
    }
}

/// Normalization of a scale within `s` keeps every result scale at or below
/// `s` and otherwise well-formed.
proof fn lemma_dec_norm_wf_capped(neg: bool, m: u128, s: u32)
    ensures
        ({
            let n = dec_norm(neg, m, s);
            &&& n.scale <= s
            &&& n.mantissa == 0 ==> !n.neg && n.scale == 0
            &&& n.scale > 0 ==> n.mantissa % 10 != 0
        }),
    decreases s,
{
    if s > 0 && m % 10 == 0 {
        lemma_dec_norm_wf_capped(neg, (m / 10) as u128, (s - 1) as u32);
    }
}

/// `10^e` when it fits the machine word, `None` otherwise.
pub fn pow10_checked(e: u32) -> (r: Option<u128>)
    ensures
        match r {
            Option::Some(p) => p == pow10(e as nat),
            Option::None => pow10(e as nat) > u128::MAX,
        },
{
    let mut acc: u128 = 1;
    let mut i: u32 = 0;
    while i < e
        invariant
            i <= e,
            acc == pow10(i as nat),
        decreases e - i,
    {
        match acc.checked_mul(10) {
            Option::None => {
                proof {
                    lemma_pow10_mono((i + 1) as nat, e as nat);
                }
                return Option::None;
            },
            Option::Some(next) => {
                acc = next;
                i = i + 1;
            },
        }
    }
    Option::Some(acc)
}

/// `10^·` is monotone.
pub proof fn lemma_pow10_mono(i: nat, j: nat)
    requires
        i <= j,
    ensures
        pow10(i) <= pow10(j),
    decreases j,
{
    if i < j {
        lemma_pow10_mono(i, (j - 1) as nat);
        assert(pow10(j) == 10 * pow10((j - 1) as nat));
        assert(pow10((j - 1) as nat) >= 1) by {
            lemma_pow10_pos((j - 1) as nat);
        }
    }
}

/// `10^n` is positive.
pub proof fn lemma_pow10_pos(n: nat)
    ensures
        pow10(n) >= 1,
    decreases n,
{
    if n > 0 {
        lemma_pow10_pos((n - 1) as nat);
    }
}


/// The character for one decimal digit.
pub open spec fn digit_char(d: nat) -> char {
    if d == 0 {
        '0'
    } else if d == 1 {
        '1'
    } else if d == 2 {
        '2'
    } else if d == 3 {
        '3'
    } else if d == 4 {
        '4'
    } else if d == 5 {
        '5'
    } else if d == 6 {
        '6'
    } else if d == 7 {
        '7'
    } else if d == 8 {
        '8'
    } else {
        '9'
    }
}

/// The decimal digit characters of `m`, most significant first, with no
/// leading zeros (a single `'0'` for zero).
pub open spec fn nat_digits(m: nat) -> Seq<char>
    decreases m,
{
    if m < 10 {
        seq![digit_char(m)]
    } else {
        nat_digits(m / 10).push(digit_char(m % 10))
    }
}

/// A run of `n` zero characters.
pub open spec fn zero_chars(n: nat) -> Seq<char>
    decreases n,
{
    if n == 0 {
        Seq::empty()
    } else {
        zero_chars((n - 1) as nat).push('0')
    }
}

/// The canonical text of a decimal: optional minus sign, the integer part,
/// and — when the scale is positive — a point followed by the fraction
/// digits, padded with zeros when the mantissa is shorter than the scale.
pub open spec fn dec_chars(d: Decimal) -> Seq<char> {
    let ds = nat_digits(d.mantissa as nat);
    let sign: Seq<char> = if d.neg {
        seq!['-']
    } else {
        Seq::empty()
    };
    if d.scale == 0 {
        sign + ds
    } else if ds.len() > d.scale {
        sign + ds.subrange(0, ds.len() - d.scale) + seq!['.'] + ds.subrange(
            ds.len() - d.scale,
            ds.len() as int,
        )
    } else {
        sign + seq!['0', '.'] + zero_chars((d.scale - ds.len()) as nat) + ds
    }
}

/// The digit character for `d`, which must be below ten.
pub fn digit_char_exec(d: u128) -> (c: char)
    requires
        d < 10,
    ensures
        c == digit_char(d as nat),
{
    if d == 0 {
        '0'
    } else if d == 1 {
        '1'
    } else if d == 2 {
        '2'
    } else if d == 3 {
        '3'
    } else if d == 4 {
        '4'
    } else if d == 5 {
        '5'
    } else if d == 6 {
        '6'
    } else if d == 7 {
        '7'
    } else if d == 8 {
        '8'
    } else {
        '9'
    }
}

/// The decimal digits of `m`, most significant first.
pub fn nat_digits_exec(m: u128) -> (v: Vec<char>)
    ensures
        v@ == nat_digits(m as nat),
    decreases m,
{
    if m < 10 {
        let mut v: Vec<char> = Vec::new();
        v.push(digit_char_exec(m));
        proof {
            assert(v@ =~= nat_digits(m as nat));
        }
        v
    } else {
        let mut v = nat_digits_exec(m / 10);
        v.push(digit_char_exec(m % 10));
        proof {
            assert(v@ =~= nat_digits(m as nat));
        }
        v
    }
}

impl Decimal {
    /// The canonical text of this decimal, as characters.
    pub fn to_chars(&self) -> (v: Vec<char>)
        ensures
            v@ == dec_chars(*self),
    {
        let ds = nat_digits_exec(self.mantissa);
        let mut v: Vec<char> = Vec::new();
        if self.neg {
            v.push('-');
        }
        if self.scale == 0 {
            let mut i: usize = 0;
            while i < ds.len()
                invariant
                    i <= ds@.len(),
                    v@ == (if self.neg {
                        seq!['-']
                    } else {
                        Seq::<char>::empty()
                    }) + ds@.subrange(0, i as int),
                decreases ds@.len() - i,
            {
                v.push(ds[i]);
                i = i + 1;
                proof {
                    assert(v@ =~= (if self.neg {
                        seq!['-']
                    } else {
                        Seq::<char>::empty()
                    }) + ds@.subrange(0, i as int));
                }
            }
            proof {
                assert(ds@.subrange(0, ds@.len() as int) =~= ds@);
                assert(v@ =~= dec_chars(*self));
            }
            v
        } else if ds.len() > self.scale as usize {
            let cut: usize = ds.len() - self.scale as usize;
            let mut i: usize = 0;
            while i < ds.len()
                invariant
                    i <= ds@.len(),
                    cut == ds@.len() - self.scale,
                    0 < cut <= ds@.len(),
                    v@ == (if self.neg {
                        seq!['-']
                    } else {
                        Seq::<char>::empty()
                    }) + (if i <= cut {
                        ds@.subrange(0, i as int)
                    } else {
                        ds@.subrange(0, cut as int) + seq!['.'] + ds@.subrange(cut as int, i as int)
                    }),
                decreases ds@.len() - i,
            {
                if i == cut {
                    v.push('.');
                    proof {
                        assert(ds@.subrange(cut as int, cut as int) =~= Seq::<char>::empty());
                    }
                }
                v.push(ds[i]);
                i = i + 1;
                proof {
                    if i <= cut {
                        assert(v@ =~= (if self.neg {
                            seq!['-']
                        } else {
                            Seq::<char>::empty()
                        }) + ds@.subrange(0, i as int));
                    } else {
                        assert(v@ =~= (if self.neg {
                            seq!['-']
                        } else {
                            Seq::<char>::empty()
                        }) + (ds@.subrange(0, cut as int) + seq!['.'] + ds@.subrange(
                            cut as int,
                            i as int,
                        )));
                    }
                }
            }
            proof {
                assert(ds@.subrange(cut as int, ds@.len() as int) =~= ds@.subrange(
                    ds@.len() - self.scale,
                    ds@.len() as int,
                ));
                assert(ds@.subrange(0, cut as int) =~= ds@.subrange(0, ds@.len() - self.scale));
                assert(v@ =~= dec_chars(*self));
            }
            v
        } else {
            v.push('0');
            v.push('.');
            let pad: u32 = self.scale - ds.len() as u32;
            let mut i: u32 = 0;
            while i < pad
                invariant
                    i <= pad,
                    v@ == (if self.neg {
                        seq!['-']
                    } else {
                        Seq::<char>::empty()
                    }) + seq!['0', '.'] + zero_chars(i as nat),
                decreases pad - i,
            {
                v.push('0');
                i = i + 1;
                proof {
                    assert(v@ =~= (if self.neg {
                        seq!['-']
                    } else {
                        Seq::<char>::empty()
                    }) + seq!['0', '.'] + zero_chars(i as nat));
                }
            }
            let mut j: usize = 0;
            while j < ds.len()
                invariant
                    j <= ds@.len(),
                    v@ == (if self.neg {
                        seq!['-']
                    } else {
                        Seq::<char>::empty()
                    }) + seq!['0', '.'] + zero_chars(pad as nat) + ds@.subrange(0, j as int),
                decreases ds@.len() - j,
            {
                v.push(ds[j]);
                j = j + 1;
                proof {
                    assert(v@ =~= (if self.neg {
                        seq!['-']
                    } else {
                        Seq::<char>::empty()
                    }) + seq!['0', '.'] + zero_chars(pad as nat) + ds@.subrange(0, j as int));
                }
            }
            proof {
                assert(ds@.subrange(0, ds@.len() as int) =~= ds@);
                assert(v@ =~= dec_chars(*self));
            }
            v
        }
    }
}

} // verus!
