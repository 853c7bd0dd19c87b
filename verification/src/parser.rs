//! The expression parser.
//!
//! A token's raw value text is read as, in order of commitment: a binary
//! `*` / `/` chain over atoms; an atom being a brace-delimited reference
//! path, a hex color literal, a number with a percent, pixel or no unit,
//! or — only when no more specific form carries the parse through — a
//! permissive opaque run of letters, digits and `#%-. ` characters.
//! Parsing is deterministic and total over text made of those characters;
//! anything else is a parse fault.
use vstd::prelude::*;

use crate::color::{hex_color_of, ColorValue};
use crate::decimal::{dec_norm, dec_wf, lemma_dec_norm_wf, nat_digits, Decimal, SCALE_CAP};
use crate::errors::{Error, SpecError};
use crate::expression::{spec_expr_wf, Expression, SpecExpr};
use crate::value::{NumberType, SpecValue, Value};

verus! {

/// Whitespace accepted around a binary operator.
pub open spec fn is_ws(c: char) -> bool {
    c == ' ' || c == '\n' || c == '\t'
}

/// A decimal digit.
pub open spec fn is_digit(c: char) -> bool {
    '0' <= c && c <= '9'
}

/// An ASCII letter or digit.
pub open spec fn is_alnum(c: char) -> bool {
    ('a' <= c && c <= 'z') || ('A' <= c && c <= 'Z') || is_digit(c)
}

/// A character the opaque fallback form accepts.
pub open spec fn is_fallback(c: char) -> bool {
    is_alnum(c) || c == '#' || c == '%' || c == '-' || c == '.' || c == ' '
}

/// A binary operator.
pub open spec fn is_op(c: char) -> bool {
    c == '*' || c == '/'
}

/// A reference-path separator.
pub open spec fn is_sep(c: char) -> bool {
    c == '.' || c == '/'
}

/// The first position at or after `i` that does not continue a whitespace
/// run.
pub open spec fn ws_end(s: Seq<char>, i: int) -> int
    decreases s.len() - i when 0 <= i <= s.len()
{
    if i >= s.len() || !is_ws(s[i]) {
        i
    } else {
        ws_end(s, i + 1)
    }
}

/// The first position at or after `i` that does not continue a digit run.
pub open spec fn digit_end(s: Seq<char>, i: int) -> int
    decreases s.len() - i when 0 <= i <= s.len()
{
    if i >= s.len() || !is_digit(s[i]) {
        i
    } else {
        digit_end(s, i + 1)
    }
}

/// The first position at or after `i` that does not continue a run of
/// letters and digits.
pub open spec fn alnum_end(s: Seq<char>, i: int) -> int
    decreases s.len() - i when 0 <= i <= s.len()
{
    if i >= s.len() || !is_alnum(s[i]) {
        i
    } else {
        alnum_end(s, i + 1)
    }
}

/// The first position at or after `i` that does not continue a fallback
/// run.
pub open spec fn fb_end(s: Seq<char>, i: int) -> int
    decreases s.len() - i when 0 <= i <= s.len()
{
    if i >= s.len() || !is_fallback(s[i]) {
        i
    } else {
        fb_end(s, i + 1)
    }
}

/// The first position at or after `i` holding a path separator, or the
/// length when none follows.
pub open spec fn sep_find(s: Seq<char>, i: int) -> int
    decreases s.len() - i when 0 <= i <= s.len()
{
    if i >= s.len() {
        s.len() as int
    } else if is_sep(s[i]) {
        i
    } else {
        sep_find(s, i + 1)
    }
}

/// A reference path: the brace contents split at every dot and slash, so
/// the two separator styles flatten to the same path.
pub open spec fn ref_path_of(s: Seq<char>) -> Seq<Seq<char>>
    decreases s.len(),
{
    let j = sep_find(s, 0);
    if 0 <= j < s.len() {
        seq![s.subrange(0, j)] + ref_path_of(s.subrange(j + 1, s.len() as int))
    } else {
        seq![s]
    }
}

/// The numeric value of a digit character.
pub open spec fn digit_of(c: char) -> nat {
    (c as nat - '0' as nat) as nat
}

/// The digits `s[i..j)` folded onto `acc`, most significant first.
pub open spec fn fold_digits(s: Seq<char>, i: int, j: int, acc: nat) -> nat
    decreases j - i when i <= j
{
    if i >= j {
        acc
    } else {
        fold_digits(s, i + 1, j, acc * 10 + digit_of(s[i]))
    }
}

/// A number lexeme read at `i`: its end, and the decimal it denotes. The
/// form is an optional minus sign, digits, and an optional point with
/// further digits; a mantissa or scale beyond the machine's decimal
/// representation does not lex, and the catch-all form takes over.
pub open spec fn num_lex(s: Seq<char>, i: int) -> Option<(int, Decimal)>
    recommends
        0 <= i <= s.len(),
{
    let i1 = if i < s.len() && s[i] == '-' {
        i + 1
    } else {
        i
    };
    let neg = i1 != i;
    let dend = digit_end(s, i1);
    if dend == i1 {
        None
    } else {
        let fend = if dend < s.len() && s[dend] == '.' {
            digit_end(s, dend + 1)
        } else {
            dend
        };
        let end = if dend < s.len() && s[dend] == '.' {
            fend
        } else {
            dend
        };
        let m = if dend < s.len() && s[dend] == '.' {
            fold_digits(s, dend + 1, fend, fold_digits(s, i1, dend, 0))
        } else {
            fold_digits(s, i1, dend, 0)
        };
        let scale = if fend > dend {
            fend - dend - 1
        } else {
            0
        };
        if m > u128::MAX || scale > SCALE_CAP {
            None
        } else {
            Some((end, dec_norm(neg, m as u128, scale as u32)))
        }
    }
}

/// The most specific atom form that matches at `i`: a reference, a color,
/// or a number with its unit; `None` when only the fallback can match.
pub open spec fn strict_atom(s: Seq<char>, i: int) -> Option<(SpecExpr, int)>
    recommends
        0 <= i <= s.len(),
{
    if i < s.len() && s[i] == '{' {
        let j = crate::strutil::find_from(s, '}', i + 1);
        if j < s.len() {
            Some((SpecExpr::Ref(ref_path_of(s.subrange(i + 1, j))), j + 1))
        } else {
            None
        }
    } else if i < s.len() && s[i] == '#' {
        let e = alnum_end(s, i + 1);
        match hex_color_of(s.subrange(i + 1, e)) {
            Some(c) => Some((SpecExpr::Value(SpecValue::Color(c)), e)),
            None => None,
        }
    } else if i < s.len() && (is_digit(s[i]) || s[i] == '-') {
        match num_lex(s, i) {
            None => None,
            Some((end, d)) => if end < s.len() && s[end] == '%' {
                Some((SpecExpr::Value(SpecValue::Number(d, NumberType::Percentage)), end + 1))
            } else if end + 1 < s.len() && s[end] == 'p' && s[end + 1] == 'x' {
                Some((SpecExpr::Value(SpecValue::Number(d, NumberType::Pixels)), end + 2))
            } else {
                Some((SpecExpr::Value(SpecValue::Number(d, NumberType::Bare)), end))
            },
        }
    } else {
        None
    }
}

/// Whether the text can continue after an atom ending at `end`: the end of
/// the input right there, or an operator after optional whitespace.
pub open spec fn cont_ok(s: Seq<char>, end: int) -> bool
    recommends
        0 <= end <= s.len(),
{
    let w = ws_end(s, end);
    end == s.len() || (w < s.len() && is_op(s[w]))
}

/// The fallback atom at `i`: the maximal permissive run, accepted only
/// when the text can continue after it.
pub open spec fn fb_atom(s: Seq<char>, i: int) -> Option<(SpecExpr, int)>
    recommends
        0 <= i <= s.len(),
{
    let end = fb_end(s, i);
    if cont_ok(s, end) {
        Some((SpecExpr::Value(SpecValue::Any(s.subrange(i, end))), end))
    } else {
        None
    }
}

/// The atom at `i`: the most specific form whose end lets the text
/// continue, the fallback otherwise, and no atom at all when even the
/// fallback leaves the text stuck.
pub open spec fn atom_parse(s: Seq<char>, i: int) -> Option<(SpecExpr, int)>
    recommends
        0 <= i <= s.len(),
{
    match strict_atom(s, i) {
        Some((e, end)) => if cont_ok(s, end) {
            Some((e, end))
        } else {
            fb_atom(s, i)
        },
        None => fb_atom(s, i),
    }
}

/// Whitespace stops at or before the length.
pub proof fn lemma_ws_end_bounds(s: Seq<char>, i: int)
    requires
        0 <= i <= s.len(),
    ensures
        i <= ws_end(s, i) <= s.len(),
    decreases s.len() - i,
{
    if !(i >= s.len() || !is_ws(s[i])) {
        lemma_ws_end_bounds(s, i + 1);
    }
}

/// Digit runs stop at or before the length.
pub proof fn lemma_digit_end_bounds(s: Seq<char>, i: int)
    requires
        0 <= i <= s.len(),
    ensures
        i <= digit_end(s, i) <= s.len(),
    decreases s.len() - i,
{
    if !(i >= s.len() || !is_digit(s[i])) {
        lemma_digit_end_bounds(s, i + 1);
    }
}

/// Letter-digit runs stop at or before the length.
pub proof fn lemma_alnum_end_bounds(s: Seq<char>, i: int)
    requires
        0 <= i <= s.len(),
    ensures
        i <= alnum_end(s, i) <= s.len(),
    decreases s.len() - i,
{
    if !(i >= s.len() || !is_alnum(s[i])) {
        lemma_alnum_end_bounds(s, i + 1);
    }
}

/// Separator search stays within bounds.
pub proof fn lemma_sep_find_bounds(s: Seq<char>, i: int)
    requires
        0 <= i <= s.len(),
    ensures
        i <= sep_find(s, i) <= s.len(),
    decreases s.len() - i,
{
    if i < s.len() && !is_sep(s[i]) {
        lemma_sep_find_bounds(s, i + 1);
    }
}

/// The brace search stays within bounds.
pub proof fn lemma_find_from_bounds(s: Seq<char>, c: char, i: int)
    requires
        0 <= i <= s.len(),
    ensures
        i <= crate::strutil::find_from(s, c, i) <= s.len(),
    decreases s.len() - i,
{
    if i < s.len() && s[i] != c {
        lemma_find_from_bounds(s, c, i + 1);
    }
}

/// A number lexeme ends after its start and within the text.
pub proof fn lemma_num_lex_bounds(s: Seq<char>, i: int)
    requires
        0 <= i <= s.len(),
        num_lex(s, i) is Some,
    ensures
        i < (num_lex(s, i)->0).0 <= s.len(),
{
    let i1 = if i < s.len() && s[i] == '-' {
        i + 1
    } else {
        i
    };
    lemma_digit_end_bounds(s, i1);
    let dend = digit_end(s, i1);
    if dend < s.len() && s[dend] == '.' {
        lemma_digit_end_bounds(s, dend + 1);
    }
}

/// The binary chain after a first atom: left-associative `*` and `/`
/// steps, each followed by the next atom, until the text ends.
pub open spec fn parse_chain(s: Seq<char>, i: int, acc: SpecExpr) -> Option<SpecExpr>
    recommends
        0 <= i <= s.len(),
    decreases s.len() - i when 0 <= i <= s.len()
{
    if i >= s.len() {
        Some(acc)
    } else {
        let w = ws_end(s, i);
        if w < s.len() && is_op(s[w]) {
            let j = ws_end(s, w + 1);
            match atom_parse(s, j) {
                Some((rhs, end)) => {
                    let joined = if s[w] == '*' {
                        SpecExpr::Mul(Box::new(acc), Box::new(rhs))
                    } else {
                        SpecExpr::Div(Box::new(acc), Box::new(rhs))
                    };
                    if i < end <= s.len() {
                        parse_chain(s, end, joined)
                    } else {
                        None
                    }
                },
                None => None,
            }
        } else {
            None
        }
    }
}

/// What a raw value text parses to: the first atom, extended by the
/// operator chain; `None` is the parse fault.
pub open spec fn spec_parse(s: Seq<char>) -> Option<SpecExpr> {
    match atom_parse(s, 0) {
        Some((e, end)) => if 0 <= end <= s.len() {
            parse_chain(s, end, e)
        } else {
            None
        },
        None => None,
    }
}


/// Finds the first position at or after `i` holding `c`.
fn find_from_exec(s: &Vec<char>, c: char, i: usize) -> (r: usize)
    requires
        i <= s@.len(),
    ensures
        r == crate::strutil::find_from(s@, c, i as int),
        i <= r <= s@.len(),
{
    let mut j: usize = i;
    while j < s.len() && s[j] != c
        invariant
            i <= j <= s@.len(),
            crate::strutil::find_from(s@, c, i as int) == crate::strutil::find_from(
                s@,
                c,
                j as int,
            ),
        decreases s@.len() - j,
    {
        j = j + 1;
    }
    j
}

/// Whether `c` is whitespace.
fn is_ws_exec(c: char) -> (r: bool)
    ensures
        r == is_ws(c),
{
    c == ' ' || c == '\n' || c == '\t'
}

/// Whether `c` is a decimal digit.
fn is_digit_exec(c: char) -> (r: bool)
    ensures
        r == is_digit(c),
{
    '0' <= c && c <= '9'
}

/// Whether `c` is an ASCII letter or digit.
fn is_alnum_exec(c: char) -> (r: bool)
    ensures
        r == is_alnum(c),
{
    ('a' <= c && c <= 'z') || ('A' <= c && c <= 'Z') || ('0' <= c && c <= '9')
}

/// Whether the fallback form accepts `c`.
fn is_fallback_exec(c: char) -> (r: bool)
    ensures
        r == is_fallback(c),
{
    is_alnum_exec(c) || c == '#' || c == '%' || c == '-' || c == '.' || c == ' '
}

/// The end of the whitespace run starting at `i`.
fn ws_end_exec(s: &Vec<char>, i: usize) -> (r: usize)
    requires
        i <= s@.len(),
    ensures
        r == ws_end(s@, i as int),
        i <= r <= s@.len(),
{
    let mut j: usize = i;
    while j < s.len() && is_ws_exec(s[j])
        invariant
            i <= j <= s@.len(),
            ws_end(s@, i as int) == ws_end(s@, j as int),
        decreases s@.len() - j,
    {
        j = j + 1;
    }
    j
}

/// The end of the digit run starting at `i`.
fn digit_end_exec(s: &Vec<char>, i: usize) -> (r: usize)
    requires
        i <= s@.len(),
    ensures
        r == digit_end(s@, i as int),
        i <= r <= s@.len(),
{
    let mut j: usize = i;
    while j < s.len() && is_digit_exec(s[j])
        invariant
            i <= j <= s@.len(),
            digit_end(s@, i as int) == digit_end(s@, j as int),
        decreases s@.len() - j,
    {
        j = j + 1;
    }
    j
}

/// The end of the letter-digit run starting at `i`.
fn alnum_end_exec(s: &Vec<char>, i: usize) -> (r: usize)
    requires
        i <= s@.len(),
    ensures
        r == alnum_end(s@, i as int),
        i <= r <= s@.len(),
{
    let mut j: usize = i;
    while j < s.len() && is_alnum_exec(s[j])
        invariant
            i <= j <= s@.len(),
            alnum_end(s@, i as int) == alnum_end(s@, j as int),
        decreases s@.len() - j,
    {
        j = j + 1;
    }
    j
}

/// The end of the fallback run starting at `i`.
fn fb_end_exec(s: &Vec<char>, i: usize) -> (r: usize)
    requires
        i <= s@.len(),
    ensures
        r == fb_end(s@, i as int),
        i <= r <= s@.len(),
{
    let mut j: usize = i;
    while j < s.len() && is_fallback_exec(s[j])
        invariant
            i <= j <= s@.len(),
            fb_end(s@, i as int) == fb_end(s@, j as int),
        decreases s@.len() - j,
    {
        j = j + 1;
    }
    j
}

/// The first path separator at or after `i`.
fn sep_find_exec(s: &Vec<char>, i: usize) -> (r: usize)
    requires
        i <= s@.len(),
    ensures
        r == sep_find(s@, i as int),
        i <= r <= s@.len(),
{
    let mut j: usize = i;
    while j < s.len() && s[j] != '.' && s[j] != '/'
        invariant
            i <= j <= s@.len(),
            sep_find(s@, i as int) == sep_find(s@, j as int),
        decreases s@.len() - j,
    {
        j = j + 1;
    }
    j
}

/// Copies `s[from..to)` into a fresh vector.
fn subrange_chars(s: &Vec<char>, from: usize, to: usize) -> (r: Vec<char>)
    requires
        from <= to <= s@.len(),
    ensures
        r@ == s@.subrange(from as int, to as int),
{
    let mut r: Vec<char> = Vec::new();
    let mut j: usize = from;
    while j < to
        invariant
            from <= j <= to <= s@.len(),
            r@ == s@.subrange(from as int, j as int),
        decreases to - j,
    {
        r.push(s[j]);
        j = j + 1;
        proof {
            assert(r@ =~= s@.subrange(from as int, j as int));
        }
    }
    r
}

/// Whether the text can continue after an atom ending at `end`.
fn cont_ok_exec(s: &Vec<char>, end: usize) -> (r: bool)
    requires
        end <= s@.len(),
    ensures
        r == cont_ok(s@, end as int),
{
    if end == s.len() {
        return true;
    }
    let w = ws_end_exec(s, end);
    w < s.len() && (s[w] == '*' || s[w] == '/')
}

/// Splits the contents of a reference at its separators, appending each
/// piece.
fn split_path_into(inner: &Vec<char>, out: &mut Vec<String>)
    ensures
        crate::strutil::strings_view(final(out)@) == crate::strutil::strings_view(old(out)@)
            + ref_path_of(inner@),
    decreases inner@.len(),
{
    let j = sep_find_exec(inner, 0);
    if j < inner.len() {
        let head = subrange_chars(inner, 0, j);
        let rest = subrange_chars(inner, j + 1, inner.len());
        let ghost mid = out@;
        out.push(crate::strutil::chars_to_string(&head));
        proof {
            assert(crate::strutil::strings_view(out@) =~= crate::strutil::strings_view(mid)
                + seq![inner@.subrange(0, j as int)]);
        }
        split_path_into(&rest, out);
        proof {
            assert(crate::strutil::strings_view(out@) =~= crate::strutil::strings_view(old(out)@)
                + ref_path_of(inner@));
        }
    } else {
        out.push(crate::strutil::chars_to_string(inner));
        proof {
            assert(crate::strutil::strings_view(out@) =~= crate::strutil::strings_view(old(out)@)
                + ref_path_of(inner@));
        }
    }
}

/// Reads a number lexeme at `i`.
#[verifier::loop_isolation(false)]
pub(crate) fn lex_number(s: &Vec<char>, i: usize) -> (r: Option<(usize, Decimal)>)
    requires
        i <= s@.len(),
    ensures
        match r {
            Some(p) => num_lex(s@, i as int) == Some((p.0 as int, p.1)) && dec_wf(p.1) && i < p.0
                <= s@.len(),
            None => num_lex(s@, i as int) is None,
        },
{
    let i1: usize = if i < s.len() && s[i] == '-' {
        i + 1
    } else {
        i
    };
    let neg = i1 != i;
    let dend = digit_end_exec(s, i1);
    if dend == i1 {
        return None;
    }
    let ghost m_int = fold_digits(s@, i1 as int, dend as int, 0);
    let ghost fend_g: int = if dend < s@.len() && s@[dend as int] == '.' {
        digit_end(s@, dend as int + 1)
    } else {
        dend as int
    };
    let ghost m_total = if dend < s@.len() && s@[dend as int] == '.' {
        fold_digits(s@, dend as int + 1, fend_g, m_int)
    } else {
        m_int
    };
    proof {
        if dend < s@.len() && s@[dend as int] == '.' {
            lemma_digit_end_bounds(s@, dend as int + 1);
            lemma_fold_digits_lower_mono(s@, dend as int + 1, fend_g, m_int);
        }
        assert(m_total >= m_int);
    }
    let mut acc: u128 = 0;
    let mut j: usize = i1;
    while j < dend
        invariant
            i1 <= j <= dend <= s@.len(),
            digit_end(s@, i1 as int) == dend,
            m_int == fold_digits(s@, i1 as int, dend as int, 0),
            m_int == fold_digits(s@, j as int, dend as int, acc as nat),
        decreases dend - j,
    {
        proof {
            lemma_digit_run(s@, i1 as int, dend as int, j as int);
        }
        let d: u128 = (s[j] as u32 - '0' as u32) as u128;
        proof {
            assert(digit_of(s@[j as int]) == d as nat);
            assert(fold_digits(s@, j as int, dend as int, acc as nat) == fold_digits(
                s@,
                j as int + 1,
                dend as int,
                (acc as nat) * 10 + digit_of(s@[j as int]),
            ));
        }
        let step = match acc.checked_mul(10) {
            Some(t) => t.checked_add(d),
            None => None,
        };
        match step {
            None => {
                proof {
                    lemma_fold_digits_lower_mono(
                        s@,
                        j as int + 1,
                        dend as int,
                        (acc as nat) * 10 + digit_of(s@[j as int]),
                    );
                    assert(m_int > u128::MAX);
                    assert(m_total > u128::MAX);
                    assert(num_lex(s@, i as int) is None);
                }
                return None;
            },
            Some(next) => {
                acc = next;
                j = j + 1;
            },
        }
    }
    proof {
        assert(fold_digits(s@, dend as int, dend as int, acc as nat) == acc as nat);
        assert(m_int == acc as nat);
    }
    let mut end: usize = dend;
    let mut scale: usize = 0;
    if dend < s.len() && s[dend] == '.' {
        let fend = digit_end_exec(s, dend + 1);
        proof {
            assert(fend_g == fend);
        }
        let mut k: usize = dend + 1;
        while k < fend
            invariant
                dend + 1 <= k <= fend <= s@.len(),
                digit_end(s@, dend as int + 1) == fend,
                m_total == fold_digits(s@, dend as int + 1, fend as int, m_int),
                fend == fend_g,
                m_total == fold_digits(s@, k as int, fend as int, acc as nat),
            decreases fend - k,
        {
            proof {
                lemma_digit_run(s@, dend as int + 1, fend as int, k as int);
            }
            let d: u128 = (s[k] as u32 - '0' as u32) as u128;
            proof {
                assert(digit_of(s@[k as int]) == d as nat);
                assert(fold_digits(s@, k as int, fend as int, acc as nat) == fold_digits(
                    s@,
                    k as int + 1,
                    fend as int,
                    (acc as nat) * 10 + digit_of(s@[k as int]),
                ));
            }
            let step = match acc.checked_mul(10) {
                Some(t) => t.checked_add(d),
                None => None,
            };
            match step {
                None => {
                    proof {
                        lemma_fold_digits_lower_mono(
                            s@,
                            k as int + 1,
                            fend as int,
                            (acc as nat) * 10 + digit_of(s@[k as int]),
                        );
                        assert(m_total > u128::MAX);
                        assert(num_lex(s@, i as int) is None);
                    }
                    return None;
                },
                Some(next) => {
                    acc = next;
                    k = k + 1;
                },
            }
        }
        proof {
            assert(fold_digits(s@, fend as int, fend as int, acc as nat) == acc as nat);
            assert(m_total == acc as nat);
        }
        end = fend;
        scale = fend - (dend + 1);
    } else {
        proof {
            assert(m_total == m_int);
        }
    }
    if scale > SCALE_CAP as usize {
        return None;
    }
    let d = Decimal::normalize(neg, acc, scale as u32);
    proof {
        lemma_dec_norm_wf(neg, acc, scale as u32);
        assert(m_total == acc as nat);
        assert(m_total <= u128::MAX);
    }
    Some((end, d))
}

/// Every position of a digit run holds a digit.
proof fn lemma_digit_run(s: Seq<char>, i: int, dend: int, j: int)
    requires
        0 <= i <= j < dend,
        dend == digit_end(s, i),
        i <= s.len(),
    ensures
        j < s.len() && is_digit(s[j]),
    decreases j - i,
{
    lemma_digit_end_bounds(s, i);
    if i < j {
        lemma_digit_run(s, i + 1, dend, j);
    }
}

/// Folding digits never shrinks the accumulator.
proof fn lemma_fold_digits_lower_mono(s: Seq<char>, i: int, j: int, acc: nat)
    requires
        i <= j,
    ensures
        fold_digits(s, i, j, acc) >= acc,
    decreases j - i,
{
    if i < j {
        lemma_fold_digits_lower_mono(s, i + 1, j, acc * 10 + digit_of(s[i]));
    }
}


/// Reads the most specific atom form at `i`, if any matches.
fn parse_strict_atom(s: &Vec<char>, i: usize) -> (r: Option<(Expression, usize)>)
    requires
        i <= s@.len(),
    ensures
        match r {
            Some(p) => strict_atom(s@, i as int) == Some((p.0@, p.1 as int)) && spec_expr_wf(p.0@)
                && i <= p.1 <= s@.len(),
            None => strict_atom(s@, i as int) is None,
        },
{
    if i < s.len() && s[i] == '{' {
        let j = find_from_exec(s, '}', i + 1);
        if j < s.len() {
            let inner = subrange_chars(s, i + 1, j);
            let mut path: Vec<String> = Vec::new();
            split_path_into(&inner, &mut path);
            proof {
                assert(crate::strutil::strings_view(path@) =~= ref_path_of(
                    s@.subrange(i as int + 1, j as int),
                ));
            }
            Some((Expression::Ref(path), j + 1))
        } else {
            None
        }
    } else if i < s.len() && s[i] == '#' {
        let e = alnum_end_exec(s, i + 1);
        let digits = subrange_chars(s, i + 1, e);
        match ColorValue::from_hex(&digits) {
            Some(c) => Some((Expression::Value(Value::Color(c)), e)),
            None => None,
        }
    } else if i < s.len() && (is_digit_exec(s[i]) || s[i] == '-') {
        match lex_number(s, i) {
            None => None,
            Some((end, d)) => {
                if end < s.len() && s[end] == '%' {
                    Some((Expression::Value(Value::Number(d, NumberType::Percentage)), end + 1))
                } else if end < s.len() && end + 1 < s.len() && s[end] == 'p' && s[end + 1]
                    == 'x' {
                    Some((Expression::Value(Value::Number(d, NumberType::Pixels)), end + 2))
                } else {
                    Some((Expression::Value(Value::Number(d, NumberType::Bare)), end))
                }
            },
        }
    } else {
        None
    }
}

/// Reads the fallback atom at `i`, if the text can continue after it.
fn parse_fb_atom(s: &Vec<char>, i: usize) -> (r: Option<(Expression, usize)>)
    requires
        i <= s@.len(),
    ensures
        match r {
            Some(p) => fb_atom(s@, i as int) == Some((p.0@, p.1 as int)) && spec_expr_wf(p.0@) && i
                <= p.1 <= s@.len(),
            None => fb_atom(s@, i as int) is None,
        },
{
    let end = fb_end_exec(s, i);
    if cont_ok_exec(s, end) {
        let run = subrange_chars(s, i, end);
        let text = crate::strutil::chars_to_string(&run);
        Some((Expression::Value(Value::Any(text)), end))
    } else {
        None
    }
}

/// Reads the atom at `i`: the most specific form whose end lets the text
/// continue, else the fallback.
fn parse_atom(s: &Vec<char>, i: usize) -> (r: Option<(Expression, usize)>)
    requires
        i <= s@.len(),
    ensures
        match r {
            Some(p) => atom_parse(s@, i as int) == Some((p.0@, p.1 as int)) && spec_expr_wf(p.0@)
                && i <= p.1 <= s@.len(),
            None => atom_parse(s@, i as int) is None,
        },
{
    match parse_strict_atom(s, i) {
        Some((e, end)) => {
            if cont_ok_exec(s, end) {
                Some((e, end))
            } else {
                parse_fb_atom(s, i)
            }
        },
        None => parse_fb_atom(s, i),
    }
}

/// Parses a raw token value into an expression: a left-associative `*` and
/// `/` chain over reference, color, number and opaque atoms, committing to
/// the most specific atom form that carries the parse through. Text that
/// no form covers is a parse fault holding the offending text.
pub fn parse_expression(s: &str) -> (r: Result<Expression, Error>)
    ensures
        match r {
            Ok(e) => spec_parse(s@) == Some(e@) && spec_expr_wf(e@),
            Err(er) => spec_parse(s@) is None && er@ == SpecError::Parse(s@),
        },
{
    let chars = crate::strutil::str_to_chars(s);
    match parse_atom(&chars, 0) {
        None => Err(Error::Parse(s.to_owned())),
        Some((first, end0)) => {
            let mut cur = first;
            let mut i = end0;
            let ghost sv = chars@;
            while i < chars.len()
                invariant
                    i <= sv.len(),
                    sv == chars@,
                    sv == s@,
                    spec_expr_wf(cur@),
                    parse_chain(sv, i as int, cur@) == spec_parse(s@),
                decreases sv.len() - i,
            {
                let w = ws_end_exec(&chars, i);
                if !(w < chars.len() && (chars[w] == '*' || chars[w] == '/')) {
                    proof {
                        assert(parse_chain(sv, i as int, cur@) is None);
                    }
                    return Err(Error::Parse(s.to_owned()));
                }
                let mul = chars[w] == '*';
                let j = ws_end_exec(&chars, w + 1);
                match parse_atom(&chars, j) {
                    None => {
                        proof {
                            assert(parse_chain(sv, i as int, cur@) is None);
                        }
                        return Err(Error::Parse(s.to_owned()));
                    },
                    Some((rhs, end2)) => {
                        let joined = if mul {
                            Expression::Mul(Box::new(cur), Box::new(rhs))
                        } else {
                            Expression::Div(Box::new(cur), Box::new(rhs))
                        };
                        proof {
                            assert(parse_chain(sv, i as int, joined@) == parse_chain(
                                sv,
                                i as int,
                                joined@,
                            ));
                        }
                        cur = joined;
                        i = end2;
                    },
                }
            }
            Ok(cur)
        },
    }
}


/// No character before the found separator is a separator, and the found
/// position holds one when it is inside the text.
proof fn lemma_sep_find_chars(s: Seq<char>, i: int)
    requires
        0 <= i <= s.len(),
    ensures
        forall|m: int| i <= m < sep_find(s, i) ==> !is_sep(s[m]),
        sep_find(s, i) < s.len() ==> is_sep(s[sep_find(s, i)]),
    decreases s.len() - i,
{
    if i < s.len() && !is_sep(s[i]) {
        lemma_sep_find_chars(s, i + 1);
    }
}

/// A position holding a separator with none before it is the found one.
proof fn lemma_sep_find_is(s: Seq<char>, i: int, k: int)
    requires
        0 <= i <= k < s.len(),
        forall|m: int| i <= m < k ==> !is_sep(s[m]),
        is_sep(s[k]),
    ensures
        sep_find(s, i) == k,
    decreases k - i,
{
    if i < k {
        lemma_sep_find_is(s, i + 1, k);
    }
}

/// Splitting at a separator placed between two texts splits exactly
/// there: the path of the whole is the two paths, one after the other.
proof fn lemma_ref_path_concat(x: Seq<char>, y: Seq<char>, c: char)
    requires
        is_sep(c),
    ensures
        ref_path_of(x + seq![c] + y) == ref_path_of(x) + ref_path_of(y),
    decreases x.len(),
{
    let s = x + seq![c] + y;
    let jx = sep_find(x, 0);
    lemma_sep_find_bounds(x, 0);
    lemma_sep_find_chars(x, 0);
    if jx >= x.len() {
        assert(forall|m: int| 0 <= m < x.len() ==> !is_sep(s[m]));
        assert(s[x.len() as int] == c);
        lemma_sep_find_is(s, 0, x.len() as int);
        assert(ref_path_of(s) == seq![s.subrange(0, x.len() as int)] + ref_path_of(
            s.subrange(x.len() as int + 1, s.len() as int),
        ));
        assert(s.subrange(0, x.len() as int) =~= x);
        assert(s.subrange(x.len() as int + 1, s.len() as int) =~= y);
        assert(ref_path_of(x) == seq![x]);
        assert(ref_path_of(s) =~= ref_path_of(x) + ref_path_of(y));
    } else {
        assert(forall|m: int| 0 <= m < jx ==> !is_sep(s[m]));
        assert(is_sep(s[jx]));
        lemma_sep_find_is(s, 0, jx);
        let x2 = x.subrange(jx + 1, x.len() as int);
        assert(s.subrange(jx + 1, s.len() as int) =~= x2 + seq![c] + y);
        lemma_ref_path_concat(x2, y, c);
        assert(ref_path_of(s) == seq![s.subrange(0, jx)] + ref_path_of(
            s.subrange(jx + 1, s.len() as int),
        ));
        assert(s.subrange(0, jx) =~= x.subrange(0, jx));
        assert(ref_path_of(x) == seq![x.subrange(0, jx)] + ref_path_of(x2));
        assert(ref_path_of(s) =~= ref_path_of(x) + ref_path_of(y));
    }
}

/// Reference flattening is path-equivalent regardless of separator style:
/// for any two texts, joining them with a dot and joining them with a
/// slash flatten to the identical path.
pub proof fn lemma_ref_separator_equivalence(x: Seq<char>, y: Seq<char>)
    ensures
        ref_path_of(x + seq!['.'] + y) == ref_path_of(x + seq!['/'] + y),
{
    lemma_ref_path_concat(x, y, '.');
    lemma_ref_path_concat(x, y, '/');
}


/// Digit characters are digits, letters and digits are alphanumeric, and
/// a digit's character maps back to its value.
proof fn lemma_digit_char_facts(x: nat)
    requires
        x < 10,
    ensures
        is_digit(crate::decimal::digit_char(x)),
        is_alnum(crate::decimal::digit_char(x)),
        digit_of(crate::decimal::digit_char(x)) == x,
{
}

/// Every character of a number's digit text is a digit.
proof fn lemma_nat_digits_are_digits(m: nat)
    ensures
        nat_digits(m).len() >= 1,
        forall|i: int|
            0 <= i < nat_digits(m).len() ==> is_digit(#[trigger] nat_digits(m)[i]),
    decreases m,
{
    lemma_digit_char_facts(m % 10);
    if m < 10 {
        lemma_digit_char_facts(m);
    } else {
        lemma_nat_digits_are_digits(m / 10);
        assert(forall|i: int|
            0 <= i < nat_digits(m / 10).len() ==> is_digit(#[trigger] nat_digits(m)[i]));
    }
}

/// Every character of a zero run is the zero digit.
proof fn lemma_zero_chars_digits(n: nat)
    ensures
        crate::decimal::zero_chars(n).len() == n,
        forall|i: int|
            0 <= i < n ==> #[trigger] crate::decimal::zero_chars(n)[i] == '0',
    decreases n,
{
    if n > 0 {
        lemma_zero_chars_digits((n - 1) as nat);
    }
}

/// A digit run ends exactly where digits stop.
proof fn lemma_digit_end_is(s: Seq<char>, i: int, k: int)
    requires
        0 <= i <= k <= s.len(),
        forall|m: int| i <= m < k ==> is_digit(#[trigger] s[m]),
        k < s.len() ==> !is_digit(s[k]),
    ensures
        digit_end(s, i) == k,
    decreases k - i,
{
    if i < k {
        lemma_digit_end_is(s, i + 1, k);
    }
}

/// A run of letters and digits ends exactly where they stop.
proof fn lemma_alnum_end_is(s: Seq<char>, i: int, k: int)
    requires
        0 <= i <= k <= s.len(),
        forall|m: int| i <= m < k ==> is_alnum(#[trigger] s[m]),
        k < s.len() ==> !is_alnum(s[k]),
    ensures
        alnum_end(s, i) == k,
    decreases k - i,
{
    if i < k {
        lemma_alnum_end_is(s, i + 1, k);
    }
}

/// Folding a longer run is folding its first part, then the rest.
proof fn lemma_fold_compose(s: Seq<char>, i: int, j: int, k: int, acc: nat)
    requires
        i <= j <= k,
    ensures
        fold_digits(s, i, k, acc) == fold_digits(s, j, k, fold_digits(s, i, j, acc)),
    decreases j - i,
{
    if i < j {
        lemma_fold_compose(s, i + 1, j, k, acc * 10 + digit_of(s[i]));
    }
}

/// Folds agree on equal character runs.
proof fn lemma_fold_eq_subrange(s: Seq<char>, i: int, t: Seq<char>, k: int, n: int, acc: nat)
    requires
        0 <= i,
        i + n <= s.len(),
        0 <= k,
        k + n <= t.len(),
        n >= 0,
        forall|p: int| 0 <= p < n ==> #[trigger] s[i + p] == t[k + p],
    ensures
        fold_digits(s, i, i + n, acc) == fold_digits(t, k, k + n, acc),
    decreases n,
{
    if n > 0 {
        assert(s[i + 0] == t[k + 0]);
        assert forall|p: int| 0 <= p < n - 1 implies #[trigger] s[(i + 1) + p] == t[(k + 1) + p] by {
            assert(s[i + (p + 1)] == t[k + (p + 1)]);
        }
        lemma_fold_eq_subrange(s, i + 1, t, k + 1, n - 1, acc * 10 + digit_of(s[i]));
    }
}

/// Folding the digit text of a number recovers the number.
proof fn lemma_fold_nat_digits(m: nat, acc: nat)
    ensures
        fold_digits(nat_digits(m), 0, nat_digits(m).len() as int, acc) == acc * crate::decimal::pow10(
            nat_digits(m).len() as nat,
        ) + m,
    decreases m,
{
    let ds = nat_digits(m);
    if m < 10 {
        lemma_digit_char_facts(m);
        assert(fold_digits(ds, 1, 1, acc * 10 + digit_of(ds[0])) == acc * 10 + digit_of(ds[0]));
        assert(fold_digits(ds, 0, 1, acc) == acc * 10 + m);
        assert(crate::decimal::pow10(0) == 1);
        assert(crate::decimal::pow10(1) == 10);
    } else {
        let pre = nat_digits(m / 10);
        let n = pre.len() as int;
        lemma_fold_nat_digits(m / 10, acc);
        assert(forall|p: int| 0 <= p < n ==> #[trigger] ds[0 + p] == pre[0 + p]);
        lemma_fold_eq_subrange(ds, 0, pre, 0, n, acc);
        lemma_fold_compose(ds, 0, n, n + 1, acc);
        lemma_digit_char_facts(m % 10);
        assert(ds[n] == crate::decimal::digit_char(m % 10));
        assert(fold_digits(ds, n + 1, n + 1, fold_digits(ds, 0, n, acc) * 10 + digit_of(ds[n]))
            == fold_digits(ds, 0, n, acc) * 10 + digit_of(ds[n]));
        assert(fold_digits(ds, n, n + 1, fold_digits(ds, 0, n, acc)) == fold_digits(ds, 0, n, acc)
            * 10 + (m % 10));
        assert(crate::decimal::pow10((n + 1) as nat) == 10 * crate::decimal::pow10(n as nat));
        assert((acc * crate::decimal::pow10(n as nat) + m / 10) * 10 == acc * (crate::decimal::pow10(
            n as nat,
        ) * 10) + (m / 10) * 10) by (nonlinear_arith);
    }
}

/// Folding a zero run scales the accumulator.
proof fn lemma_fold_zeros(s: Seq<char>, i: int, k: int, acc: nat)
    requires
        0 <= i <= k <= s.len(),
        forall|m: int| i <= m < k ==> #[trigger] s[m] == '0',
    ensures
        fold_digits(s, i, k, acc) == acc * crate::decimal::pow10((k - i) as nat),
    decreases k - i,
{
    if i < k {
        assert(s[i] == '0');
        assert(digit_of(s[i]) == 0);
        lemma_fold_zeros(s, i + 1, k, acc * 10);
        assert(fold_digits(s, i, k, acc) == fold_digits(s, i + 1, k, acc * 10));
        assert((k - (i + 1)) as nat == (k - i - 1) as nat);
        vstd::arithmetic::mul::lemma_mul_is_associative(
            acc as int,
            10,
            crate::decimal::pow10((k - i - 1) as nat) as int,
        );
        assert(crate::decimal::pow10((k - i) as nat) == 10 * crate::decimal::pow10(
            (k - i - 1) as nat,
        ));
        assert(fold_digits(s, i, k, acc) == acc * crate::decimal::pow10((k - i) as nat));
    } else {
        assert(fold_digits(s, i, k, acc) == acc);
        assert(crate::decimal::pow10(0) == 1);
        assert((k - i) as nat == 0);
        assert(acc * crate::decimal::pow10((k - i) as nat) == acc * 1);
    }
}


/// Hex digit characters are letters or digits.
proof fn lemma_hex_digit_alnum(d: nat)
    requires
        d < 16,
    ensures
        is_alnum(crate::color::hex_digit_char(d)),
{
}

/// The hex text of a color is one committed color atom.
#[verifier::rlimit(100)]
#[verifier::spinoff_prover]
proof fn lemma_color_atom(c: ColorValue)
    ensures
        atom_parse(crate::color::color_hex_chars(c), 0) == Some(
            (SpecExpr::Value(SpecValue::Color(c)), crate::color::color_hex_chars(c).len() as int),
        ),
{
    let s = crate::color::color_hex_chars(c);
    crate::color::lemma_color_hex_roundtrip(c);
    assert(forall|m: int| 1 <= m < s.len() ==> is_alnum(#[trigger] s[m])) by {
        lemma_hex_digit_alnum((c.r / 16) as nat);
        lemma_hex_digit_alnum((c.r % 16) as nat);
        lemma_hex_digit_alnum((c.g / 16) as nat);
        lemma_hex_digit_alnum((c.g % 16) as nat);
        lemma_hex_digit_alnum((c.b / 16) as nat);
        lemma_hex_digit_alnum((c.b % 16) as nat);
        lemma_hex_digit_alnum((c.a / 16) as nat);
        lemma_hex_digit_alnum((c.a % 16) as nat);
        if c.a == 255 {
            assert(s.len() == 7);
            assert(s[1] == crate::color::hex_digit_char((c.r / 16) as nat));
            assert(s[2] == crate::color::hex_digit_char((c.r % 16) as nat));
            assert(s[3] == crate::color::hex_digit_char((c.g / 16) as nat));
            assert(s[4] == crate::color::hex_digit_char((c.g % 16) as nat));
            assert(s[5] == crate::color::hex_digit_char((c.b / 16) as nat));
            assert(s[6] == crate::color::hex_digit_char((c.b % 16) as nat));
        } else {
            assert(s.len() == 9);
            assert(s[1] == crate::color::hex_digit_char((c.r / 16) as nat));
            assert(s[2] == crate::color::hex_digit_char((c.r % 16) as nat));
            assert(s[3] == crate::color::hex_digit_char((c.g / 16) as nat));
            assert(s[4] == crate::color::hex_digit_char((c.g % 16) as nat));
            assert(s[5] == crate::color::hex_digit_char((c.b / 16) as nat));
            assert(s[6] == crate::color::hex_digit_char((c.b % 16) as nat));
            assert(s[7] == crate::color::hex_digit_char((c.a / 16) as nat));
            assert(s[8] == crate::color::hex_digit_char((c.a % 16) as nat));
        }
    }
    lemma_alnum_end_is(s, 1, s.len() as int);
    assert(s[0] == '#');
    assert(s[0] != '{');
    assert(strict_atom(s, 0) == Some(
        (SpecExpr::Value(SpecValue::Color(c)), s.len() as int),
    ));
    assert(cont_ok(s, s.len() as int));
}

/// Parsing is total and deterministic over color literals: the hex text
/// of any color parses back to exactly that color literal.
pub proof fn lemma_color_roundtrip(c: ColorValue)
    ensures
        spec_parse(crate::color::color_hex_chars(c)) == Some(
            SpecExpr::Value(SpecValue::Color(c)),
        ),
{
    let s = crate::color::color_hex_chars(c);
    lemma_color_atom(c);
    assert(parse_chain(s, s.len() as int, SpecExpr::Value(SpecValue::Color(c))) == Some(
        SpecExpr::Value(SpecValue::Color(c)),
    ));
}


/// The canonical text of a well-formed decimal, followed by anything that
/// does not continue a number, reads back as exactly that decimal.
#[verifier::rlimit(100)]
#[verifier::spinoff_prover]
proof fn lemma_num_lex_of_dec(d: Decimal, suffix: Seq<char>)
    requires
        dec_wf(d),
        suffix.len() > 0 ==> !is_digit(suffix[0]) && suffix[0] != '.',
    ensures
        num_lex(crate::decimal::dec_chars(d) + suffix, 0) == Some(
            (crate::decimal::dec_chars(d).len() as int, d),
        ),
{
    let nd = crate::decimal::dec_chars(d);
    let s = nd + suffix;
    let m = d.mantissa as nat;
    let sc = d.scale as int;
    let ds = nat_digits(m);
    let l = ds.len() as int;
    let sl: int = if d.neg {
        1
    } else {
        0
    };
    lemma_nat_digits_are_digits(m);
    let i1: int = if 0 < s.len() && s[0] == '-' {
        1
    } else {
        0
    };
    if sc == 0 {
        assert(nd =~= (if d.neg {
            seq!['-']
        } else {
            Seq::<char>::empty()
        }) + ds);
        assert(forall|p: int| 0 <= p < l ==> #[trigger] s[sl + p] == ds[p]);
        if d.neg {
            assert(s[0] == '-');
        } else {
            assert(is_digit(s[0]));
            assert(s[0] != '-');
        }
        assert(i1 == sl);
        assert forall|p: int| i1 <= p < sl + l implies is_digit(#[trigger] s[p]) by {
            assert(s[p] == ds[p - sl]);
        }
        assert(sl + l < s.len() ==> !is_digit(s[sl + l]));
        lemma_digit_end_is(s, i1, sl + l);
        let dend = sl + l;
        assert(dend != i1);
        assert(dend < s.len() ==> s[dend] != '.');
        lemma_fold_eq_subrange(s, i1, ds, 0, l, 0);
        lemma_fold_nat_digits(m, 0);
        assert(fold_digits(s, i1, dend, 0) == m);
        assert(num_lex(s, 0) == Some((dend, crate::decimal::dec_norm(d.neg, d.mantissa, 0))));
        crate::decimal::lemma_dec_norm_id(d);
        assert(dend == nd.len());
    } else if l > sc {
        let cut = l - sc;
        assert(nd =~= (if d.neg {
            seq!['-']
        } else {
            Seq::<char>::empty()
        }) + ds.subrange(0, cut) + seq!['.'] + ds.subrange(cut, l));
        if d.neg {
            assert(s[0] == '-');
        } else {
            assert(s[0] == ds[0]);
            assert(is_digit(s[0]));
            assert(s[0] != '-');
        }
        assert(i1 == sl);
        assert(forall|p: int| 0 <= p < cut ==> #[trigger] s[sl + p] == ds[p]);
        assert(s[sl + cut] == '.');
        assert(forall|p: int| 0 <= p < sc ==> #[trigger] s[sl + cut + 1 + p] == ds[cut + p]);
        assert forall|p: int| i1 <= p < sl + cut implies is_digit(#[trigger] s[p]) by {
            assert(s[p] == ds[p - sl]);
        }
        assert(!is_digit('.'));
        lemma_digit_end_is(s, i1, sl + cut);
        let dend = sl + cut;
        assert(dend != i1);
        assert(s[dend] == '.');
        assert forall|p: int| dend + 1 <= p < dend + 1 + sc implies is_digit(#[trigger] s[p]) by {
            assert(s[p] == ds[cut + (p - dend - 1)]);
        }
        assert(dend + 1 + sc < s.len() ==> !is_digit(s[dend + 1 + sc]));
        lemma_digit_end_is(s, dend + 1, dend + 1 + sc);
        let fend = dend + 1 + sc;
        let acc0 = fold_digits(s, i1, dend, 0);
        assert forall|p: int| 0 <= p < cut implies #[trigger] s[i1 + p] == ds[0 + p] by {
            assert(s[sl + p] == ds[p]);
        }
        lemma_fold_eq_subrange(s, i1, ds, 0, cut, 0);
        assert forall|p: int| 0 <= p < sc implies #[trigger] s[(dend + 1) + p] == ds[cut + p] by {
            assert(s[sl + cut + 1 + p] == ds[cut + p]);
        }
        lemma_fold_eq_subrange(s, dend + 1, ds, cut, sc, acc0);
        lemma_fold_compose(ds, 0, cut, l, 0);
        lemma_fold_nat_digits(m, 0);
        assert(fold_digits(s, dend + 1, fend, acc0) == m);
        assert(fend - dend - 1 == sc);
        crate::decimal::lemma_dec_norm_id(d);
        assert(fend == nd.len());
        assert(num_lex(s, 0) == Some((nd.len() as int, d)));
    } else {
        let z = sc - l;
        let zs = crate::decimal::zero_chars(z as nat);
        lemma_zero_chars_digits(z as nat);
        assert(nd =~= (if d.neg {
            seq!['-']
        } else {
            Seq::<char>::empty()
        }) + seq!['0', '.'] + zs + ds);
        if d.neg {
            assert(s[0] == '-');
        } else {
            assert(s[0] == '0');
            assert(s[0] != '-');
        }
        assert(i1 == sl);
        assert(s[sl] == '0');
        assert(s[sl + 1] == '.');
        assert(is_digit('0'));
        assert(!is_digit('.'));
        lemma_digit_end_is(s, i1, sl + 1);
        let dend = sl + 1;
        assert(dend != i1);
        assert(s[dend] == '.');
        assert(forall|p: int| 0 <= p < z ==> #[trigger] s[dend + 1 + p] == zs[p]);
        assert(forall|p: int| 0 <= p < l ==> #[trigger] s[dend + 1 + z + p] == ds[p]);
        assert forall|p: int| dend + 1 <= p < dend + 1 + sc implies is_digit(#[trigger] s[p]) by {
            if p < dend + 1 + z {
                assert(s[p] == zs[p - dend - 1]);
                assert(s[p] == '0');
            } else {
                assert(s[p] == ds[p - dend - 1 - z]);
            }
        }
        assert(dend + 1 + sc < s.len() ==> !is_digit(s[dend + 1 + sc]));
        lemma_digit_end_is(s, dend + 1, dend + 1 + sc);
        let fend = dend + 1 + sc;
        let acc0 = fold_digits(s, i1, dend, 0);
        assert(fold_digits(s, i1 + 1, dend, 0 * 10 + digit_of(s[i1])) == 0 * 10 + digit_of(
            s[i1],
        ));
        assert(digit_of('0') == 0);
        assert(acc0 == 0);
        assert forall|p: int| dend + 1 <= p < dend + 1 + z implies #[trigger] s[p] == '0' by {
            assert(s[p] == zs[p - dend - 1]);
        }
        lemma_fold_zeros(s, dend + 1, dend + 1 + z, 0);
        assert(0 * crate::decimal::pow10(z as nat) == 0) by (nonlinear_arith);
        assert forall|p: int| 0 <= p < l implies #[trigger] s[(dend + 1 + z) + p] == ds[0 + p] by {
            assert(s[dend + 1 + z + p] == ds[p]);
        }
        lemma_fold_eq_subrange(s, dend + 1 + z, ds, 0, l, 0);
        lemma_fold_compose(s, dend + 1, dend + 1 + z, fend, 0);
        lemma_fold_nat_digits(m, 0);
        assert(fold_digits(s, dend + 1, fend, 0) == m);
        assert(fend - dend - 1 == sc);
        crate::decimal::lemma_dec_norm_id(d);
        assert(fend == nd.len());
        assert(num_lex(s, 0) == Some((nd.len() as int, d)));
    }
}


/// The first character of a decimal's text is its sign or a digit.
proof fn lemma_dec_chars_head(d: Decimal)
    requires
        dec_wf(d),
    ensures
        crate::decimal::dec_chars(d).len() > 0,
        is_digit(crate::decimal::dec_chars(d)[0]) || crate::decimal::dec_chars(d)[0] == '-',
{
    let nd = crate::decimal::dec_chars(d);
    let ds = nat_digits(d.mantissa as nat);
    lemma_nat_digits_are_digits(d.mantissa as nat);
    if d.neg {
        assert(nd[0] == '-');
    } else if d.scale == 0 {
        assert(nd[0] == ds[0]);
    } else if ds.len() > d.scale {
        assert(nd[0] == ds[0]);
    } else {
        assert(nd[0] == '0');
    }
}

/// Parsing is total and deterministic over number literals: the display
/// text of any well-formed number, under any unit's display rule, parses
/// back to exactly that number with that unit.
#[verifier::rlimit(100)]
#[verifier::spinoff_prover]
pub proof fn lemma_number_roundtrip(d: Decimal, t: NumberType)
    requires
        dec_wf(d),
    ensures
        spec_parse(crate::value::number_css_chars(d, t)) == Some(
            SpecExpr::Value(SpecValue::Number(d, t)),
        ),
{
    let nd = crate::decimal::dec_chars(d);
    let e = SpecExpr::Value(SpecValue::Number(d, t));
    lemma_dec_chars_head(d);
    match t {
        NumberType::Bare => {
            let s = crate::value::number_css_chars(d, t);
            assert(s =~= nd + Seq::<char>::empty());
            lemma_num_lex_of_dec(d, Seq::empty());
            assert(num_lex(s, 0) == Some((nd.len() as int, d)));
            assert(s[0] != '{' && s[0] != '#');
            assert(strict_atom(s, 0) == Some((e, s.len() as int)));
            assert(cont_ok(s, s.len() as int));
            assert(atom_parse(s, 0) == Some((e, s.len() as int)));
            assert(parse_chain(s, s.len() as int, e) == Some(e));
        },
        NumberType::Percentage => {
            let s = crate::value::number_css_chars(d, t);
            reveal_strlit("%");
            assert("%"@ =~= seq!['%']);
            assert(s =~= nd + seq!['%']);
            lemma_num_lex_of_dec(d, seq!['%']);
            assert(num_lex(s, 0) == Some((nd.len() as int, d)));
            assert(s[nd.len() as int] == '%');
            assert(s[0] != '{' && s[0] != '#');
            assert(strict_atom(s, 0) == Some((e, s.len() as int)));
            assert(cont_ok(s, s.len() as int));
            assert(atom_parse(s, 0) == Some((e, s.len() as int)));
            assert(parse_chain(s, s.len() as int, e) == Some(e));
        },
        NumberType::Pixels => {
            let s = crate::value::number_css_chars(d, t);
            reveal_strlit("px");
            assert("px"@ =~= seq!['p', 'x']);
            assert(s =~= nd + seq!['p', 'x']);
            lemma_num_lex_of_dec(d, seq!['p', 'x']);
            assert(num_lex(s, 0) == Some((nd.len() as int, d)));
            assert(s[nd.len() as int] == 'p');
            assert(s[nd.len() as int + 1] == 'x');
            assert(s[0] != '{' && s[0] != '#');
            assert(strict_atom(s, 0) == Some((e, s.len() as int)));
            assert(cont_ok(s, s.len() as int));
            assert(atom_parse(s, 0) == Some((e, s.len() as int)));
            assert(parse_chain(s, s.len() as int, e) == Some(e));
        },
    }
}


/// A fallback run over fallback text reaches the end.
proof fn lemma_fb_end_all(s: Seq<char>, i: int)
    requires
        0 <= i <= s.len(),
        forall|m: int| i <= m < s.len() ==> is_fallback(#[trigger] s[m]),
    ensures
        fb_end(s, i) == s.len(),
    decreases s.len() - i,
{
    if i < s.len() {
        lemma_fb_end_all(s, i + 1);
    }
}

/// An accepted atom never stops before a non-operator: over operator-free
/// text its end is the end of the text.
proof fn lemma_atom_end_all_fallback(s: Seq<char>, i: int)
    requires
        0 <= i <= s.len(),
        forall|m: int| 0 <= m < s.len() ==> is_fallback(#[trigger] s[m]),
    ensures
        atom_parse(s, i) is Some,
        (atom_parse(s, i)->0).1 == s.len(),
{
    lemma_fb_end_all(s, i);
    assert(forall|m: int| 0 <= m < s.len() ==> !is_op(#[trigger] s[m]));
    lemma_ws_end_bounds(s, s.len() as int);
    assert(cont_ok(s, s.len() as int));
    match strict_atom(s, i) {
        Some((e, end)) => {
            lemma_atom_bounds_strict(s, i);
            if cont_ok(s, end) {
                let w = ws_end(s, end);
                lemma_ws_end_bounds(s, end);
                if end < s.len() {
                    assert(w < s.len() && is_op(s[w]));
                    assert(false);
                }
            }
        },
        None => {},
    }
}

/// A matched specific atom form ends within the text.
proof fn lemma_atom_bounds_strict(s: Seq<char>, i: int)
    requires
        0 <= i <= s.len(),
        strict_atom(s, i) is Some,
    ensures
        i <= (strict_atom(s, i)->0).1 <= s.len(),
{
    if i < s.len() && s[i] == '{' {
        lemma_find_from_bounds(s, '}', i + 1);
    } else if i < s.len() && s[i] == '#' {
        lemma_alnum_end_bounds(s, i + 1);
    } else if i < s.len() && (is_digit(s[i]) || s[i] == '-') {
        lemma_num_lex_bounds(s, i);
    }
}

/// Parsing is total over the documented grammar: text made only of the
/// catch-all characters — letters, digits and `#%-. ` — always parses;
/// no such text is a parse fault. Determinism holds by construction: the
/// parse of a text is a function of the text alone.
pub proof fn lemma_parse_total_over_fallback_text(s: Seq<char>)
    requires
        forall|m: int| 0 <= m < s.len() ==> is_fallback(#[trigger] s[m]),
    ensures
        spec_parse(s) is Some,
{
    lemma_atom_end_all_fallback(s, 0);
    let e = (atom_parse(s, 0)->0).0;
    assert(parse_chain(s, s.len() as int, e) == Some(e));
}

} // verus!
