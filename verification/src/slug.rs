//! Identifier derivation: slugs for stylesheet names, upper-flat segments
//! for constant names, and the word-case conversion used for property
//! names.
use vstd::prelude::*;

use convert_case::{Case, Casing};

use crate::strutil::chars_to_string;

verus! {

/// What `deunicode` returns for the given text: its ASCII transliteration.
pub uninterp spec fn deunicode_of(s: Seq<char>) -> Seq<char>;

/// What `convert_case` returns for the given text under kebab-case: the
/// text split into words and re-joined lowercased with hyphens.
pub uninterp spec fn kebab_of(s: Seq<char>) -> Seq<char>;

/// What `convert_case` returns for the given text under upper-flat case:
/// the text split into words and re-joined uppercased with no separator.
pub uninterp spec fn upper_flat_of(s: Seq<char>) -> Seq<char>;

/// Relies on `deunicode::deunicode`: transliterates Unicode text to
/// ASCII. Text made only of characters up to U+007E comes back unchanged
/// (its fast path returns the input while every byte is below 0x7F);
/// U+007F maps to the empty string, so it is not covered here.
#[verifier::external_body]
pub(crate) fn deunicode_str(s: &str) -> (r: String)
    ensures
        r@ == deunicode_of(s@),
        (forall|i: int| 0 <= i < s@.len() ==> (s@[i] as nat) < 127) ==> r@ == s@,
{
    deunicode::deunicode(s)
}

/// Relies on `convert_case`'s `Casing::to_case` with `Case::Kebab`.
#[verifier::external_body]
pub(crate) fn to_kebab_case(s: &str) -> (r: String)
    ensures
        r@ == kebab_of(s@),
{
    s.to_case(Case::Kebab)
}

/// Relies on `convert_case`'s `Casing::to_case` with `Case::UpperFlat`.
#[verifier::external_body]
pub(crate) fn to_upper_flat_case(s: &str) -> (r: String)
    ensures
        r@ == upper_flat_of(s@),
{
    s.to_case(Case::UpperFlat)
}

/// The character-for-character preparation a name goes through before
/// transliteration: punctuation is folded to letters or underscores,
/// spaces become the separator, ASCII uppercase becomes lowercase.
pub open spec fn slug_prep_char(c: char, sep: char) -> char {
    if c == ',' {
        'c'
    } else if c == '+' {
        'p'
    } else if c == '.' {
        'd'
    } else if c == '(' {
        '_'
    } else if c == ')' {
        '_'
    } else if c == ' ' {
        sep
    } else if 'A' <= c && c <= 'Z' {
        ((c as u8 + 32) as char)
    } else {
        c
    }
}

/// The prepared form of a whole name.
pub open spec fn slug_prep(s: Seq<char>, sep: char) -> Seq<char> {
    s.map(|i: int, c: char| slug_prep_char(c, sep))
}

/// A slug: the prepared name, transliterated to ASCII.
pub open spec fn spec_slugify(s: Seq<char>, sep: char) -> Seq<char> {
    deunicode_of(slug_prep(s, sep))
}

/// The ASCII lowercase of an ASCII uppercase letter.
fn lower_ascii(c: char) -> (r: char)
    requires
        'A' <= c && c <= 'Z',
    ensures
        r == ((c as u8 + 32) as char),
{
    (c as u8 + 32) as char
}

/// Prepares and transliterates a name into a slug whose words are joined
/// by `sep`.
pub fn slugify(s: &str, sep: char) -> (r: String)
    ensures
        r@ == spec_slugify(s@, sep),
{
    let chars = crate::strutil::str_to_chars(s);
    let mut prepped: Vec<char> = Vec::new();
    let mut i: usize = 0;
    while i < chars.len()
        invariant
            i <= chars@.len(),
            chars@ == s@,
            prepped@ == slug_prep(s@, sep).subrange(0, i as int),
        decreases chars@.len() - i,
    {
        let c = chars[i];
        let p: char = if c == ',' {
            'c'
        } else if c == '+' {
            'p'
        } else if c == '.' {
            'd'
        } else if c == '(' {
            '_'
        } else if c == ')' {
            '_'
        } else if c == ' ' {
            sep
        } else if 'A' <= c && c <= 'Z' {
            lower_ascii(c)
        } else {
            c
        };
        prepped.push(p);
        i = i + 1;
        proof {
            assert(prepped@ =~= slug_prep(s@, sep).subrange(0, i as int));
        }
    }
    proof {
        assert(slug_prep(s@, sep).subrange(0, s@.len() as int) =~= slug_prep(s@, sep));
    }
    let prepped_str = chars_to_string(&prepped);
    deunicode_str(prepped_str.as_str())
}

/// The slug used for constant-name segments: words joined by underscores.
pub fn slugify_rs(s: &str) -> (r: String)
    ensures
        r@ == spec_slugify(s@, '_'),
{
    slugify(s, '_')
}

/// The slug used for stylesheet identifiers: words joined by hyphens.
pub fn slugify_css(s: &str) -> (r: String)
    ensures
        r@ == spec_slugify(s@, '-'),
{
    slugify(s, '-')
}

/// One segment of a constant name: the underscore slug, upper-flattened.
pub open spec fn spec_rust_segment(s: Seq<char>) -> Seq<char> {
    upper_flat_of(spec_slugify(s, '_'))
}

/// Derives one segment of a constant name.
pub fn rust_segment(s: &str) -> (r: String)
    ensures
        r@ == spec_rust_segment(s@),
{
    let slug = slugify_rs(s);
    to_upper_flat_case(slug.as_str())
}

} // verus!
