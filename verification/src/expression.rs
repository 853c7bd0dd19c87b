//! The expression language embedded in token values.
use vstd::prelude::*;

use crate::slug::{slugify_css, spec_slugify};
use crate::strutil::{chars_to_string, push_str_chars, strings_view};
use crate::tree::DesignTokens;
use crate::value::{value_css_chars, SpecValue, Value};

verus! {

/// A parsed token value: a literal, a reference to another token by path,
/// or arithmetic over sub-expressions.
#[derive(Debug, PartialEq, Eq)]
pub enum Expression {
    Ref(Vec<String>),
    Mul(Box<Expression>, Box<Expression>),
    Div(Box<Expression>, Box<Expression>),
    Value(Value),
}

/// The mathematical image of an [`Expression`].
pub enum SpecExpr {
    Ref(Seq<Seq<char>>),
    Mul(Box<SpecExpr>, Box<SpecExpr>),
    Div(Box<SpecExpr>, Box<SpecExpr>),
    Value(SpecValue),
}

impl View for Expression {
    type V = SpecExpr;

    open spec fn view(&self) -> SpecExpr
        decreases self,
    {
        match self {
            Expression::Ref(path) => SpecExpr::Ref(strings_view(path@)),
            Expression::Mul(a, b) => SpecExpr::Mul(Box::new((**a)@), Box::new((**b)@)),
            Expression::Div(a, b) => SpecExpr::Div(Box::new((**a)@), Box::new((**b)@)),
            Expression::Value(v) => SpecExpr::Value(v@),
        }
    }
}

/// A well-formed expression: every literal number it holds is normalized.
pub open spec fn spec_expr_wf(e: SpecExpr) -> bool
    decreases e,
{
    match e {
        SpecExpr::Ref(_) => true,
        SpecExpr::Mul(a, b) => spec_expr_wf(*a) && spec_expr_wf(*b),
        SpecExpr::Div(a, b) => spec_expr_wf(*a) && spec_expr_wf(*b),
        SpecExpr::Value(v) => crate::value::spec_value_wf(v),
    }
}

/// A reference path rendered as a stylesheet identifier: each segment
/// slugified, the segments joined by hyphens.
pub open spec fn css_path_join(path: Seq<Seq<char>>) -> Seq<char>
    decreases path.len(),
{
    if path.len() == 0 {
        Seq::empty()
    } else if path.len() == 1 {
        spec_slugify(path[0], '-')
    } else {
        css_path_join(path.drop_last()) + "-"@ + spec_slugify(path.last(), '-')
    }
}

/// The live stylesheet text of an expression: references stay variable
/// lookups and arithmetic stays a computed expression over them.
pub open spec fn spec_expr_css(e: SpecExpr) -> Seq<char>
    decreases e,
{
    match e {
        SpecExpr::Ref(path) => "var(--"@ + css_path_join(path) + ")"@,
        SpecExpr::Mul(a, b) => "calc("@ + spec_expr_css(*a) + " * "@ + spec_expr_css(*b) + ")"@,
        SpecExpr::Div(a, b) => "calc("@ + spec_expr_css(*a) + " / "@ + spec_expr_css(*b) + ")"@,
        SpecExpr::Value(v) => value_css_chars(v),
    }
}

impl Expression {
    /// Appends this expression's live stylesheet text.
    fn push_css(&self, out: &mut Vec<char>)
        ensures
            final(out)@ == old(out)@ + spec_expr_css(self@),
        decreases self,
    {
        match self {
            Expression::Ref(path) => {
                push_str_chars(out, "var(--");
                let ghost mid = out@;
                let mut i: usize = 0;
                while i < path.len()
                    invariant
                        i <= path@.len(),
                        mid == old(out)@ + "var(--"@,
                        out@ =~= mid + css_path_join(strings_view(path@).subrange(0, i as int)),
                    decreases path@.len() - i,
                {
                    if i > 0 {
                        push_str_chars(out, "-");
                    }
                    let slug = slugify_css(path[i].as_str());
                    push_str_chars(out, slug.as_str());
                    i = i + 1;
                    proof {
                        let pv = strings_view(path@);
                        let pre = pv.subrange(0, i as int);
                        assert(pre.drop_last() =~= pv.subrange(0, i - 1));
                        assert(pre.last() == pv[i - 1]);
                        assert(pv[i - 1] == path@[i - 1]@);
                        if i > 1 {
                            assert(css_path_join(pre) == css_path_join(pre.drop_last()) + "-"@
                                + spec_slugify(pre.last(), '-'));
                        }
                        assert(out@ =~= mid + css_path_join(pre));
                    }
                }
                push_str_chars(out, ")");
                proof {
                    assert(strings_view(path@).subrange(0, path@.len() as int) =~= strings_view(
                        path@,
                    ));
                    assert(out@ =~= old(out)@ + spec_expr_css(self@));
                }
            },
            Expression::Mul(a, b) => {
                push_str_chars(out, "calc(");
                a.push_css(out);
                push_str_chars(out, " * ");
                b.push_css(out);
                push_str_chars(out, ")");
                proof {
                    assert(out@ =~= old(out)@ + spec_expr_css(self@));
                }
            },
            Expression::Div(a, b) => {
                push_str_chars(out, "calc(");
                a.push_css(out);
                push_str_chars(out, " / ");
                b.push_css(out);
                push_str_chars(out, ")");
                proof {
                    assert(out@ =~= old(out)@ + spec_expr_css(self@));
                }
            },
            Expression::Value(v) => {
                let text = v.to_css();
                push_str_chars(out, text.as_str());
            },
        }
    }

    /// The live stylesheet text of this expression; references render as
    /// variable lookups against the slugified path, not as resolved
    /// literals.
    pub fn to_css(&self, tokens: &DesignTokens) -> (r: String)
        ensures
            r@ == spec_expr_css(self@),
    {
        let _ = tokens;
        let mut out: Vec<char> = Vec::new();
        self.push_css(&mut out);
        chars_to_string(&out)
    }
}

} // verus!
