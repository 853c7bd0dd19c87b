//! The two renderers: stylesheet text, and typed constant declarations.
//!
//! Both walk the document tree in order. The stylesheet keeps references
//! live as variable lookups; the constants fold every expression to its
//! final value first.
use vstd::prelude::*;

use crate::errors::{Error, SpecError};
use crate::expression::{spec_expr_css, Expression, SpecExpr};
use crate::extensions::{spec_extension_result, Extensions, SpecExtensions};
use crate::resolve::{spec_eval, spec_token_value_eval, EVAL_FUEL};
use crate::slug::{kebab_of, spec_rust_segment, spec_slugify};
use crate::tree::{
    dict_entries_view, node_wf, DesignTokens, SpecNode, SpecTokenValue, TokenOrGroup, TokenType,
    TokenValue,
};
use crate::value::{
    number_css_chars, value_rust_chars, value_rust_string_chars,
    value_rust_type_chars, NumberType, SpecValue,
};

verus! {

/// The stylesheet property name for a composite entry: a fixed table for
/// the border and typography categories, the generic kebab conversion
/// otherwise.
pub open spec fn spec_css_property(t: TokenType, key: Seq<char>) -> Seq<char> {
    match t {
        TokenType::Border => if key == "color"@ {
            "border-color"@
        } else if key == "width"@ {
            "border-width"@
        } else if key == "style"@ {
            "border-style"@
        } else {
            kebab_of(key)
        },
        TokenType::Typography => if key == "textCase"@ || key == "text-case"@ {
            "text-transform"@
        } else if key == "lineHeight"@ {
            "line-height"@
        } else {
            kebab_of(key)
        },
        _ => kebab_of(key),
    }
}

/// The stylesheet text of an expression standing as a property value: a
/// bare literal number defaults to pixels in this output format only.
pub open spec fn spec_css_value(e: SpecExpr) -> Seq<char> {
    match e {
        SpecExpr::Value(SpecValue::Number(d, NumberType::Bare)) => number_css_chars(
            d,
            NumberType::Pixels,
        ),
        _ => spec_expr_css(e),
    }
}

/// One composite entry as a property declaration.
pub open spec fn spec_css_entry(t: TokenType, key: Seq<char>, e: SpecExpr) -> Seq<char> {
    spec_css_property(t, key) + ": "@ + spec_css_value(e) + ";"@
}

/// The composite entries as property declarations, one per line.
pub open spec fn spec_dict_css(t: TokenType, entries: Seq<(Seq<char>, SpecExpr)>) -> Seq<char>
    decreases entries.len(),
{
    if entries.len() == 0 {
        Seq::empty()
    } else {
        let head = spec_css_entry(t, entries[0].0, entries[0].1);
        if entries.len() == 1 {
            head
        } else {
            head + "\n"@ + spec_dict_css(t, entries.drop_first())
        }
    }
}

/// The stylesheet text of one node, under the accumulated dash path. A
/// scalar token is one declaration; with an extension its value resolves
/// and transforms first, otherwise it renders live. A composite token is
/// a block of one declaration per entry. A group renders its children in
/// order, one per line.
pub open spec fn spec_node_css(
    body: SpecNode,
    node: SpecNode,
    root_class: Seq<char>,
    path: Seq<char>,
) -> Result<Seq<char>, SpecError>
    decreases node,
{
    match node {
        SpecNode::Token { value, type_, extensions } => match value {
            SpecTokenValue::Single(e) => {
                let vtext = match extensions {
                    Some(SpecExtensions::StudioTokens(ext)) => match spec_eval(
                        body,
                        e,
                        Seq::empty(),
                        EVAL_FUEL as nat,
                    ) {
                        Err(er) => Err(er),
                        Ok(v) => match spec_extension_result(ext, v) {
                            Err(er) => Err(er),
                            Ok(c) => Ok(crate::color::color_hex_chars(c)),
                        },
                    },
                    None => Ok(spec_css_value(e)),
                };
                match vtext {
                    Err(er) => Err(er),
                    Ok(t) => Ok(
                        "."@ + root_class + " { -"@ + path + ": "@ + t + "; }"@,
                    ),
                }
            },
            SpecTokenValue::Dict(entries) => {
                let sub = if path.len() >= 1 {
                    path.subrange(1, path.len() as int)
                } else {
                    path
                };
                Ok(
                    "."@ + root_class + " ."@ + sub + " {\n"@ + spec_dict_css(type_, entries)
                        + "\n}"@,
                )
            },
        },
        SpecNode::Group(children) => spec_children_css(body, children, root_class, path),
    }
}

/// The stylesheet text of a group's children, one per line, in order; the
/// first fault wins.
pub open spec fn spec_children_css(
    body: SpecNode,
    children: Seq<(Seq<char>, SpecNode)>,
    root_class: Seq<char>,
    path: Seq<char>,
) -> Result<Seq<char>, SpecError>
    decreases children,
{
    if children.len() == 0 {
        Ok(Seq::empty())
    } else {
        let child_path = path + "-"@ + spec_slugify(children[0].0, '-');
        match spec_node_css(body, children[0].1, root_class, child_path) {
            Err(er) => Err(er),
            Ok(h) => if children.len() == 1 {
                Ok(h)
            } else {
                match spec_children_css(body, children.drop_first(), root_class, path) {
                    Err(er) => Err(er),
                    Ok(t) => Ok(h + "\n"@ + t),
                }
            },
        }
    }
}

/// One composite entry as a quoted name/text pair in a constant list.
pub open spec fn spec_rust_entry(body: SpecNode, key: Seq<char>, e: SpecExpr) -> Result<
    Seq<char>,
    SpecError,
> {
    match spec_eval(body, e, Seq::empty(), EVAL_FUEL as nat) {
        Err(er) => Err(er),
        Ok(v) => Ok("(\""@ + key + "\", "@ + value_rust_string_chars(v) + ")"@),
    }
}

/// The composite entries as a comma-separated constant list.
pub open spec fn spec_dict_rust(body: SpecNode, entries: Seq<(Seq<char>, SpecExpr)>) -> Result<
    Seq<char>,
    SpecError,
>
    decreases entries.len(),
{
    if entries.len() == 0 {
        Ok(Seq::empty())
    } else {
        match spec_rust_entry(body, entries[0].0, entries[0].1) {
            Err(er) => Err(er),
            Ok(h) => if entries.len() == 1 {
                Ok(h)
            } else {
                match spec_dict_rust(body, entries.drop_first()) {
                    Err(er) => Err(er),
                    Ok(t) => Ok(h + ", "@ + t),
                }
            },
        }
    }
}

/// The constant text of one node, under the accumulated upper-case path.
/// Every expression is fully resolved before emission; an extension
/// rewrites the resolved value. A scalar token is one typed constant, a
/// composite token one constant holding name/text pairs, and a group
/// renders its children in order, one per line.
pub open spec fn spec_node_rust(body: SpecNode, node: SpecNode, path: Seq<char>) -> Result<
    Seq<char>,
    SpecError,
>
    decreases node,
{
    match node {
        SpecNode::Token { value, type_, extensions } => match value {
            SpecTokenValue::Single(e) => {
                let rv = match spec_token_value_eval(body, value) {
                    Err(er) => Err(er),
                    Ok(v) => match extensions {
                        Some(SpecExtensions::StudioTokens(ext)) => match spec_extension_result(
                            ext,
                            v,
                        ) {
                            Err(er) => Err(er),
                            Ok(c) => Ok(SpecValue::Color(c)),
                        },
                        None => Ok(v),
                    },
                };
                match rv {
                    Err(er) => Err(er),
                    Ok(v) => Ok(
                        "pub const "@ + path + ": "@ + value_rust_type_chars(v) + " = "@
                            + value_rust_chars(v) + ";"@,
                    ),
                }
            },
            SpecTokenValue::Dict(entries) => match spec_dict_rust(body, entries) {
                Err(er) => Err(er),
                Ok(list) => Ok(
                    "pub const "@ + path
                        + ": &'static [(&'static str, &'static str)] = &["@ + list + "];"@,
                ),
            },
        },
        SpecNode::Group(children) => spec_children_rust(body, children, path),
    }
}

/// The constant text of a group's children, one per line, in order; the
/// first fault wins.
pub open spec fn spec_children_rust(
    body: SpecNode,
    children: Seq<(Seq<char>, SpecNode)>,
    path: Seq<char>,
) -> Result<Seq<char>, SpecError>
    decreases children,
{
    if children.len() == 0 {
        Ok(Seq::empty())
    } else {
        let seg = spec_rust_segment(children[0].0);
        let child_path = if path.len() == 0 {
            seg
        } else {
            path + "_"@ + seg
        };
        match spec_node_rust(body, children[0].1, child_path) {
            Err(er) => Err(er),
            Ok(h) => if children.len() == 1 {
                Ok(h)
            } else {
                match spec_children_rust(body, children.drop_first(), path) {
                    Err(er) => Err(er),
                    Ok(t) => Ok(h + "\n"@ + t),
                }
            },
        }
    }
}

/// The stylesheet text of a whole document: its body under the slug of
/// its namespace name.
pub open spec fn spec_doc_css(doc: crate::tree::SpecDocument) -> Result<Seq<char>, SpecError> {
    spec_node_css(
        doc.body,
        doc.body,
        spec_slugify(crate::tree::spec_doc_name(doc), '-'),
        Seq::empty(),
    )
}

/// The constant text of a whole document: its body with an empty path
/// prefix.
pub open spec fn spec_doc_rust(doc: crate::tree::SpecDocument) -> Result<Seq<char>, SpecError> {
    spec_node_rust(doc.body, doc.body, Seq::empty())
}


/// The stylesheet property name for a composite entry.
fn css_property(type_: &TokenType, key: &str) -> (r: String)
    ensures
        r@ == spec_css_property(*type_, key@),
{
    match type_ {
        TokenType::Border => {
            if crate::strutil::str_eq(key, "color") {
                "border-color".to_owned()
            } else if crate::strutil::str_eq(key, "width") {
                "border-width".to_owned()
            } else if crate::strutil::str_eq(key, "style") {
                "border-style".to_owned()
            } else {
                crate::slug::to_kebab_case(key)
            }
        },
        TokenType::Typography => {
            if crate::strutil::str_eq(key, "textCase") || crate::strutil::str_eq(key, "text-case") {
                "text-transform".to_owned()
            } else if crate::strutil::str_eq(key, "lineHeight") {
                "line-height".to_owned()
            } else {
                crate::slug::to_kebab_case(key)
            }
        },
        _ => crate::slug::to_kebab_case(key),
    }
}

/// The stylesheet text of an expression standing as a property value.
fn css_value(tokens: &DesignTokens, value: &Expression) -> (r: String)
    ensures
        r@ == spec_css_value(value@),
{
    match value {
        Expression::Value(crate::value::Value::Number(d, NumberType::Bare)) => {
            let px = NumberType::Pixels;
            px.to_css(d)
        },
        _ => value.to_css(tokens),
    }
}

/// One composite entry as a property declaration.
fn css_entry(tokens: &DesignTokens, type_: &TokenType, key: &str, value: &Expression) -> (r:
    String)
    ensures
        r@ == spec_css_entry(*type_, key@, value@),
{
    let prop = css_property(type_, key);
    let mut v: Vec<char> = Vec::new();
    crate::strutil::push_str_chars(&mut v, prop.as_str());
    crate::strutil::push_str_chars(&mut v, ": ");
    let vv = css_value(tokens, value);
    crate::strutil::push_str_chars(&mut v, vv.as_str());
    crate::strutil::push_str_chars(&mut v, ";");
    crate::strutil::chars_to_string(&v)
}

/// The composite entries from `idx` on, one declaration per line.
fn dict_css(
    tokens: &DesignTokens,
    type_: &TokenType,
    entries: &Vec<(String, Expression)>,
    idx: usize,
) -> (r: String)
    requires
        idx <= entries@.len(),
    ensures
        r@ == spec_dict_css(*type_, dict_entries_view(entries@).skip(idx as int)),
    decreases entries@.len() - idx,
{
    let ghost dv = dict_entries_view(entries@);
    if idx == entries.len() {
        proof {
            assert(dv.skip(idx as int) =~= Seq::<(Seq<char>, SpecExpr)>::empty());
        }
        String::new()
    } else {
        let head = css_entry(tokens, type_, entries[idx].0.as_str(), &entries[idx].1);
        proof {
            assert(dv[idx as int] == (entries@[idx as int].0@, entries@[idx as int].1@));
            assert(dv.skip(idx as int)[0] == dv[idx as int]);
            assert(dv.skip(idx as int).drop_first() =~= dv.skip(idx as int + 1));
        }
        if idx + 1 == entries.len() {
            head
        } else {
            let tail = dict_css(tokens, type_, entries, idx + 1);
            let mut v: Vec<char> = Vec::new();
            crate::strutil::push_str_chars(&mut v, head.as_str());
            crate::strutil::push_str_chars(&mut v, "\n");
            crate::strutil::push_str_chars(&mut v, tail.as_str());
            crate::strutil::chars_to_string(&v)
        }
    }
}

impl TokenOrGroup {
    /// The stylesheet text of this node under the accumulated dash path.
    pub fn to_css(&self, tokens: &DesignTokens, root_class: &str, path: &str) -> (r: Result<
        String,
        Error,
    >)
        requires
            node_wf(tokens@.body),
            node_wf(self@),
        ensures
            match r {
                Ok(s) => spec_node_css(tokens@.body, self@, root_class@, path@) == Ok::<
                    Seq<char>,
                    SpecError,
                >(s@),
                Err(e) => spec_node_css(tokens@.body, self@, root_class@, path@) == Err::<
                    Seq<char>,
                    SpecError,
                >(e@),
            },
        decreases *self, 0int,
    {
        match self {
            TokenOrGroup::Token { value, type_, extensions } => {
                match value {
                    TokenValue::Single(e) => {
                        let vtext: String = match extensions {
                            Some(Extensions::StudioTokens(ext)) => {
                                match e.get_value(tokens) {
                                    Err(er) => {
                                        return Err(er);
                                    },
                                    Ok(v) => match ext.to_css(&v) {
                                        Err(er) => {
                                            return Err(er);
                                        },
                                        Ok(s) => s,
                                    },
                                }
                            },
                            None => css_value(tokens, e),
                        };
                        let mut v: Vec<char> = Vec::new();
                        crate::strutil::push_str_chars(&mut v, ".");
                        crate::strutil::push_str_chars(&mut v, root_class);
                        crate::strutil::push_str_chars(&mut v, " { -");
                        crate::strutil::push_str_chars(&mut v, path);
                        crate::strutil::push_str_chars(&mut v, ": ");
                        crate::strutil::push_str_chars(&mut v, vtext.as_str());
                        crate::strutil::push_str_chars(&mut v, "; }");
                        proof {
                            assert(v@ =~= "."@ + root_class@ + " { -"@ + path@ + ": "@ + vtext@
                                + "; }"@);
                        }
                        Ok(crate::strutil::chars_to_string(&v))
                    },
                    TokenValue::Dict(entries) => {
                        let list = dict_css(tokens, type_, entries, 0);
                        proof {
                            assert(dict_entries_view(entries@).skip(0) =~= dict_entries_view(
                                entries@,
                            ));
                        }
                        let n = path.unicode_len();
                        let sub: &str = if n >= 1 {
                            path.substring_char(1, n)
                        } else {
                            path
                        };
                        let mut v: Vec<char> = Vec::new();
                        crate::strutil::push_str_chars(&mut v, ".");
                        crate::strutil::push_str_chars(&mut v, root_class);
                        crate::strutil::push_str_chars(&mut v, " .");
                        crate::strutil::push_str_chars(&mut v, sub);
                        crate::strutil::push_str_chars(&mut v, " {\n");
                        crate::strutil::push_str_chars(&mut v, list.as_str());
                        crate::strutil::push_str_chars(&mut v, "\n}");
                        proof {
                            assert(v@ =~= "."@ + root_class@ + " ."@ + sub@ + " {\n"@ + list@
                                + "\n}"@);
                        }
                        Ok(crate::strutil::chars_to_string(&v))
                    },
                }
            },
            TokenOrGroup::Group(children) => {
                proof {
                    assert(decreases_to!(*self => *children));
                    assert(crate::tree::group_entries_view(children@).skip(0)
                        =~= crate::tree::group_entries_view(children@));
                }
                children_css(tokens, children, 0, root_class, path)
            },
        }
    }
}

/// The stylesheet text of the children from `idx` on, one per line.
fn children_css(
    tokens: &DesignTokens,
    children: &Vec<(String, TokenOrGroup)>,
    idx: usize,
    root_class: &str,
    path: &str,
) -> (r: Result<String, Error>)
    requires
        node_wf(tokens@.body),
        crate::tree::nodes_wf(crate::tree::group_entries_view(children@)),
        idx <= children@.len(),
    ensures
        match r {
            Ok(s) => spec_children_css(
                tokens@.body,
                crate::tree::group_entries_view(children@).skip(idx as int),
                root_class@,
                path@,
            ) == Ok::<Seq<char>, SpecError>(s@),
            Err(e) => spec_children_css(
                tokens@.body,
                crate::tree::group_entries_view(children@).skip(idx as int),
                root_class@,
                path@,
            ) == Err::<Seq<char>, SpecError>(e@),
        },
    decreases *children, children@.len() - idx,
{
    let ghost cv = crate::tree::group_entries_view(children@);
    proof {
        crate::tree::lemma_group_entries_len(children@);
    }
    if idx == children.len() {
        proof {
            assert(cv.skip(idx as int) =~= Seq::<(Seq<char>, SpecNode)>::empty());
        }
        Ok(String::new())
    } else {
        proof {
            crate::tree::lemma_group_entries_view(children@, idx as int);
            assert(cv.skip(idx as int)[0] == cv[idx as int]);
            assert(cv.skip(idx as int).drop_first() =~= cv.skip(idx as int + 1));
            crate::tree::lemma_nodes_wf_elem(cv, idx as int);
            assert(decreases_to!(*children => children@));
            assert(decreases_to!(children@ => children@[idx as int]));
            assert(decreases_to!(children@[idx as int] => children@[idx as int].1));
        }
        let mut pv: Vec<char> = Vec::new();
        crate::strutil::push_str_chars(&mut pv, path);
        crate::strutil::push_str_chars(&mut pv, "-");
        let slug = crate::slug::slugify_css(children[idx].0.as_str());
        crate::strutil::push_str_chars(&mut pv, slug.as_str());
        let child_path = crate::strutil::chars_to_string(&pv);
        match children[idx].1.to_css(tokens, root_class, child_path.as_str()) {
            Err(er) => Err(er),
            Ok(head) => {
                if idx + 1 == children.len() {
                    Ok(head)
                } else {
                    match children_css(tokens, children, idx + 1, root_class, path) {
                        Err(er) => Err(er),
                        Ok(tail) => {
                            let mut v: Vec<char> = Vec::new();
                            crate::strutil::push_str_chars(&mut v, head.as_str());
                            crate::strutil::push_str_chars(&mut v, "\n");
                            crate::strutil::push_str_chars(&mut v, tail.as_str());
                            Ok(crate::strutil::chars_to_string(&v))
                        },
                    }
                }
            },
        }
    }
}


/// One composite entry, resolved, as a quoted name/text pair.
fn rust_entry(tokens: &DesignTokens, key: &str, e: &Expression) -> (r: Result<String, Error>)
    requires
        node_wf(tokens@.body),
        crate::expression::spec_expr_wf(e@),
    ensures
        match r {
            Ok(s) => spec_rust_entry(tokens@.body, key@, e@) == Ok::<Seq<char>, SpecError>(s@),
            Err(er) => spec_rust_entry(tokens@.body, key@, e@) == Err::<Seq<char>, SpecError>(
                er@,
            ),
        },
{
    match e.get_value(tokens) {
        Err(er) => Err(er),
        Ok(v) => {
            let text = v.to_rust_string();
            let mut out: Vec<char> = Vec::new();
            crate::strutil::push_str_chars(&mut out, "(\"");
            crate::strutil::push_str_chars(&mut out, key);
            crate::strutil::push_str_chars(&mut out, "\", ");
            crate::strutil::push_str_chars(&mut out, text.as_str());
            crate::strutil::push_str_chars(&mut out, ")");
            proof {
                assert(out@ =~= "(\""@ + key@ + "\", "@ + text@ + ")"@);
            }
            Ok(crate::strutil::chars_to_string(&out))
        },
    }
}

/// The composite entries from `idx` on, resolved, comma-separated.
fn dict_rust(tokens: &DesignTokens, entries: &Vec<(String, Expression)>, idx: usize) -> (r: Result<
    String,
    Error,
>)
    requires
        node_wf(tokens@.body),
        crate::tree::token_value_wf(SpecTokenValue::Dict(dict_entries_view(entries@))),
        idx <= entries@.len(),
    ensures
        match r {
            Ok(s) => spec_dict_rust(tokens@.body, dict_entries_view(entries@).skip(idx as int))
                == Ok::<Seq<char>, SpecError>(s@),
            Err(er) => spec_dict_rust(
                tokens@.body,
                dict_entries_view(entries@).skip(idx as int),
            ) == Err::<Seq<char>, SpecError>(er@),
        },
    decreases entries@.len() - idx,
{
    let ghost dv = dict_entries_view(entries@);
    if idx == entries.len() {
        proof {
            assert(dv.skip(idx as int) =~= Seq::<(Seq<char>, SpecExpr)>::empty());
        }
        Ok(String::new())
    } else {
        proof {
            assert(dv[idx as int] == (entries@[idx as int].0@, entries@[idx as int].1@));
            assert(dv.skip(idx as int)[0] == dv[idx as int]);
            assert(dv.skip(idx as int).drop_first() =~= dv.skip(idx as int + 1));
            crate::tree::lemma_exprs_wf_elem(dv, idx as int);
        }
        match rust_entry(tokens, entries[idx].0.as_str(), &entries[idx].1) {
            Err(er) => Err(er),
            Ok(head) => {
                if idx + 1 == entries.len() {
                    Ok(head)
                } else {
                    match dict_rust(tokens, entries, idx + 1) {
                        Err(er) => Err(er),
                        Ok(tail) => {
                            let mut v: Vec<char> = Vec::new();
                            crate::strutil::push_str_chars(&mut v, head.as_str());
                            crate::strutil::push_str_chars(&mut v, ", ");
                            crate::strutil::push_str_chars(&mut v, tail.as_str());
                            Ok(crate::strutil::chars_to_string(&v))
                        },
                    }
                }
            },
        }
    }
}

impl TokenOrGroup {
    /// The constant text of this node under the accumulated upper-case
    /// path; every expression fully resolves before emission.
    pub fn to_rust(&self, tokens: &DesignTokens, path: &str) -> (r: Result<String, Error>)
        requires
            node_wf(tokens@.body),
            node_wf(self@),
        ensures
            match r {
                Ok(s) => spec_node_rust(tokens@.body, self@, path@) == Ok::<Seq<char>, SpecError>(
                    s@,
                ),
                Err(e) => spec_node_rust(tokens@.body, self@, path@) == Err::<
                    Seq<char>,
                    SpecError,
                >(e@),
            },
        decreases *self, 0int,
    {
        match self {
            TokenOrGroup::Token { value, type_, extensions } => {
                match value {
                    TokenValue::Single(_) => {
                        let v = match value.get_value(tokens) {
                            Err(er) => {
                                return Err(er);
                            },
                            Ok(v0) => match extensions {
                                Some(Extensions::StudioTokens(ext)) => {
                                    match ext.to_rust(&v0) {
                                        Err(er) => {
                                            return Err(er);
                                        },
                                        Ok(v1) => v1,
                                    }
                                },
                                None => v0,
                            },
                        };
                        let ty = v.to_rust_type();
                        let text = v.to_rust();
                        let mut out: Vec<char> = Vec::new();
                        crate::strutil::push_str_chars(&mut out, "pub const ");
                        crate::strutil::push_str_chars(&mut out, path);
                        crate::strutil::push_str_chars(&mut out, ": ");
                        crate::strutil::push_str_chars(&mut out, ty);
                        crate::strutil::push_str_chars(&mut out, " = ");
                        crate::strutil::push_str_chars(&mut out, text.as_str());
                        crate::strutil::push_str_chars(&mut out, ";");
                        proof {
                            assert(out@ =~= "pub const "@ + path@ + ": "@ + ty@ + " = "@ + text@
                                + ";"@);
                        }
                        Ok(crate::strutil::chars_to_string(&out))
                    },
                    TokenValue::Dict(entries) => {
                        proof {
                            assert(dict_entries_view(entries@).skip(0) =~= dict_entries_view(
                                entries@,
                            ));
                        }
                        match dict_rust(tokens, entries, 0) {
                            Err(er) => Err(er),
                            Ok(list) => {
                                let mut out: Vec<char> = Vec::new();
                                crate::strutil::push_str_chars(&mut out, "pub const ");
                                crate::strutil::push_str_chars(&mut out, path);
                                crate::strutil::push_str_chars(
                                    &mut out,
                                    ": &'static [(&'static str, &'static str)] = &[",
                                );
                                crate::strutil::push_str_chars(&mut out, list.as_str());
                                crate::strutil::push_str_chars(&mut out, "];");
                                proof {
                                    assert(out@ =~= "pub const "@ + path@
                                        + ": &'static [(&'static str, &'static str)] = &["@
                                        + list@ + "];"@);
                                }
                                Ok(crate::strutil::chars_to_string(&out))
                            },
                        }
                    },
                }
            },
            TokenOrGroup::Group(children) => {
                proof {
                    assert(decreases_to!(*self => *children));
                    assert(crate::tree::group_entries_view(children@).skip(0)
                        =~= crate::tree::group_entries_view(children@));
                }
                children_rust(tokens, children, 0, path)
            },
        }
    }
}

/// The constant text of the children from `idx` on, one per line.
fn children_rust(
    tokens: &DesignTokens,
    children: &Vec<(String, TokenOrGroup)>,
    idx: usize,
    path: &str,
) -> (r: Result<String, Error>)
    requires
        node_wf(tokens@.body),
        crate::tree::nodes_wf(crate::tree::group_entries_view(children@)),
        idx <= children@.len(),
    ensures
        match r {
            Ok(s) => spec_children_rust(
                tokens@.body,
                crate::tree::group_entries_view(children@).skip(idx as int),
                path@,
            ) == Ok::<Seq<char>, SpecError>(s@),
            Err(e) => spec_children_rust(
                tokens@.body,
                crate::tree::group_entries_view(children@).skip(idx as int),
                path@,
            ) == Err::<Seq<char>, SpecError>(e@),
        },
    decreases *children, children@.len() - idx,
{
    let ghost cv = crate::tree::group_entries_view(children@);
    proof {
        crate::tree::lemma_group_entries_len(children@);
    }
    if idx == children.len() {
        proof {
            assert(cv.skip(idx as int) =~= Seq::<(Seq<char>, SpecNode)>::empty());
        }
        Ok(String::new())
    } else {
        proof {
            crate::tree::lemma_group_entries_view(children@, idx as int);
            assert(cv.skip(idx as int)[0] == cv[idx as int]);
            assert(cv.skip(idx as int).drop_first() =~= cv.skip(idx as int + 1));
            crate::tree::lemma_nodes_wf_elem(cv, idx as int);
            assert(decreases_to!(*children => children@));
            assert(decreases_to!(children@ => children@[idx as int]));
            assert(decreases_to!(children@[idx as int] => children@[idx as int].1));
        }
        let seg = crate::slug::rust_segment(children[idx].0.as_str());
        let child_path: String = if path.is_empty() {
            seg
        } else {
            let mut pv: Vec<char> = Vec::new();
            crate::strutil::push_str_chars(&mut pv, path);
            crate::strutil::push_str_chars(&mut pv, "_");
            crate::strutil::push_str_chars(&mut pv, seg.as_str());
            crate::strutil::chars_to_string(&pv)
        };
        match children[idx].1.to_rust(tokens, child_path.as_str()) {
            Err(er) => Err(er),
            Ok(head) => {
                if idx + 1 == children.len() {
                    Ok(head)
                } else {
                    match children_rust(tokens, children, idx + 1, path) {
                        Err(er) => Err(er),
                        Ok(tail) => {
                            let mut v: Vec<char> = Vec::new();
                            crate::strutil::push_str_chars(&mut v, head.as_str());
                            crate::strutil::push_str_chars(&mut v, "\n");
                            crate::strutil::push_str_chars(&mut v, tail.as_str());
                            Ok(crate::strutil::chars_to_string(&v))
                        },
                    }
                }
            },
        }
    }
}

impl DesignTokens {
    /// The stylesheet text of this document, one declaration or block per
    /// token, in document order, under the slug of its namespace name.
    pub fn to_css(&self) -> (r: Result<String, Error>)
        requires
            crate::tree::spec_doc_named(self@),
            node_wf(self@.body),
        ensures
            match r {
                Ok(s) => spec_doc_css(self@) == Ok::<Seq<char>, SpecError>(s@),
                Err(e) => spec_doc_css(self@) == Err::<Seq<char>, SpecError>(e@),
            },
    {
        let name = self.get_name();
        let rc = crate::slug::slugify_css(name);
        proof {
            reveal_strlit("");
            assert(""@ =~= Seq::<char>::empty());
        }
        self.body.to_css(self, rc.as_str(), "")
    }

    /// The constant text of this document, one typed constant per token,
    /// in document order, with fully resolved values.
    pub fn to_rust(&self) -> (r: Result<String, Error>)
        requires
            node_wf(self@.body),
        ensures
            match r {
                Ok(s) => spec_doc_rust(self@) == Ok::<Seq<char>, SpecError>(s@),
                Err(e) => spec_doc_rust(self@) == Err::<Seq<char>, SpecError>(e@),
            },
    {
        proof {
            reveal_strlit("");
            assert(""@ =~= Seq::<char>::empty());
        }
        self.body.to_rust(self, "")
    }
}

} // verus!
