//! The token document: a tree of named groups whose leaves are tokens,
//! with path lookup.
use vstd::prelude::*;

use crate::expression::{Expression, SpecExpr};
use crate::extensions::{Extensions, SpecExtensions};
use crate::slug::spec_rust_segment;
use crate::strutil::{find_from, strings_view};

verus! {

/// The category tag on a token; it only drives stylesheet property naming.
#[derive(Debug, Clone, Copy, PartialEq, Eq, Structural)]
pub enum TokenType {
    Untyped,
    Border,
    Typography,
    Other,
}

/// A token's value: one expression, or named sub-expressions for composite
/// tokens such as borders and typography.
#[derive(Debug, PartialEq, Eq)]
pub enum TokenValue {
    Single(Expression),
    Dict(Vec<(String, Expression)>),
}

/// A node of the document tree: a token leaf or a named group of children,
/// in document order.
#[derive(Debug, PartialEq, Eq)]
pub enum TokenOrGroup {
    Token { value: TokenValue, type_: TokenType, extensions: Option<Extensions> },
    Group(Vec<(String, TokenOrGroup)>),
}

/// A token document: the root node and the optional source file name the
/// namespace is derived from.
#[derive(Debug, PartialEq, Eq)]
pub struct DesignTokens {
    pub file_name: Option<String>,
    pub body: TokenOrGroup,
}

/// The mathematical image of a [`TokenValue`].
pub enum SpecTokenValue {
    Single(SpecExpr),
    Dict(Seq<(Seq<char>, SpecExpr)>),
}

/// The mathematical image of a [`TokenOrGroup`].
pub enum SpecNode {
    Token { value: SpecTokenValue, type_: TokenType, extensions: Option<SpecExtensions> },
    Group(Seq<(Seq<char>, SpecNode)>),
}

/// The mathematical image of a [`DesignTokens`] document.
pub struct SpecDocument {
    pub file_name: Option<Seq<char>>,
    pub body: SpecNode,
}

/// The views of a composite token's entries.
pub open spec fn dict_entries_view(entries: Seq<(String, Expression)>) -> Seq<(Seq<char>, SpecExpr)> {
    entries.map(|i: int, kv: (String, Expression)| (kv.0@, kv.1@))
}

impl View for TokenValue {
    type V = SpecTokenValue;

    open spec fn view(&self) -> SpecTokenValue {
        match self {
            TokenValue::Single(e) => SpecTokenValue::Single(e@),
            TokenValue::Dict(entries) => SpecTokenValue::Dict(dict_entries_view(entries@)),
        }
    }
}

/// The views of a group's entries, in order.
pub open spec fn group_entries_view(s: Seq<(String, TokenOrGroup)>) -> Seq<(Seq<char>, SpecNode)>
    decreases s,
{
    if s.len() == 0 {
        Seq::empty()
    } else {
        seq![(s[0].0@, node_view(s[0].1))] + group_entries_view(s.drop_first())
    }
}

/// The view of one document node.
pub open spec fn node_view(t: TokenOrGroup) -> SpecNode
    decreases t,
{
    match t {
        TokenOrGroup::Token { value, type_, extensions } => SpecNode::Token {
            value: value@,
            type_: type_,
            extensions: match extensions {
                Some(e) => Some(e@),
                None => None,
            },
        },
        TokenOrGroup::Group(children) => SpecNode::Group(group_entries_view(children@)),
    }
}

/// An entry's view picks out its name and its node's view.
pub broadcast proof fn lemma_group_entries_view(s: Seq<(String, TokenOrGroup)>, i: int)
    requires
        0 <= i < s.len(),
    ensures
        #[trigger] group_entries_view(s)[i] == (s[i].0@, node_view(s[i].1)),
        group_entries_view(s).len() == s.len(),
    decreases s,
{
    if i > 0 {
        lemma_group_entries_view(s.drop_first(), i - 1);
    } else if s.len() > 0 {
        lemma_group_entries_len(s.drop_first());
    }
}

/// A group's entry views are as many as its entries.
pub proof fn lemma_group_entries_len(s: Seq<(String, TokenOrGroup)>)
    ensures
        group_entries_view(s).len() == s.len(),
    decreases s,
{
    if s.len() > 0 {
        lemma_group_entries_len(s.drop_first());
    }
}

impl View for TokenOrGroup {
    type V = SpecNode;

    open spec fn view(&self) -> SpecNode {
        node_view(*self)
    }
}

impl View for DesignTokens {
    type V = SpecDocument;

    open spec fn view(&self) -> SpecDocument {
        SpecDocument {
            file_name: match &self.file_name {
                Some(n) => Some(n@),
                None => None,
            },
            body: self.body@,
        }
    }
}

/// The first child of `children` named `key`, walking document order.
pub open spec fn first_entry(children: Seq<(Seq<char>, SpecNode)>, key: Seq<char>) -> Option<
    SpecNode,
>
    decreases children.len(),
{
    if children.len() == 0 {
        None
    } else if children[0].0 == key {
        Some(children[0].1)
    } else {
        first_entry(children.drop_first(), key)
    }
}

/// Path lookup: descend the group chain one segment per level; the path
/// resolves only when it ends exactly at a token.
pub open spec fn spec_lookup(node: SpecNode, path: Seq<Seq<char>>) -> Option<SpecTokenValue>
    decreases path.len(),
{
    match node {
        SpecNode::Token { value, .. } => if path.len() == 0 {
            Some(value)
        } else {
            None
        },
        SpecNode::Group(children) => if path.len() == 0 {
            None
        } else {
            match first_entry(children, path[0]) {
                Some(child) => spec_lookup(child, path.drop_first()),
                None => None,
            }
        },
    }
}

/// When nothing in the first `j` entries is named `key`, the scan outcome
/// is decided by entry `j` onward.
proof fn lemma_first_entry_skip(children: Seq<(Seq<char>, SpecNode)>, key: Seq<char>, j: int)
    requires
        0 <= j <= children.len(),
        forall|m: int| 0 <= m < j ==> #[trigger] children[m].0 != key,
    ensures
        first_entry(children, key) == first_entry(children.skip(j), key),
    decreases j,
{
    if j > 0 {
        assert(children[0].0 != key);
        lemma_first_entry_skip(children.drop_first(), key, j - 1);
        assert(children.drop_first().skip(j - 1) =~= children.skip(j));
    } else {
        assert(children.skip(0) =~= children);
    }
}

impl TokenOrGroup {
    /// Looks up the token value at `path[i..]` below this node.
    fn get_value_from<'a>(&'a self, path: &[String], i: usize) -> (r: Option<&'a TokenValue>)
        requires
            i <= path@.len(),
        ensures
            match r {
                Some(v) => spec_lookup(self@, strings_view(path@).skip(i as int)) == Some(v@),
                None => spec_lookup(self@, strings_view(path@).skip(i as int)) is None,
            },
        decreases self,
    {
        let ghost rest = strings_view(path@).skip(i as int);
        match self {
            TokenOrGroup::Token { value, .. } => {
                if i == path.len() {
                    Some(value)
                } else {
                    None
                }
            },
            TokenOrGroup::Group(children) => {
                if i == path.len() {
                    return None;
                }
                let ghost cv = group_entries_view(children@);
                let ghost key = path@[i as int]@;
                proof {
                    lemma_group_entries_len(children@);
                    assert(rest.len() == path@.len() - i);
                    assert(rest[0] == strings_view(path@)[i as int]);
                    assert(strings_view(path@)[i as int] == path@[i as int]@);
                }
                let mut j: usize = 0;
                while j < children.len()
                    invariant
                        j <= children@.len(),
                        i < path@.len(),
                        i <= path@.len(),
                        cv == group_entries_view(children@),
                        cv.len() == children@.len(),
                        key == path@[i as int]@,
                        rest == strings_view(path@).skip(i as int),
                        *self == TokenOrGroup::Group(*children),
                        node_view(*self) == SpecNode::Group(cv),
                        forall|m: int| 0 <= m < j ==> #[trigger] cv[m].0 != key,
                    decreases children@.len() - j,
                {
                    proof {
                        lemma_group_entries_view(children@, j as int);
                    }
                    if children[j].0.eq(&path[i]) {
                        proof {
                            assert(cv[j as int].0 == children@[j as int].0@);
                            assert(cv[j as int].0 == key);
                            lemma_first_entry_skip(cv, key, j as int);
                            assert(cv.skip(j as int)[0] == cv[j as int]);
                            assert(first_entry(cv.skip(j as int), key) == Some(cv[j as int].1));
                            assert(rest.len() == path@.len() - i);
                            assert(rest[0] == strings_view(path@)[i as int]);
                            assert(rest[0] == key);
                            assert(rest.drop_first() =~= strings_view(path@).skip(i as int + 1));
                            assert(cv[j as int].1 == node_view(children@[j as int].1));
                            assert(decreases_to!(*self => *children));
                            assert(decreases_to!(*children => children@));
                            assert(decreases_to!(children@ => children@[j as int]));
                            assert(decreases_to!(children@[j as int] => children@[j as int].1));
                        }
                        return children[j].1.get_value_from(path, i + 1);
                    }
                    j = j + 1;
                }
                proof {
                    lemma_first_entry_skip(cv, key, children@.len() as int);
                    assert(cv.skip(cv.len() as int) =~= Seq::<(Seq<char>, SpecNode)>::empty());
                    assert(first_entry(cv, key) is None);
                    assert(rest[0] == key);
                }
                None
            },
        }
    }

    /// Looks up the token value at `path` below this node; `None` is the
    /// lookup fault — the path leaves the tree, stops at a group, or runs
    /// past a token.
    pub fn get_value<'a>(&'a self, tokens: &DesignTokens, path: &[String]) -> (r: Option<
        &'a TokenValue,
    >)
        ensures
            match r {
                Some(v) => spec_lookup(self@, strings_view(path@)) == Some(v@),
                None => spec_lookup(self@, strings_view(path@)) is None,
            },
    {
        let _ = tokens;
        proof {
            assert(strings_view(path@).skip(0) =~= strings_view(path@));
        }
        self.get_value_from(path, 0)
    }
}

/// The namespace name of a document: the second dot-separated piece of its
/// file name, or `ambient` when it has none.
pub open spec fn spec_doc_name(doc: SpecDocument) -> Seq<char> {
    match doc.file_name {
        None => "ambient"@,
        Some(n) => {
            let j1 = find_from(n, '.', 0);
            let j2 = find_from(n, '.', j1 + 1);
            n.subrange(j1 + 1, j2)
        },
    }
}

/// Whether a document's file name, if any, yields a namespace name: it
/// must hold at least one dot.
pub open spec fn spec_doc_named(doc: SpecDocument) -> bool {
    match doc.file_name {
        None => true,
        Some(n) => find_from(n, '.', 0) < n.len(),
    }
}

impl DesignTokens {
    /// Looks up the token value at `path` in this document.
    pub(crate) fn get_value<'a>(&'a self, path: &[String]) -> (r: Option<&'a TokenValue>)
        ensures
            match r {
                Some(v) => spec_lookup(self@.body, strings_view(path@)) == Some(v@),
                None => spec_lookup(self@.body, strings_view(path@)) is None,
            },
    {
        self.body.get_value(self, path)
    }

    /// The document's namespace name.
    pub fn get_name(&self) -> (r: &str)
        requires
            spec_doc_named(self@),
        ensures
            r@ == spec_doc_name(self@),
    {
        match &self.file_name {
            None => "ambient",
            Some(n) => {
                let chars = crate::strutil::str_to_chars(n.as_str());
                let len = chars.len();
                let mut j1: usize = 0;
                while j1 < len && chars[j1] != '.'
                    invariant
                        j1 <= len,
                        len == n@.len(),
                        chars@ == n@,
                        find_from(n@, '.', 0) == find_from(n@, '.', j1 as int),
                    decreases len - j1,
                {
                    j1 = j1 + 1;
                }
                let mut j2: usize = j1 + 1;
                while j2 < len && chars[j2] != '.'
                    invariant
                        j1 + 1 <= j2 <= len + 1,
                        j2 <= len,
                        len == n@.len(),
                        chars@ == n@,
                        find_from(n@, '.', j1 + 1) == find_from(n@, '.', j2 as int),
                    decreases len - j2,
                {
                    j2 = j2 + 1;
                }
                n.as_str().substring_char(j1 + 1, j2)
            },
        }
    }

    /// The document's namespace name as a constant-name segment.
    pub fn get_name_rust(&self) -> (r: String)
        requires
            spec_doc_named(self@),
        ensures
            r@ == spec_rust_segment(spec_doc_name(self@)),
    {
        let name = self.get_name();
        crate::slug::rust_segment(name)
    }
}


/// Well-formedness of a run of composite entries.
pub open spec fn exprs_wf(entries: Seq<(Seq<char>, SpecExpr)>) -> bool
    decreases entries,
{
    if entries.len() == 0 {
        true
    } else {
        crate::expression::spec_expr_wf(entries[0].1) && exprs_wf(entries.drop_first())
    }
}

/// Each entry of a well-formed run is well-formed.
pub proof fn lemma_exprs_wf_elem(entries: Seq<(Seq<char>, SpecExpr)>, i: int)
    requires
        exprs_wf(entries),
        0 <= i < entries.len(),
    ensures
        crate::expression::spec_expr_wf(entries[i].1),
    decreases i,
{
    if i > 0 {
        lemma_exprs_wf_elem(entries.drop_first(), i - 1);
    }
}

/// A well-formed token value: every expression in it is well-formed.
pub open spec fn token_value_wf(tv: SpecTokenValue) -> bool {
    match tv {
        SpecTokenValue::Single(e) => crate::expression::spec_expr_wf(e),
        SpecTokenValue::Dict(entries) => exprs_wf(entries),
    }
}

/// Well-formedness of a run of group entries.
pub open spec fn nodes_wf(children: Seq<(Seq<char>, SpecNode)>) -> bool
    decreases children,
{
    if children.len() == 0 {
        true
    } else {
        node_wf(children[0].1) && nodes_wf(children.drop_first())
    }
}

/// A well-formed document node: every token under it is well-formed.
pub open spec fn node_wf(n: SpecNode) -> bool
    decreases n,
{
    match n {
        SpecNode::Token { value, .. } => token_value_wf(value),
        SpecNode::Group(children) => nodes_wf(children),
    }
}

/// Each entry of a well-formed run is well-formed.
pub proof fn lemma_nodes_wf_elem(children: Seq<(Seq<char>, SpecNode)>, i: int)
    requires
        nodes_wf(children),
        0 <= i < children.len(),
    ensures
        node_wf(children[i].1),
    decreases i,
{
    if i > 0 {
        lemma_nodes_wf_elem(children.drop_first(), i - 1);
    }
}

/// A found entry is one of the scanned entries.
pub proof fn lemma_first_entry_in(children: Seq<(Seq<char>, SpecNode)>, key: Seq<char>)
    requires
        first_entry(children, key) is Some,
    ensures
        exists|i: int|
            0 <= i < children.len() && #[trigger] children[i].1 == first_entry(children, key)->0
                && children[i].0 == key,
    decreases children.len(),
{
    if children.len() > 0 {
        if children[0].0 == key {
            assert(children[0].1 == first_entry(children, key)->0);
        } else {
            lemma_first_entry_in(children.drop_first(), key);
            let i = choose|i: int|
                0 <= i < children.drop_first().len() && #[trigger] children.drop_first()[i].1
                    == first_entry(children.drop_first(), key)->0 && children.drop_first()[i].0
                    == key;
            assert(children[i + 1].1 == first_entry(children, key)->0 && children[i + 1].0 == key);
        }
    }
}

/// Whatever lookup finds in a well-formed tree is itself well-formed.
pub proof fn lemma_lookup_wf(n: SpecNode, path: Seq<Seq<char>>)
    requires
        node_wf(n),
        spec_lookup(n, path) is Some,
    ensures
        token_value_wf(spec_lookup(n, path)->0),
    decreases path.len(),
{
    match n {
        SpecNode::Token { .. } => {},
        SpecNode::Group(children) => {
            if path.len() > 0 {
                match first_entry(children, path[0]) {
                    Some(child) => {
                        lemma_first_entry_in(children, path[0]);
                        let i = choose|i: int|
                            0 <= i < children.len() && #[trigger] children[i].1 == child
                                && children[i].0 == path[0];
                        lemma_nodes_wf_elem(children, i);
                        lemma_lookup_wf(child, path.drop_first());
                    },
                    None => {},
                }
            }
        },
    }
}


impl Default for TokenValue {
    /// The default token value is an empty composite.
    fn default() -> (r: TokenValue)
        ensures
            r@ == SpecTokenValue::Dict(Seq::<(Seq<char>, SpecExpr)>::empty()),
    {
        let r = TokenValue::Dict(Vec::new());
        proof {
            assert(dict_entries_view(Seq::<(String, Expression)>::empty()) =~= Seq::<
                (Seq<char>, SpecExpr),
            >::empty());
        }
        r
    }
}

} // verus!
