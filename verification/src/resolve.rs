//! Reference resolution: evaluating an expression to a value, following
//! references transitively and reporting reference cycles as faults.
use vstd::prelude::*;

use crate::errors::{Error, SpecError};
use crate::expression::{spec_expr_wf, Expression, SpecExpr};
use crate::strutil::strings_view;
use crate::tree::{
    lemma_lookup_wf, node_wf, spec_lookup, token_value_wf, DesignTokens, SpecNode, SpecTokenValue,
    TokenValue,
};
use crate::value::{spec_value_div, spec_value_mul, spec_value_wf, SpecValue, Value};

verus! {

/// The recursion allowance of the evaluator; reference chains are far
/// shorter, so in practice only a true cycle ever reports a cycle fault.
pub const EVAL_FUEL: u64 = u64::MAX;

/// The views of a stack of reference paths.
pub open spec fn paths_view(v: Seq<Vec<String>>) -> Seq<Seq<Seq<char>>> {
    v.map(|i: int, p: Vec<String>| strings_view(p@))
}

/// Evaluation of an expression against a document tree. A literal is its
/// value; arithmetic evaluates both sides and applies the value-model
/// operator; a reference resolves its path and evaluates the target's
/// expression in turn, with the paths in progress tracked to turn a
/// reference cycle into a cycle fault.
pub open spec fn spec_eval(
    body: SpecNode,
    e: SpecExpr,
    visited: Seq<Seq<Seq<char>>>,
    fuel: nat,
) -> Result<SpecValue, SpecError>
    decreases fuel, e,
{
    match e {
        SpecExpr::Value(v) => Ok(v),
        SpecExpr::Mul(a, b) => match spec_eval(body, *a, visited, fuel) {
            Ok(va) => match spec_eval(body, *b, visited, fuel) {
                Ok(vb) => spec_value_mul(va, vb),
                Err(er) => Err(er),
            },
            Err(er) => Err(er),
        },
        SpecExpr::Div(a, b) => match spec_eval(body, *a, visited, fuel) {
            Ok(va) => match spec_eval(body, *b, visited, fuel) {
                Ok(vb) => spec_value_div(va, vb),
                Err(er) => Err(er),
            },
            Err(er) => Err(er),
        },
        SpecExpr::Ref(path) => if visited.contains(path) {
            Err(SpecError::Cycle)
        } else {
            match spec_lookup(body, path) {
                None => Err(SpecError::Lookup(path)),
                Some(SpecTokenValue::Dict(_)) => Err(SpecError::CompositeScalar),
                Some(SpecTokenValue::Single(target)) => if fuel == 0 {
                    Err(SpecError::Cycle)
                } else {
                    spec_eval(body, target, visited.push(path), (fuel - 1) as nat)
                },
            }
        },
    }
}

/// What a token value resolves to as a single value: its expression's
/// evaluation, or the composite-as-scalar fault for a composite token.
pub open spec fn spec_token_value_eval(body: SpecNode, tv: SpecTokenValue) -> Result<
    SpecValue,
    SpecError,
> {
    match tv {
        SpecTokenValue::Single(e) => spec_eval(body, e, Seq::empty(), EVAL_FUEL as nat),
        SpecTokenValue::Dict(_) => Err(SpecError::CompositeScalar),
    }
}

/// Whether two string vectors denote the same path.
fn vec_string_eq(a: &Vec<String>, b: &Vec<String>) -> (r: bool)
    ensures
        r == (strings_view(a@) == strings_view(b@)),
{
    if a.len() != b.len() {
        proof {
            assert(strings_view(a@).len() != strings_view(b@).len());
        }
        return false;
    }
    let mut i: usize = 0;
    while i < a.len()
        invariant
            i <= a@.len(),
            a@.len() == b@.len(),
            forall|m: int| 0 <= m < i ==> #[trigger] strings_view(a@)[m] == strings_view(b@)[m],
        decreases a@.len() - i,
    {
        if !a[i].eq(&b[i]) {
            proof {
                assert(strings_view(a@)[i as int] != strings_view(b@)[i as int]);
            }
            return false;
        }
        i = i + 1;
    }
    proof {
        assert(strings_view(a@) =~= strings_view(b@));
    }
    true
}

/// Whether the path stack already holds this path.
fn contains_path(visited: &Vec<Vec<String>>, p: &Vec<String>) -> (r: bool)
    ensures
        r == paths_view(visited@).contains(strings_view(p@)),
{
    let mut k: usize = 0;
    while k < visited.len()
        invariant
            k <= visited@.len(),
            forall|m: int| 0 <= m < k ==> #[trigger] paths_view(visited@)[m] != strings_view(p@),
        decreases visited@.len() - k,
    {
        if vec_string_eq(&visited[k], p) {
            proof {
                assert(paths_view(visited@)[k as int] == strings_view(p@));
            }
            return true;
        }
        k = k + 1;
    }
    proof {
        assert(forall|m: int|
            0 <= m < paths_view(visited@).len() ==> #[trigger] paths_view(visited@)[m]
                != strings_view(p@));
    }
    false
}

/// Copies a reference path.
fn clone_path(p: &Vec<String>) -> (r: Vec<String>)
    ensures
        strings_view(r@) == strings_view(p@),
{
    let mut r: Vec<String> = Vec::new();
    let mut i: usize = 0;
    while i < p.len()
        invariant
            i <= p@.len(),
            r@.len() == i,
            forall|m: int| 0 <= m < i ==> (#[trigger] r@[m])@ == p@[m]@,
        decreases p@.len() - i,
    {
        r.push(p[i].clone());
        i = i + 1;
    }
    proof {
        assert forall|m: int| 0 <= m < p@.len() implies strings_view(r@)[m] == strings_view(p@)[m]
        by {
            assert(r@[m]@ == p@[m]@);
        }
        assert(strings_view(r@) =~= strings_view(p@));
    }
    r
}

/// Evaluates `e` against the document, with `visited` holding the
/// reference paths already being resolved.
fn eval_expr(e: &Expression, tokens: &DesignTokens, visited: &mut Vec<Vec<String>>, fuel: u64) -> (r:
    Result<Value, Error>)
    requires
        spec_expr_wf(e@),
        node_wf(tokens@.body),
    ensures
        final(visited)@ == old(visited)@,
        match r {
            Ok(v) => spec_eval(tokens@.body, e@, paths_view(old(visited)@), fuel as nat) == Ok::<
                SpecValue,
                SpecError,
            >(v@) && spec_value_wf(v@),
            Err(er) => spec_eval(tokens@.body, e@, paths_view(old(visited)@), fuel as nat) == Err::<
                SpecValue,
                SpecError,
            >(er@),
        },
    decreases fuel, *e,
{
    match e {
        Expression::Value(v) => Ok(v.clone()),
        Expression::Mul(a, b) => {
            match eval_expr(a, tokens, visited, fuel) {
                Err(er) => Err(er),
                Ok(va) => match eval_expr(b, tokens, visited, fuel) {
                    Err(er) => Err(er),
                    Ok(vb) => va.mul(&vb),
                },
            }
        },
        Expression::Div(a, b) => {
            match eval_expr(a, tokens, visited, fuel) {
                Err(er) => Err(er),
                Ok(va) => match eval_expr(b, tokens, visited, fuel) {
                    Err(er) => Err(er),
                    Ok(vb) => va.div(&vb),
                },
            }
        },
        Expression::Ref(path) => {
            if contains_path(visited, path) {
                return Err(Error::Cycle);
            }
            match tokens.get_value(path.as_slice()) {
                None => Err(Error::Lookup(clone_path(path))),
                Some(TokenValue::Dict(_)) => Err(Error::CompositeScalar),
                Some(TokenValue::Single(target)) => {
                    if fuel == 0 {
                        return Err(Error::Cycle);
                    }
                    proof {
                        lemma_lookup_wf(tokens@.body, strings_view(path@));
                    }
                    visited.push(clone_path(path));
                    proof {
                        assert(paths_view(visited@) =~= paths_view(old(visited)@).push(
                            strings_view(path@),
                        ));
                    }
                    let r = eval_expr(target, tokens, visited, fuel - 1);
                    let _ = visited.pop();
                    proof {
                        assert(visited@ =~= old(visited)@);
                    }
                    r
                },
            }
        },
    }
}

impl Expression {
    /// Evaluates this expression against the document: literals are their
    /// values, references resolve transitively, arithmetic applies the
    /// value model; lookup faults, composite targets and reference cycles
    /// are reported as errors.
    pub fn get_value(&self, tokens: &DesignTokens) -> (r: Result<Value, Error>)
        requires
            spec_expr_wf(self@),
            node_wf(tokens@.body),
        ensures
            match r {
                Ok(v) => spec_eval(tokens@.body, self@, Seq::empty(), EVAL_FUEL as nat) == Ok::<
                    SpecValue,
                    SpecError,
                >(v@) && spec_value_wf(v@),
                Err(er) => spec_eval(tokens@.body, self@, Seq::empty(), EVAL_FUEL as nat) == Err::<
                    SpecValue,
                    SpecError,
                >(er@),
            },
    {
        let mut visited: Vec<Vec<String>> = Vec::new();
        proof {
            assert(paths_view(visited@) =~= Seq::<Seq<Seq<char>>>::empty());
        }
        eval_expr(self, tokens, &mut visited, EVAL_FUEL)
    }
}

impl TokenValue {
    /// Resolves this token value to a single value; a composite token
    /// cannot stand as one and is a fault.
    pub fn get_value(&self, tokens: &DesignTokens) -> (r: Result<Value, Error>)
        requires
            token_value_wf(self@),
            node_wf(tokens@.body),
        ensures
            match r {
                Ok(v) => spec_token_value_eval(tokens@.body, self@) == Ok::<
                    SpecValue,
                    SpecError,
                >(v@) && spec_value_wf(v@),
                Err(er) => spec_token_value_eval(tokens@.body, self@) == Err::<
                    SpecValue,
                    SpecError,
                >(er@),
            },
    {
        match self {
            TokenValue::Single(e) => e.get_value(tokens),
            TokenValue::Dict(_) => Err(Error::CompositeScalar),
        }
    }
}


/// Reference cycles are reported, never run into: in any document where
/// the token at path `p` is an expression referencing path `q` and the
/// token at `q` references `p` back, resolution from either entry point
/// of the cycle is the cycle fault.
pub proof fn lemma_two_token_cycle(body: SpecNode, p: Seq<Seq<char>>, q: Seq<Seq<char>>)
    requires
        p != q,
        spec_lookup(body, p) == Some(SpecTokenValue::Single(SpecExpr::Ref(q))),
        spec_lookup(body, q) == Some(SpecTokenValue::Single(SpecExpr::Ref(p))),
    ensures
        spec_eval(body, SpecExpr::Ref(p), Seq::empty(), EVAL_FUEL as nat) == Err::<
            SpecValue,
            SpecError,
        >(SpecError::Cycle),
        spec_eval(body, SpecExpr::Ref(q), Seq::empty(), EVAL_FUEL as nat) == Err::<
            SpecValue,
            SpecError,
        >(SpecError::Cycle),
{
    lemma_two_token_cycle_one(body, p, q);
    lemma_two_token_cycle_one(body, q, p);
}

/// One entry point of the two-token cycle.
proof fn lemma_two_token_cycle_one(body: SpecNode, p: Seq<Seq<char>>, q: Seq<Seq<char>>)
    requires
        p != q,
        spec_lookup(body, p) == Some(SpecTokenValue::Single(SpecExpr::Ref(q))),
        spec_lookup(body, q) == Some(SpecTokenValue::Single(SpecExpr::Ref(p))),
    ensures
        spec_eval(body, SpecExpr::Ref(p), Seq::empty(), EVAL_FUEL as nat) == Err::<
            SpecValue,
            SpecError,
        >(SpecError::Cycle),
{
    let fuel = EVAL_FUEL as nat;
    let v0 = Seq::<Seq<Seq<char>>>::empty();
    let v1 = v0.push(p);
    let v2 = v1.push(q);
    assert(!v0.contains(p));
    assert(!v1.contains(q)) by {
        assert(forall|i: int| 0 <= i < v1.len() ==> v1[i] == p);
    }
    assert(v2.contains(p)) by {
        assert(v2[0] == p);
    }
    assert(spec_eval(body, SpecExpr::Ref(p), v2, (fuel - 2) as nat) == Err::<
        SpecValue,
        SpecError,
    >(SpecError::Cycle));
    assert(spec_eval(body, SpecExpr::Ref(q), v1, (fuel - 1) as nat) == Err::<
        SpecValue,
        SpecError,
    >(SpecError::Cycle));
}

/// The arithmetic policy under resolution: a product of two literal
/// numbers evaluates to their exact decimal product carrying the left
/// operand's unit, whatever the right operand's unit.
pub proof fn lemma_eval_mul_keeps_left_unit(
    body: SpecNode,
    d1: crate::decimal::Decimal,
    t1: crate::value::NumberType,
    d2: crate::decimal::Decimal,
    t2: crate::value::NumberType,
)
    requires
        crate::decimal::spec_dec_mul(d1, d2) is Some,
    ensures
        spec_eval(
            body,
            SpecExpr::Mul(
                Box::new(SpecExpr::Value(SpecValue::Number(d1, t1))),
                Box::new(SpecExpr::Value(SpecValue::Number(d2, t2))),
            ),
            Seq::empty(),
            EVAL_FUEL as nat,
        ) == Ok::<SpecValue, SpecError>(
            SpecValue::Number(crate::decimal::spec_dec_mul(d1, d2)->0, t1),
        ),
{
    let ea = SpecExpr::Value(SpecValue::Number(d1, t1));
    let eb = SpecExpr::Value(SpecValue::Number(d2, t2));
    let v0 = Seq::<Seq<Seq<char>>>::empty();
    assert(spec_eval(body, ea, v0, EVAL_FUEL as nat) == Ok::<SpecValue, SpecError>(
        SpecValue::Number(d1, t1),
    ));
    assert(spec_eval(body, eb, v0, EVAL_FUEL as nat) == Ok::<SpecValue, SpecError>(
        SpecValue::Number(d2, t2),
    ));
}


/// Transitive resolution: in any document where the token at path `p` is
/// an expression referencing path `q`, and the token at `q` is a literal,
/// resolving `p` yields exactly that literal's value.
pub proof fn lemma_two_hop_resolution(
    body: SpecNode,
    p: Seq<Seq<char>>,
    q: Seq<Seq<char>>,
    v: SpecValue,
)
    requires
        spec_lookup(body, p) == Some(SpecTokenValue::Single(SpecExpr::Ref(q))),
        spec_lookup(body, q) == Some(SpecTokenValue::Single(SpecExpr::Value(v))),
    ensures
        spec_eval(body, SpecExpr::Ref(p), Seq::empty(), EVAL_FUEL as nat) == Ok::<
            SpecValue,
            SpecError,
        >(v),
{
    let fuel = EVAL_FUEL as nat;
    let v0 = Seq::<Seq<Seq<char>>>::empty();
    let v1 = v0.push(p);
    assert(p != q);
    assert(!v0.contains(p));
    assert(!v1.contains(q)) by {
        assert(forall|i: int| 0 <= i < v1.len() ==> v1[i] == p);
    }
    assert(spec_eval(body, SpecExpr::Value(v), v1.push(q), (fuel - 2) as nat) == Ok::<
        SpecValue,
        SpecError,
    >(v));
    assert(spec_eval(body, SpecExpr::Ref(q), v1, (fuel - 1) as nat) == Ok::<
        SpecValue,
        SpecError,
    >(v));
}

} // verus!
