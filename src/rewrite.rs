//! Flattening of nested conjunctions into one top-level conjunction.
use vstd::prelude::*;

use crate::ast::{eval, eval_all, lemma_eval_all_concat, Expression, Metadata, NameView, ReturnType};

verus! {

/// The conjuncts of `e` with every nested conjunction spliced in place, in order.
pub open spec fn flat_conjuncts(e: Expression) -> Seq<Expression>
    decreases e,
{
    match e {
        Expression::And(_, v) => flat_conjuncts_all(v@),
        _ => seq![e],
    }
}

pub open spec fn flat_conjuncts_all(es: Seq<Expression>) -> Seq<Expression>
    decreases es,
{
    if es.len() == 0 {
        seq![]
    } else {
        flat_conjuncts_all(es.subrange(0, es.len() - 1)) + flat_conjuncts(es[es.len() - 1])
    }
}

/// No conjunct left by flattening is itself a conjunction.
pub proof fn lemma_flat_has_no_and(e: Expression)
    ensures
        forall|k: int|
            0 <= k < flat_conjuncts(e).len() ==> !(#[trigger] flat_conjuncts(e)[k] is And),
    decreases e,
{
    match e {
        Expression::And(_, v) => lemma_flat_all_has_no_and(v@),
        _ => {},
    }
}

pub proof fn lemma_flat_all_has_no_and(es: Seq<Expression>)
    ensures
        forall|k: int|
            0 <= k < flat_conjuncts_all(es).len() ==> !(#[trigger] flat_conjuncts_all(es)[k] is And),
    decreases es,
{
    if es.len() > 0 {
        let prefix = es.subrange(0, es.len() - 1);
        lemma_flat_all_has_no_and(prefix);
        lemma_flat_has_no_and(es[es.len() - 1]);
        let a = flat_conjuncts_all(prefix);
        let b = flat_conjuncts(es[es.len() - 1]);
        assert forall|k: int| 0 <= k < (a + b).len() implies !(#[trigger] (a + b)[k] is And) by {
            if k < a.len() {
                assert((a + b)[k] == a[k]);
            } else {
                assert((a + b)[k] == b[k - a.len()]);
            }
        }
    }
}

/// Flattening keeps the truth value: `e` holds exactly when all its flat conjuncts do.
pub proof fn lemma_flat_eval(e: Expression, a: spec_fn(NameView) -> bool)
    ensures
        eval(e, a) == eval_all(flat_conjuncts(e), a),
    decreases e,
{
    match e {
        Expression::And(_, v) => {
            lemma_flat_all_eval(v@, a);
        },
        _ => {
            let s = flat_conjuncts(e);
            assert(s.subrange(0, 0) =~= Seq::<Expression>::empty());
            assert(eval_all(s.subrange(0, 0), a));
            assert(s[s.len() - 1] == e);
        },
    }
}

pub proof fn lemma_flat_all_eval(es: Seq<Expression>, a: spec_fn(NameView) -> bool)
    ensures
        eval_all(es, a) == eval_all(flat_conjuncts_all(es), a),
    decreases es,
{
    if es.len() > 0 {
        let prefix = es.subrange(0, es.len() - 1);
        let last = es[es.len() - 1];
        lemma_flat_all_eval(prefix, a);
        lemma_flat_eval(last, a);
        lemma_eval_all_concat(flat_conjuncts_all(prefix), flat_conjuncts(last), a);
    }
}

fn flatten_into(e: Expression, out: &mut Vec<Expression>)
    ensures
        final(out)@ == old(out)@ + flat_conjuncts(e),
    decreases e,
{
    let ghost e0 = e;
    match e {
        Expression::And(_, v) => {
            let ghost vs = v@;
            let ghost start = out@;
            let mut rest = v;
            let ghost mut k: int = 0;
            assert(vs.subrange(0, 0) =~= Seq::<Expression>::empty());
            assert(start + flat_conjuncts_all(vs.subrange(0, 0)) =~= start);
            assert(rest@ =~= vs.subrange(0, vs.len() as int));
            while rest.len() > 0
                invariant
                    0 <= k <= vs.len(),
                    rest@ == vs.subrange(k, vs.len() as int),
                    out@ == start + flat_conjuncts_all(vs.subrange(0, k)),
                    e0 matches Expression::And(_, w) && w@ == vs,
                    e0 == e,
                decreases rest@.len(),
            {
                let x = rest.remove(0);
                assert(x == vs[k]);
                assert(decreases_to!(e0 => x));
                flatten_into(x, out);
                proof {
                    let p = vs.subrange(0, k + 1);
                    assert(p.subrange(0, p.len() - 1) =~= vs.subrange(0, k));
                    assert(p[p.len() - 1] == vs[k]);
                    k = k + 1;
                }
                assert(rest@ =~= vs.subrange(k, vs.len() as int));
            }
            assert(vs.subrange(0, k) =~= vs);
        },
        other => {
            out.push(other);
        },
    }
}

/// Rewrites `e` into one conjunction whose conjuncts are the flat conjuncts of `e`: no
/// conjunction survives below the top, and the truth value under every assignment is kept.
/// The new root is marked as rewritten, of boolean type.
pub fn flatten_conjunction(e: Expression) -> (r: Expression)
    ensures
        r matches Expression::And(_, v) && v@ == flat_conjuncts(e),
        r matches Expression::And(m, _) && m.clean && m.etype == Some(ReturnType::Bool),
        r matches Expression::And(_, v) && forall|k: int|
            0 <= k < v@.len() ==> !(#[trigger] v@[k] is And),
        forall|a: spec_fn(NameView) -> bool| #[trigger] eval(r, a) == eval(e, a),
{
    let mut out: Vec<Expression> = Vec::new();
    flatten_into(e, &mut out);
    assert(out@ =~= flat_conjuncts(e));
    proof {
        lemma_flat_has_no_and(e);
    }
    let r = Expression::And(Metadata { clean: true, etype: Some(ReturnType::Bool) }, out);
    assert forall|a: spec_fn(NameView) -> bool| #[trigger] eval(r, a) == eval(e, a) by {
        lemma_flat_eval(e, a);
    }
    r
}

} // verus!
