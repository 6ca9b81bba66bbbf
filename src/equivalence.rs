//! Truth of clauses under an assignment, and the proof that encoding and decoding keep it.
use vstd::prelude::*;

use crate::ast::{eval, eval_all, eval_any, Expression, NameView};
use crate::encode::{
    and_clauses, constraint_clauses, decodes_clause, decodes_clauses, decodes_literal,
    expression_clauses, flat_clause, or_clause,
};
use crate::model::{conjuncts, Model};

verus! {

/// Literal `l` holds: its variable is true if `l` is positive, false otherwise.
pub open spec fn lit_holds(names: Seq<NameView>, l: i32, a: spec_fn(NameView) -> bool) -> bool {
    if l > 0 {
        a(names[l - 1])
    } else {
        !a(names[-l - 1])
    }
}

/// Some literal of the clause holds.
pub open spec fn clause_holds(names: Seq<NameView>, c: Seq<i32>, a: spec_fn(NameView) -> bool) -> bool
    decreases c.len(),
{
    if c.len() == 0 {
        false
    } else {
        clause_holds(names, c.subrange(0, c.len() - 1), a) || lit_holds(names, c[c.len() - 1], a)
    }
}

/// Every clause holds.
pub open spec fn clauses_hold(
    names: Seq<NameView>,
    cs: Seq<Seq<i32>>,
    a: spec_fn(NameView) -> bool,
) -> bool
    decreases cs.len(),
{
    if cs.len() == 0 {
        true
    } else {
        clauses_hold(names, cs.subrange(0, cs.len() - 1), a) && clause_holds(
            names,
            cs[cs.len() - 1],
            a,
        )
    }
}

proof fn lemma_clause_holds_concat(
    names: Seq<NameView>,
    x: Seq<i32>,
    y: Seq<i32>,
    a: spec_fn(NameView) -> bool,
)
    ensures
        clause_holds(names, x + y, a) == (clause_holds(names, x, a) || clause_holds(names, y, a)),
    decreases y.len(),
{
    if y.len() == 0 {
        assert(x + y =~= x);
    } else {
        let xy = x + y;
        let y0 = y.subrange(0, y.len() - 1);
        assert(xy.subrange(0, xy.len() - 1) =~= x + y0);
        assert(xy[xy.len() - 1] == y[y.len() - 1]);
        lemma_clause_holds_concat(names, x, y0, a);
    }
}

proof fn lemma_clauses_hold_concat(
    names: Seq<NameView>,
    x: Seq<Seq<i32>>,
    y: Seq<Seq<i32>>,
    a: spec_fn(NameView) -> bool,
)
    ensures
        clauses_hold(names, x + y, a) == (clauses_hold(names, x, a) && clauses_hold(names, y, a)),
    decreases y.len(),
{
    if y.len() == 0 {
        assert(x + y =~= x);
    } else {
        let xy = x + y;
        let y0 = y.subrange(0, y.len() - 1);
        assert(xy.subrange(0, xy.len() - 1) =~= x + y0);
        assert(xy[xy.len() - 1] == y[y.len() - 1]);
        lemma_clauses_hold_concat(names, x, y0, a);
    }
}

proof fn lemma_registered_name(names: Seq<NameView>, n: NameView)
    requires
        names.contains(n),
    ensures
        names[names.index_of(n)] == n,
        0 <= names.index_of(n) < names.len(),
{
}

proof fn lemma_flat_clause_holds(names: Seq<NameView>, e: Expression, a: spec_fn(NameView) -> bool)
    requires
        names.len() < i32::MAX,
        flat_clause(names, e) is Ok,
    ensures
        clause_holds(names, flat_clause(names, e)->Ok_0, a) == eval(e, a),
    decreases e,
{
    let c = flat_clause(names, e)->Ok_0;
    match e {
        Expression::Reference(_, n) => {
            lemma_registered_name(names, n@);
            assert(c.subrange(0, 0) =~= Seq::<i32>::empty());
            assert(!clause_holds(names, c.subrange(0, 0), a));
            assert(c[c.len() - 1] == (names.index_of(n@) + 1) as i32);
        },
        Expression::Not(_, b) => {
            match *b {
                Expression::Reference(_, n) => {
                    lemma_registered_name(names, n@);
                    assert(c.subrange(0, 0) =~= Seq::<i32>::empty());
                    assert(!clause_holds(names, c.subrange(0, 0), a));
                    assert(c[c.len() - 1] == (-(names.index_of(n@) + 1)) as i32);
                    assert(eval(e, a) == !eval(*b, a));
                },
                _ => {},
            }
        },
        Expression::Or(_, v) => {
            lemma_or_clause_holds(names, v@, a);
        },
        _ => {},
    }
}

proof fn lemma_or_clause_holds(names: Seq<NameView>, es: Seq<Expression>, a: spec_fn(NameView) -> bool)
    requires
        names.len() < i32::MAX,
        or_clause(names, es) is Ok,
    ensures
        clause_holds(names, or_clause(names, es)->Ok_0, a) == eval_any(es, a),
    decreases es,
{
    if es.len() > 0 {
        let prefix = es.subrange(0, es.len() - 1);
        let last = es[es.len() - 1];
        lemma_or_clause_holds(names, prefix, a);
        lemma_flat_clause_holds(names, last, a);
        lemma_clause_holds_concat(
            names,
            or_clause(names, prefix)->Ok_0,
            flat_clause(names, last)->Ok_0,
            a,
        );
    }
}

proof fn lemma_and_clauses_hold(names: Seq<NameView>, es: Seq<Expression>, a: spec_fn(NameView) -> bool)
    requires
        names.len() < i32::MAX,
        and_clauses(names, es) is Ok,
    ensures
        clauses_hold(names, and_clauses(names, es)->Ok_0, a) == eval_all(es, a),
    decreases es.len(),
{
    if es.len() > 0 {
        let prefix = es.subrange(0, es.len() - 1);
        let last = es[es.len() - 1];
        lemma_and_clauses_hold(names, prefix, a);
        lemma_flat_clause_holds(names, last, a);
        let pa = and_clauses(names, prefix)->Ok_0;
        let c = flat_clause(names, last)->Ok_0;
        let all = pa.push(c);
        assert(all.subrange(0, all.len() - 1) =~= pa);
    }
}

proof fn lemma_expression_clauses_hold(
    names: Seq<NameView>,
    e: Expression,
    a: spec_fn(NameView) -> bool,
)
    requires
        names.len() < i32::MAX,
        expression_clauses(names, e) is Ok,
    ensures
        clauses_hold(names, expression_clauses(names, e)->Ok_0, a) == eval(e, a),
{
    match e {
        Expression::And(_, v) => {
            lemma_and_clauses_hold(names, v@, a);
        },
        _ => {
            lemma_flat_clause_holds(names, e, a);
            let cs = expression_clauses(names, e)->Ok_0;
            assert(cs.subrange(0, 0) =~= Seq::<Seq<i32>>::empty());
            assert(clauses_hold(names, cs.subrange(0, 0), a));
            assert(cs[cs.len() - 1] == flat_clause(names, e)->Ok_0);
        },
    }
}

proof fn lemma_constraint_clauses_hold(
    names: Seq<NameView>,
    es: Seq<Expression>,
    a: spec_fn(NameView) -> bool,
)
    requires
        names.len() < i32::MAX,
        constraint_clauses(names, es) is Ok,
    ensures
        clauses_hold(names, constraint_clauses(names, es)->Ok_0, a) == eval_all(es, a),
    decreases es.len(),
{
    if es.len() > 0 {
        let prefix = es.subrange(0, es.len() - 1);
        let last = es[es.len() - 1];
        lemma_constraint_clauses_hold(names, prefix, a);
        lemma_expression_clauses_hold(names, last, a);
        lemma_clauses_hold_concat(
            names,
            constraint_clauses(names, prefix)->Ok_0,
            expression_clauses(names, last)->Ok_0,
            a,
        );
    }
}

proof fn lemma_decoded_literals(
    names: Seq<NameView>,
    c: Seq<i32>,
    es: Seq<Expression>,
    a: spec_fn(NameView) -> bool,
)
    requires
        es.len() == c.len(),
        forall|j: int| 0 <= j < c.len() ==> decodes_literal(names, c[j], #[trigger] es[j]),
    ensures
        eval_any(es, a) == clause_holds(names, c, a),
    decreases c.len(),
{
    if c.len() > 0 {
        let k = c.len() - 1;
        let c0 = c.subrange(0, k);
        let es0 = es.subrange(0, k);
        assert forall|j: int| 0 <= j < c0.len() implies decodes_literal(
            names,
            c0[j],
            #[trigger] es0[j],
        ) by {
            assert(c0[j] == c[j]);
            assert(es0[j] == es[j]);
        }
        lemma_decoded_literals(names, c0, es0, a);
        assert(decodes_literal(names, c[k], es[k]));
        let e = es[k];
        match e {
            Expression::Not(_, b) => {
                assert(eval(e, a) == !eval(*b, a));
            },
            Expression::Reference(_, n) => {
                assert(eval(e, a) == a(n@));
            },
            _ => {},
        }
        assert(es.subrange(0, es.len() - 1) =~= es0);
    }
}

proof fn lemma_decoded_clause(
    names: Seq<NameView>,
    c: Seq<i32>,
    d: Expression,
    a: spec_fn(NameView) -> bool,
)
    requires
        decodes_clause(names, c, d),
    ensures
        eval(d, a) == clause_holds(names, c, a),
{
    match d {
        Expression::Or(_, v) => {
            lemma_decoded_literals(names, c, v@, a);
        },
        _ => {},
    }
}

proof fn lemma_decoded_clause_list(
    names: Seq<NameView>,
    cs: Seq<Seq<i32>>,
    es: Seq<Expression>,
    a: spec_fn(NameView) -> bool,
)
    requires
        es.len() == cs.len(),
        forall|i: int| 0 <= i < cs.len() ==> decodes_clause(names, cs[i], #[trigger] es[i]),
    ensures
        eval_all(es, a) == clauses_hold(names, cs, a),
    decreases cs.len(),
{
    if cs.len() > 0 {
        let k = cs.len() - 1;
        let cs0 = cs.subrange(0, k);
        let es0 = es.subrange(0, k);
        assert forall|i: int| 0 <= i < cs0.len() implies decodes_clause(
            names,
            cs0[i],
            #[trigger] es0[i],
        ) by {
            assert(cs0[i] == cs[i]);
            assert(es0[i] == es[i]);
        }
        lemma_decoded_clause_list(names, cs0, es0, a);
        assert(decodes_clause(names, cs[k], es[k]));
        lemma_decoded_clause(names, cs[k], es[k], a);
    }
}

/// A decoded conjunction holds exactly when every decoded clause does.
pub proof fn lemma_decoded_clauses(
    names: Seq<NameView>,
    cs: Seq<Seq<i32>>,
    d: Expression,
    a: spec_fn(NameView) -> bool,
)
    requires
        decodes_clauses(names, cs, d),
    ensures
        eval(d, a) == clauses_hold(names, cs, a),
{
    match d {
        Expression::And(_, v) => {
            lemma_decoded_clause_list(names, cs, v@, a);
        },
        _ => {},
    }
}

/// A model's root holds exactly when each of its top-level constraints does.
pub proof fn lemma_root_is_conjunction(e: Expression, a: spec_fn(NameView) -> bool)
    ensures
        eval(e, a) == eval_all(conjuncts(e), a),
{
    match e {
        Expression::And(_, _) => {},
        _ => {
            let s = conjuncts(e);
            assert(s.subrange(0, 0) =~= Seq::<Expression>::empty());
            assert(eval_all(s.subrange(0, 0), a));
            assert(s[s.len() - 1] == e);
        },
    }
}

/// Encoding a boolean model in conjunctive normal form, then decoding its clauses, gives
/// an expression that holds under exactly the assignments under which the model's root
/// constraint holds: the encoding reads the variables by the model's names, and decoding
/// rebuilds a conjunction of disjunctions of those names.
pub proof fn lemma_round_trip(m: Model, a: spec_fn(NameView) -> bool)
    requires
        m.wf(),
        m.is_boolean(),
        m.keys().len() < i32::MAX,
        constraint_clauses(m.keys(), conjuncts(m.root())) is Ok,
    ensures
        forall|d: Expression|
            decodes_clauses(m.keys(), constraint_clauses(m.keys(), conjuncts(m.root()))->Ok_0, d)
                ==> #[trigger] eval(d, a) == eval(m.root(), a),
{
    let cs = constraint_clauses(m.keys(), conjuncts(m.root()))->Ok_0;
    lemma_constraint_clauses_hold(m.keys(), conjuncts(m.root()), a);
    lemma_root_is_conjunction(m.root(), a);
    assert forall|d: Expression| decodes_clauses(m.keys(), cs, d) implies #[trigger] eval(d, a)
        == eval(m.root(), a) by {
        lemma_decoded_clauses(m.keys(), cs, d, a);
    }
}

} // verus!
