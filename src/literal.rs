//! Clauses read off expressions over machine-named variables: a machine name's number
//! is taken as its literal.
use vstd::prelude::*;

use crate::ast::{expr_view, Expression, Metadata, Name};
use crate::error::{outcome, CNFError, Fault, SolverError};
use crate::model::{conjuncts, Model};

verus! {

/// The number behind a machine name.
pub open spec fn machine_value(n: Name) -> Result<i32, Fault> {
    match n {
        Name::MachineName(v) => Ok(v),
        _ => Err(Fault::BadVariableType(n@)),
    }
}

/// The literal of a reference, or of a negation: a double negation cancels, and a negated
/// reference gives 1 for the number 0 and 0 for any other.
pub open spec fn lit_value(e: Expression) -> Result<i32, Fault>
    decreases e,
{
    match e {
        Expression::Not(_, b) => match *b {
            Expression::Not(_, c) => lit_value(*c),
            Expression::Reference(_, n) => match machine_value(n) {
                Ok(v) => Ok(
                    if v == 0 {
                        1i32
                    } else {
                        0i32
                    },
                ),
                Err(f) => Err(f),
            },
            _ => Err(Fault::UnexpectedExpressionInsideNot(expr_view(*b))),
        },
        Expression::Reference(_, n) => machine_value(n),
        _ => Err(Fault::UnexpectedLiteralExpression(expr_view(e))),
    }
}

/// A double negation cancels: the literal read off `Not(Not(x))`, or the error, is
/// that of `x`.
pub proof fn lemma_double_negation(m1: Metadata, m2: Metadata, x: Expression)
    ensures
        lit_value(Expression::Not(m1, Box::new(Expression::Not(m2, Box::new(x))))) == lit_value(x),
{
}

/// The literals of the disjuncts, in order; each must be a reference or a negation.
pub open spec fn or_lits(es: Seq<Expression>) -> Result<Seq<i32>, Fault>
    decreases es.len(),
{
    if es.len() == 0 {
        Ok(seq![])
    } else {
        match or_lits(es.subrange(0, es.len() - 1)) {
            Err(f) => Err(f),
            Ok(a) => match es[es.len() - 1] {
                Expression::Reference(_, _) | Expression::Not(_, _) => match lit_value(
                    es[es.len() - 1],
                ) {
                    Ok(l) => Ok(a.push(l)),
                    Err(f) => Err(f),
                },
                _ => Err(Fault::UnexpectedExpressionInsideOr(expr_view(es[es.len() - 1]))),
            },
        }
    }
}

/// The clauses of the conjuncts, in order; each must be a disjunction.
pub open spec fn and_lits(es: Seq<Expression>) -> Result<Seq<Seq<i32>>, Fault>
    decreases es.len(),
{
    if es.len() == 0 {
        Ok(seq![])
    } else {
        match and_lits(es.subrange(0, es.len() - 1)) {
            Err(f) => Err(f),
            Ok(a) => match es[es.len() - 1] {
                Expression::Or(_, w) => match or_lits(w@) {
                    Ok(c) => Ok(a.push(c)),
                    Err(f) => Err(f),
                },
                _ => Err(Fault::UnexpectedExpressionInsideOr(expr_view(es[es.len() - 1]))),
            },
        }
    }
}

proof fn lemma_or_lits_prefix_fails(es: Seq<Expression>, k: int)
    requires
        0 <= k <= es.len(),
        or_lits(es.subrange(0, k)) is Err,
    ensures
        or_lits(es) == or_lits(es.subrange(0, k)),
    decreases es.len() - k,
{
    if k < es.len() {
        let p = es.subrange(0, k + 1);
        assert(p.subrange(0, p.len() - 1) =~= es.subrange(0, k));
        lemma_or_lits_prefix_fails(es, k + 1);
    } else {
        assert(es.subrange(0, k) =~= es);
    }
}

proof fn lemma_and_lits_prefix_fails(es: Seq<Expression>, k: int)
    requires
        0 <= k <= es.len(),
        and_lits(es.subrange(0, k)) is Err,
    ensures
        and_lits(es) == and_lits(es.subrange(0, k)),
    decreases es.len() - k,
{
    if k < es.len() {
        let p = es.subrange(0, k + 1);
        assert(p.subrange(0, p.len() - 1) =~= es.subrange(0, k));
        lemma_and_lits_prefix_fails(es, k + 1);
    } else {
        assert(es.subrange(0, k) =~= es);
    }
}

/// The number of a machine name; a user name is an error.
pub fn get_namevar_as_int(name: Name) -> (r: Result<i32, CNFError>)
    ensures
        outcome(r) == machine_value(name),
{
    match name {
        Name::MachineName(val) => Ok(val),
        _ => Err(CNFError::BadVariableType(name)),
    }
}

fn lit_of(e: &Expression) -> (r: Result<i32, CNFError>)
    ensures
        outcome(r) == lit_value(*e),
    decreases e,
{
    match e {
        Expression::Not(_, inner) => match &**inner {
            Expression::Not(_, e2) => lit_of(e2),
            Expression::Reference(_, name) => match get_namevar_as_int(name.duplicate()) {
                Ok(check) => {
                    if check == 0 {
                        Ok(1)
                    } else {
                        Ok(0)
                    }
                },
                Err(err) => Err(err),
            },
            _ => Err(CNFError::UnexpectedExpressionInsideNot(inner.duplicate())),
        },
        Expression::Reference(_, name) => get_namevar_as_int(name.duplicate()),
        _ => Err(CNFError::UnexpectedLiteralExpression(e.duplicate())),
    }
}

/// The literal of a reference or a negation.
pub fn handle_lit(e: Expression) -> (r: Result<i32, CNFError>)
    ensures
        outcome(r) == lit_value(e),
{
    lit_of(&e)
}

fn or_of(vec_clause: &Vec<Expression>) -> (r: Result<Vec<i32>, CNFError>)
    ensures
        outcome(r) matches Ok(c) ==> or_lits(vec_clause@) == Ok::<Seq<i32>, Fault>(c@),
        outcome(r) matches Err(f) ==> or_lits(vec_clause@) == Err::<Seq<i32>, Fault>(f),
{
    let mut ret_clause: Vec<i32> = Vec::new();
    let mut i: usize = 0;
    assert(vec_clause@.subrange(0, 0) =~= Seq::<Expression>::empty());
    assert(ret_clause@ =~= seq![]);
    while i < vec_clause.len()
        invariant
            i <= vec_clause@.len(),
            or_lits(vec_clause@.subrange(0, i as int)) == Ok::<Seq<i32>, Fault>(ret_clause@),
        decreases vec_clause@.len() - i,
    {
        let ghost prefix = vec_clause@.subrange(0, i as int + 1);
        assert(prefix.subrange(0, prefix.len() - 1) =~= vec_clause@.subrange(0, i as int));
        assert(prefix[prefix.len() - 1] == vec_clause@[i as int]);
        let expr = &vec_clause[i];
        match expr {
            Expression::Reference(_, _) | Expression::Not(_, _) => match lit_of(expr) {
                Ok(l) => ret_clause.push(l),
                Err(err) => {
                    proof {
                        lemma_or_lits_prefix_fails(vec_clause@, i as int + 1);
                    }
                    return Err(err);
                },
            },
            _ => {
                proof {
                    lemma_or_lits_prefix_fails(vec_clause@, i as int + 1);
                }
                return Err(CNFError::UnexpectedExpressionInsideOr(expr.duplicate()));
            },
        }
        i += 1;
    }
    assert(vec_clause@.subrange(0, vec_clause@.len() as int) =~= vec_clause@);
    Ok(ret_clause)
}

/// The clause of a disjunction of literals.
pub fn handle_or(e: Expression) -> (r: Result<Vec<i32>, CNFError>)
    ensures
        match e {
            Expression::Or(_, v) => match or_lits(v@) {
                Ok(c) => r matches Ok(rc) && rc@ == c,
                Err(f) => r matches Err(err) && err@ == f,
            },
            _ => r matches Err(err) && err@ == Fault::UnexpectedExpression(expr_view(e)),
        },
{
    match e {
        Expression::Or(_, vec) => or_of(&vec),
        _ => Err(CNFError::UnexpectedExpression(e)),
    }
}

fn and_of(vec_cnf: &Vec<Expression>) -> (r: Result<Vec<Vec<i32>>, CNFError>)
    ensures
        match and_lits(vec_cnf@) {
            Ok(cs) => r matches Ok(rc) && rc@.map_values(|c: Vec<i32>| c@) == cs,
            Err(f) => r matches Err(err) && err@ == f,
        },
{
    let mut ret_vec_of_vecs: Vec<Vec<i32>> = Vec::new();
    let mut i: usize = 0;
    assert(vec_cnf@.subrange(0, 0) =~= Seq::<Expression>::empty());
    assert(ret_vec_of_vecs@.map_values(|c: Vec<i32>| c@) =~= seq![]);
    while i < vec_cnf.len()
        invariant
            i <= vec_cnf@.len(),
            and_lits(vec_cnf@.subrange(0, i as int)) == Ok::<Seq<Seq<i32>>, Fault>(
                ret_vec_of_vecs@.map_values(|c: Vec<i32>| c@),
            ),
        decreases vec_cnf@.len() - i,
    {
        let ghost prefix = vec_cnf@.subrange(0, i as int + 1);
        assert(prefix.subrange(0, prefix.len() - 1) =~= vec_cnf@.subrange(0, i as int));
        assert(prefix[prefix.len() - 1] == vec_cnf@[i as int]);
        let expr = &vec_cnf[i];
        match expr {
            Expression::Or(_, w) => match or_of(w) {
                Ok(c) => {
                    let ghost before = ret_vec_of_vecs@.map_values(|c: Vec<i32>| c@);
                    ret_vec_of_vecs.push(c);
                    assert(ret_vec_of_vecs@.map_values(|c: Vec<i32>| c@) =~= before.push(c@));
                },
                Err(err) => {
                    proof {
                        lemma_and_lits_prefix_fails(vec_cnf@, i as int + 1);
                    }
                    return Err(err);
                },
            },
            _ => {
                proof {
                    lemma_and_lits_prefix_fails(vec_cnf@, i as int + 1);
                }
                return Err(CNFError::UnexpectedExpressionInsideOr(expr.duplicate()));
            },
        }
        i += 1;
    }
    assert(vec_cnf@.subrange(0, vec_cnf@.len() as int) =~= vec_cnf@);
    Ok(ret_vec_of_vecs)
}

/// The clauses of a conjunction of disjunctions of literals.
pub fn handle_and(e: Expression) -> (r: Result<Vec<Vec<i32>>, CNFError>)
    ensures
        match e {
            Expression::And(_, v) => match and_lits(v@) {
                Ok(cs) => r matches Ok(rc) && rc@.map_values(|c: Vec<i32>| c@) == cs,
                Err(f) => r matches Err(err) && err@ == f,
            },
            _ => r matches Err(err) && err@ == Fault::UnexpectedExpression(expr_view(e)),
        },
{
    match e {
        Expression::And(_, vec_and) => and_of(&vec_and),
        _ => Err(CNFError::UnexpectedExpression(e)),
    }
}

/// The clauses of a model whose variables are all boolean and whose constraints are
/// disjunctions of literals over machine-named variables.
pub fn instantiate_model_from_conjure(conjure_model: Model) -> (r: Result<
    Vec<Vec<i32>>,
    SolverError,
>)
    requires
        conjure_model.wf(),
    ensures
        !conjure_model.is_boolean() ==> (r matches Err(SolverError::ModelFeatureNotSupported(e))
            && exists|k: int|
            conjure_model.first_non_boolean(k) && e@ == Fault::BadVariableType(
                #[trigger] conjure_model.keys()[k],
            )),
        conjure_model.is_boolean() ==> match and_lits(conjuncts(conjure_model.root())) {
            Ok(cs) => r matches Ok(rc) && rc@.map_values(|c: Vec<i32>| c@) == cs,
            Err(f) => r matches Err(SolverError::ModelFeatureNotSupported(e)) && e@ == f,
        },
{
    let ghost keys = conjure_model.keys();
    let ghost domains = conjure_model.domains();
    let vars = conjure_model.variables();
    let mut i: usize = 0;
    while i < vars.len()
        invariant
            keys == conjure_model.keys(),
            domains == conjure_model.domains(),
            vars@.map_values(|p: (Name, crate::ast::DecisionVariable)| p.0@) == keys,
            vars@.map_values(|p: (Name, crate::ast::DecisionVariable)| p.1.domain) == domains,
            domains.len() == keys.len(),
            i <= vars@.len(),
            forall|j: int| 0 <= j < i ==> #[trigger] domains[j] is BoolDomain,
        decreases vars@.len() - i,
    {
        assert(keys[i as int] == vars@[i as int].0@);
        assert(domains[i as int] == vars@[i as int].1.domain);
        if !vars[i].1.domain.is_bool() {
            assert(conjure_model.first_non_boolean(i as int));
            return Err(
                SolverError::ModelFeatureNotSupported(
                    CNFError::BadVariableType(vars[i].0.duplicate()),
                ),
            );
        }
        i += 1;
    }
    assert(conjure_model.is_boolean());
    let md = Metadata { clean: false, etype: None };
    let constraints_vec = conjure_model.get_constraints_vec();
    match handle_and(Expression::And(md, constraints_vec)) {
        Ok(vec_cnf) => Ok(vec_cnf),
        Err(err) => Err(SolverError::ModelFeatureNotSupported(err)),
    }
}

} // verus!
