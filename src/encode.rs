//! Encoding of propositional expressions as clauses of signed literals, and decoding back.
use vstd::prelude::*;

use crate::ast::{expr_view, DecisionVariable, Expression, Metadata, Name, NameView};
use crate::model::{conjuncts, Model};
use crate::cnf::{first_unregistered, index_in, valid_clause, valid_clauses, valid_lit, CNFModel};
use crate::error::{CNFError, Fault, SolverError};

verus! {

/// The one-literal clause for variable `n`, negated or not.
pub open spec fn literal_clause(names: Seq<NameView>, n: NameView, negated: bool) -> Result<
    Seq<i32>,
    Fault,
> {
    match index_in(names, n) {
        Some(i) => Ok(
            if negated {
                seq![(-i) as i32]
            } else {
                seq![i as i32]
            },
        ),
        None => Err(Fault::VariableNameNotFound(n)),
    }
}

/// The clause that a reference, a negated reference or a disjunction stands for.
pub open spec fn flat_clause(names: Seq<NameView>, e: Expression) -> Result<Seq<i32>, Fault>
    decreases e,
{
    match e {
        Expression::Reference(_, n) => literal_clause(names, n@, false),
        Expression::Not(_, b) => match *b {
            Expression::Reference(_, n) => literal_clause(names, n@, true),
            _ => Err(Fault::UnexpectedExpressionInsideNot(expr_view(*b))),
        },
        Expression::Or(_, v) => or_clause(names, v@),
        _ => Err(Fault::UnexpectedExpression(expr_view(e))),
    }
}

/// The literals of the disjuncts, concatenated in order; each disjunct must be a
/// reference, a negation or a disjunction. The first failure wins.
pub open spec fn or_clause(names: Seq<NameView>, es: Seq<Expression>) -> Result<Seq<i32>, Fault>
    decreases es,
{
    if es.len() == 0 {
        Ok(seq![])
    } else {
        match or_clause(names, es.subrange(0, es.len() - 1)) {
            Err(f) => Err(f),
            Ok(a) => match es[es.len() - 1] {
                Expression::Reference(_, _) | Expression::Not(_, _) | Expression::Or(_, _) => match flat_clause(
                    names,
                    es[es.len() - 1],
                ) {
                    Err(f) => Err(f),
                    Ok(b) => Ok(a + b),
                },
                _ => Err(Fault::UnexpectedExpressionInsideOr(expr_view(es[es.len() - 1]))),
            },
        }
    }
}

/// One clause per conjunct, in order; a conjunct may not itself be a conjunction.
pub open spec fn and_clauses(names: Seq<NameView>, es: Seq<Expression>) -> Result<
    Seq<Seq<i32>>,
    Fault,
>
    decreases es.len(),
{
    if es.len() == 0 {
        Ok(seq![])
    } else {
        match and_clauses(names, es.subrange(0, es.len() - 1)) {
            Err(f) => Err(f),
            Ok(a) => match es[es.len() - 1] {
                Expression::And(_, _) => Err(Fault::NestedAnd(expr_view(es[es.len() - 1]))),
                e => match flat_clause(names, e) {
                    Err(f) => Err(f),
                    Ok(c) => Ok(a.push(c)),
                },
            },
        }
    }
}

/// The clauses that one constraint stands for.
pub open spec fn expression_clauses(names: Seq<NameView>, e: Expression) -> Result<
    Seq<Seq<i32>>,
    Fault,
> {
    match e {
        Expression::And(_, v) => and_clauses(names, v@),
        _ => match flat_clause(names, e) {
            Err(f) => Err(f),
            Ok(c) => Ok(seq![c]),
        },
    }
}

/// The clauses of a sequence of constraints, concatenated in order; the first failure wins.
pub open spec fn constraint_clauses(names: Seq<NameView>, es: Seq<Expression>) -> Result<
    Seq<Seq<i32>>,
    Fault,
>
    decreases es.len(),
{
    if es.len() == 0 {
        Ok(seq![])
    } else {
        match constraint_clauses(names, es.subrange(0, es.len() - 1)) {
            Err(f) => Err(f),
            Ok(a) => match expression_clauses(names, es[es.len() - 1]) {
                Err(f) => Err(f),
                Ok(b) => Ok(a + b),
            },
        }
    }
}

/// `r` is what encoding `m` gives: the first non-boolean variable is an error; otherwise
/// the model's variables in order and the clauses of its constraints, or the first
/// encoding error, where a reference to a missing variable makes the model invalid.
pub open spec fn encoding_of(m: Model, r: Result<CNFModel, SolverError>) -> bool {
    &&& !m.is_boolean() ==> (r matches Err(SolverError::ModelFeatureNotSupported(e)) && exists|
        k: int,
    | m.first_non_boolean(k) && e@ == Fault::BadVariableType(#[trigger] m.keys()[k]))
    &&& m.is_boolean() ==> match constraint_clauses(m.keys(), conjuncts(m.root())) {
        Ok(cs) => r matches Ok(cnf) && cnf.wf() && cnf.names() == m.keys() && cnf.clause_list()
            == cs,
        Err(f) => match f {
            Fault::VariableNameNotFound(n) => r matches Err(SolverError::ModelInvalid(v)) && v@
                == n,
            _ => r matches Err(SolverError::ModelFeatureNotSupported(e)) && e@ == f,
        },
    }
}

pub open spec fn clause_outcome(r: Result<Vec<i32>, CNFError>) -> Result<Seq<i32>, Fault> {
    match r {
        Ok(c) => Ok(c@),
        Err(e) => Err(e@),
    }
}

pub open spec fn clauses_outcome(r: Result<Vec<Vec<i32>>, CNFError>) -> Result<
    Seq<Seq<i32>>,
    Fault,
> {
    match r {
        Ok(cs) => Ok(cs@.map_values(|c: Vec<i32>| c@)),
        Err(e) => Err(e@),
    }
}

/// The metadata of a freshly built node: not rewritten, no inferred type.
pub open spec fn fresh(m: Metadata) -> bool {
    !m.clean && m.etype is None
}

/// `e` is the expression that literal `l` decodes to.
pub open spec fn decodes_literal(names: Seq<NameView>, l: i32, e: Expression) -> bool {
    if l > 0 {
        match e {
            Expression::Reference(m, n) => fresh(m) && n@ == names[l - 1],
            _ => false,
        }
    } else {
        match e {
            Expression::Not(m, b) => fresh(m) && match *b {
                Expression::Reference(m2, n) => fresh(m2) && n@ == names[-l - 1],
                _ => false,
            },
            _ => false,
        }
    }
}

/// `e` is the disjunction that clause `c` decodes to.
pub open spec fn decodes_clause(names: Seq<NameView>, c: Seq<i32>, e: Expression) -> bool {
    match e {
        Expression::Or(m, v) => fresh(m) && v@.len() == c.len() && forall|j: int|
            0 <= j < c.len() ==> decodes_literal(names, c[j], #[trigger] v@[j]),
        _ => false,
    }
}

/// `e` is the conjunction that the clauses `cs` decode to.
pub open spec fn decodes_clauses(names: Seq<NameView>, cs: Seq<Seq<i32>>, e: Expression) -> bool {
    match e {
        Expression::And(m, v) => fresh(m) && v@.len() == cs.len() && forall|i: int|
            0 <= i < cs.len() ==> decodes_clause(names, cs[i], #[trigger] v@[i]),
        _ => false,
    }
}

proof fn lemma_or_prefix_fails(names: Seq<NameView>, es: Seq<Expression>, k: int)
    requires
        0 <= k <= es.len(),
        or_clause(names, es.subrange(0, k)) is Err,
    ensures
        or_clause(names, es) == or_clause(names, es.subrange(0, k)),
    decreases es.len() - k,
{
    if k < es.len() {
        let p = es.subrange(0, k + 1);
        assert(p.subrange(0, p.len() - 1) =~= es.subrange(0, k));
        lemma_or_prefix_fails(names, es, k + 1);
    } else {
        assert(es.subrange(0, k) =~= es);
    }
}

proof fn lemma_and_prefix_fails(names: Seq<NameView>, es: Seq<Expression>, k: int)
    requires
        0 <= k <= es.len(),
        and_clauses(names, es.subrange(0, k)) is Err,
    ensures
        and_clauses(names, es) == and_clauses(names, es.subrange(0, k)),
    decreases es.len() - k,
{
    if k < es.len() {
        let p = es.subrange(0, k + 1);
        assert(p.subrange(0, p.len() - 1) =~= es.subrange(0, k));
        lemma_and_prefix_fails(names, es, k + 1);
    } else {
        assert(es.subrange(0, k) =~= es);
    }
}

proof fn lemma_constraints_prefix_fails(names: Seq<NameView>, es: Seq<Expression>, k: int)
    requires
        0 <= k <= es.len(),
        constraint_clauses(names, es.subrange(0, k)) is Err,
    ensures
        constraint_clauses(names, es) == constraint_clauses(names, es.subrange(0, k)),
    decreases es.len() - k,
{
    if k < es.len() {
        let p = es.subrange(0, k + 1);
        assert(p.subrange(0, p.len() - 1) =~= es.subrange(0, k));
        lemma_constraints_prefix_fails(names, es, k + 1);
    } else {
        assert(es.subrange(0, k) =~= es);
    }
}

impl CNFModel {
    /// Encodes a model whose variables are all boolean and whose constraints are in
    /// conjunctive normal form. Variables are indexed from 1 in the model's order.
    pub fn from_conjure(conjure_model: Model) -> (r: Result<CNFModel, SolverError>)
        requires
            conjure_model.wf(),
            conjure_model.keys().len() < i32::MAX - 1,
        ensures
            encoding_of(conjure_model, r),
    {
        let ghost keys = conjure_model.keys();
        let ghost domains = conjure_model.domains();
        let ghost root = conjure_model.root();
        let mut cnf_model = CNFModel::new();
        let vars = conjure_model.variables();
        let mut i: usize = 0;
        assert(keys.subrange(0, 0) =~= Seq::<NameView>::empty());
        while i < vars.len()
            invariant
                keys == conjure_model.keys(),
                domains == conjure_model.domains(),
                keys.no_duplicates(),
                keys.len() < i32::MAX - 1,
                vars@.map_values(|p: (Name, DecisionVariable)| p.0@) == keys,
                vars@.map_values(|p: (Name, DecisionVariable)| p.1.domain) == domains,
                domains.len() == keys.len(),
                i <= vars@.len(),
                cnf_model.wf(),
                cnf_model.clause_list() == Seq::<Seq<i32>>::empty(),
                cnf_model.names() == keys.subrange(0, i as int),
                forall|j: int| 0 <= j < i ==> #[trigger] domains[j] is BoolDomain,
            decreases vars@.len() - i,
        {
            assert(keys[i as int] == vars@[i as int].0@);
            assert(domains[i as int] == vars@[i as int].1.domain);
            if !vars[i].1.domain.is_bool() {
                assert(conjure_model.first_non_boolean(i as int));
                return Err(
                    SolverError::ModelFeatureNotSupported(
                        CNFError::BadVariableType(vars[i].0.duplicate()),
                    ),
                );
            }
            assert(!keys.subrange(0, i as int).contains(keys[i as int])) by {
                assert forall|j: int| 0 <= j < i implies keys.subrange(0, i as int)[j] != keys[i as int] by {
                    assert(keys.subrange(0, i as int)[j] == keys[j]);
                }
            }
            cnf_model.add_variable(&vars[i].0);
            assert(keys.subrange(0, i as int + 1) =~= keys.subrange(0, i as int).push(keys[i as int]));
            i += 1;
        }
        assert(keys.subrange(0, keys.len() as int) =~= keys);
        assert(conjure_model.is_boolean());
        let constraints = conjure_model.get_constraints_vec();
        let ghost es = constraints@;
        let mut k: usize = 0;
        assert(es.subrange(0, 0) =~= Seq::<Expression>::empty());
        while k < constraints.len()
            invariant
                es == constraints@,
                es == conjuncts(root),
                root == conjure_model.root(),
                keys == conjure_model.keys(),
                conjure_model.is_boolean(),
                k <= es.len(),
                cnf_model.wf(),
                cnf_model.names() == keys,
                constraint_clauses(keys, es.subrange(0, k as int)) == Ok::<Seq<Seq<i32>>, Fault>(
                    cnf_model.clause_list(),
                ),
            decreases es.len() - k,
        {
            let ghost prefix = es.subrange(0, k as int + 1);
            assert(prefix.subrange(0, prefix.len() - 1) =~= es.subrange(0, k as int));
            assert(prefix[prefix.len() - 1] == es[k as int]);
            match cnf_model.add_expression(&constraints[k]) {
                Ok(_) => {},
                Err(error) => {
                    proof {
                        lemma_constraints_prefix_fails(keys, es, k as int + 1);
                    }
                    return match error {
                        CNFError::VariableNameNotFound(name) => Err(SolverError::ModelInvalid(name)),
                        other => Err(SolverError::ModelFeatureNotSupported(other)),
                    };
                },
            }
            k += 1;
        }
        assert(es.subrange(0, es.len() as int) =~= es);
        Ok(cnf_model)
    }

    fn get_reference_index(&self, name: &Name) -> (r: Result<i32, CNFError>)
        requires
            self.wf(),
        ensures
            match index_in(self.names(), name@) {
                Some(i) => r == Ok::<i32, CNFError>(i as i32),
                None => r matches Err(e) && e@ == Fault::VariableNameNotFound(name@),
            },
            r matches Ok(i) ==> 1 <= i <= self.names().len(),
    {
        match self.get_index(name) {
            None => Err(CNFError::VariableNameNotFound(name.duplicate())),
            Some(ind) => Ok(ind),
        }
    }

    fn handle_reference(&self, name: &Name) -> (r: Result<Vec<i32>, CNFError>)
        requires
            self.wf(),
        ensures
            clause_outcome(r) == literal_clause(self.names(), name@, false),
            r matches Ok(c) ==> valid_clause(self.names().len() as int, c@),
    {
        let i = match self.get_reference_index(name) {
            Ok(i) => i,
            Err(e) => return Err(e),
        };
        let mut v: Vec<i32> = Vec::new();
        v.push(i);
        assert(v@ =~= seq![i]);
        Ok(v)
    }

    fn handle_not(&self, expr: &Expression) -> (r: Result<Vec<i32>, CNFError>)
        requires
            self.wf(),
        ensures
            clause_outcome(r) == match *expr {
                Expression::Reference(_, n) => literal_clause(self.names(), n@, true),
                _ => Err(Fault::UnexpectedExpressionInsideNot(expr_view(*expr))),
            },
            r matches Ok(c) ==> valid_clause(self.names().len() as int, c@),
    {
        match expr {
            Expression::Reference(_, name) => {
                let i = match self.get_reference_index(name) {
                    Ok(i) => i,
                    Err(e) => return Err(e),
                };
                let mut v: Vec<i32> = Vec::new();
                v.push(-i);
                assert(v@ =~= seq![(-i) as i32]);
                Ok(v)
            },
            _ => Err(CNFError::UnexpectedExpressionInsideNot(expr.duplicate())),
        }
    }

    fn handle_or(&self, expressions: &Vec<Expression>) -> (r: Result<Vec<i32>, CNFError>)
        requires
            self.wf(),
        ensures
            clause_outcome(r) == or_clause(self.names(), expressions@),
            r matches Ok(c) ==> valid_clause(self.names().len() as int, c@),
        decreases expressions,
    {
        let ghost names = self.names();
        let ghost len = names.len() as int;
        let mut ans: Vec<i32> = Vec::new();
        let mut i: usize = 0;
        assert(expressions@.subrange(0, 0) =~= Seq::<Expression>::empty());
        assert(ans@ =~= seq![]);
        while i < expressions.len()
            invariant
                self.wf(),
                names == self.names(),
                len == names.len(),
                i <= expressions@.len(),
                or_clause(names, expressions@.subrange(0, i as int)) == Ok::<
                    Seq<i32>,
                    Fault,
                >(ans@),
                valid_clause(len, ans@),
            decreases expressions@.len() - i,
        {
            let ghost prefix = expressions@.subrange(0, i as int + 1);
            assert(prefix.subrange(0, prefix.len() - 1) =~= expressions@.subrange(0, i as int));
            assert(prefix[prefix.len() - 1] == expressions@[i as int]);
            let child = &expressions[i];
            match child {
                Expression::Reference(_, _) | Expression::Not(_, _) | Expression::Or(_, _) => {},
                _ => {
                    proof {
                        lemma_or_prefix_fails(names, expressions@, i as int + 1);
                    }
                    return Err(CNFError::UnexpectedExpressionInsideOr(child.duplicate()));
                },
            }
            let ret = match self.handle_flat_expression(child) {
                Ok(ret) => ret,
                Err(e) => {
                    proof {
                        lemma_or_prefix_fails(names, expressions@, i as int + 1);
                    }
                    return Err(e);
                },
            };
            let ghost before = ans@;
            let mut k: usize = 0;
            while k < ret.len()
                invariant
                    k <= ret@.len(),
                    ans@ == before + ret@.subrange(0, k as int),
                    valid_clause(len, before),
                    valid_clause(len, ret@),
                    valid_clause(len, ans@),
                decreases ret@.len() - k,
            {
                ans.push(ret[k]);
                assert(ret@.subrange(0, k as int + 1) =~= ret@.subrange(0, k as int).push(
                    ret@[k as int],
                ));
                k += 1;
            }
            assert(ret@.subrange(0, ret@.len() as int) =~= ret@);
            i += 1;
        }
        assert(expressions@.subrange(0, expressions@.len() as int) =~= expressions@);
        Ok(ans)
    }

    fn handle_flat_expression(&self, expression: &Expression) -> (r: Result<Vec<i32>, CNFError>)
        requires
            self.wf(),
        ensures
            clause_outcome(r) == flat_clause(self.names(), *expression),
            r matches Ok(c) ==> valid_clause(self.names().len() as int, c@),
        decreases expression,
    {
        match expression {
            Expression::Reference(_, name) => self.handle_reference(name),
            Expression::Not(_, var_box) => self.handle_not(var_box),
            Expression::Or(_, expressions) => self.handle_or(expressions),
            _ => Err(CNFError::UnexpectedExpression(expression.duplicate())),
        }
    }

    fn handle_and(&self, expressions: &Vec<Expression>) -> (r: Result<Vec<Vec<i32>>, CNFError>)
        requires
            self.wf(),
        ensures
            clauses_outcome(r) == and_clauses(self.names(), expressions@),
            r matches Ok(cs) ==> valid_clauses(
                self.names().len() as int,
                cs@.map_values(|c: Vec<i32>| c@),
            ),
    {
        let ghost names = self.names();
        let ghost len = names.len() as int;
        let mut ans: Vec<Vec<i32>> = Vec::new();
        let mut i: usize = 0;
        assert(expressions@.subrange(0, 0) =~= Seq::<Expression>::empty());
        assert(ans@.map_values(|c: Vec<i32>| c@) =~= seq![]);
        while i < expressions.len()
            invariant
                self.wf(),
                names == self.names(),
                len == names.len(),
                i <= expressions@.len(),
                and_clauses(names, expressions@.subrange(0, i as int)) == Ok::<
                    Seq<Seq<i32>>,
                    Fault,
                >(ans@.map_values(|c: Vec<i32>| c@)),
                valid_clauses(len, ans@.map_values(|c: Vec<i32>| c@)),
            decreases expressions@.len() - i,
        {
            let ghost prefix = expressions@.subrange(0, i as int + 1);
            assert(prefix.subrange(0, prefix.len() - 1) =~= expressions@.subrange(0, i as int));
            assert(prefix[prefix.len() - 1] == expressions@[i as int]);
            let expression = &expressions[i];
            match expression {
                Expression::And(_, _) => {
                    proof {
                        lemma_and_prefix_fails(names, expressions@, i as int + 1);
                    }
                    return Err(CNFError::NestedAnd(expression.duplicate()));
                },
                _ => {
                    match self.handle_flat_expression(expression) {
                        Ok(c) => {
                            let ghost before = ans@.map_values(|c: Vec<i32>| c@);
                            ans.push(c);
                            assert(ans@.map_values(|c: Vec<i32>| c@) =~= before.push(c@));
                        },
                        Err(e) => {
                            proof {
                                lemma_and_prefix_fails(names, expressions@, i as int + 1);
                            }
                            return Err(e);
                        },
                    }
                },
            }
            i += 1;
        }
        assert(expressions@.subrange(0, expressions@.len() as int) =~= expressions@);
        Ok(ans)
    }

    fn handle_expression(&self, expression: &Expression) -> (r: Result<Vec<Vec<i32>>, CNFError>)
        requires
            self.wf(),
        ensures
            clauses_outcome(r) == expression_clauses(self.names(), *expression),
            r matches Ok(cs) ==> valid_clauses(
                self.names().len() as int,
                cs@.map_values(|c: Vec<i32>| c@),
            ),
    {
        match expression {
            Expression::And(_, expressions) => self.handle_and(expressions),
            _ => match self.handle_flat_expression(expression) {
                Ok(c) => {
                    let mut v: Vec<Vec<i32>> = Vec::new();
                    v.push(c);
                    assert(v@.map_values(|c: Vec<i32>| c@) =~= seq![c@]);
                    Ok(v)
                },
                Err(e) => Err(e),
            },
        }
    }
    /// Adds the clauses of one constraint in conjunctive normal form; on failure nothing
    /// is added.
    pub fn add_expression(&mut self, expr: &Expression) -> (r: Result<(), CNFError>)
        requires
            old(self).wf(),
        ensures
            final(self).wf(),
            final(self).names() == old(self).names(),
            match expression_clauses(old(self).names(), *expr) {
                Ok(cs) => r is Ok && final(self).clause_list() == old(self).clause_list() + cs,
                Err(f) => r matches Err(e) && e@ == f && final(self).clause_list() == old(
                    self,
                ).clause_list(),
            },
    {
        let rows = match self.handle_expression(expr) {
            Ok(rows) => rows,
            Err(e) => return Err(e),
        };
        let ghost names = self.names();
        let ghost start = self.clause_list();
        let ghost cs = rows@.map_values(|c: Vec<i32>| c@);
        let mut i: usize = 0;
        assert(start + cs.subrange(0, 0) =~= start);
        while i < rows.len()
            invariant
                self.wf(),
                self.names() == names,
                cs == rows@.map_values(|c: Vec<i32>| c@),
                valid_clauses(names.len() as int, cs),
                i <= rows@.len(),
                self.clause_list() == start + cs.subrange(0, i as int),
            decreases rows@.len() - i,
        {
            assert(cs[i as int] == rows@[i as int]@);
            let res = self.add_clause(&rows[i]);
            assert(res is Ok);
            assert(start + cs.subrange(0, i as int + 1) =~= (start + cs.subrange(0, i as int)).push(
                cs[i as int],
            ));
            i += 1;
        }
        assert(cs.subrange(0, cs.len() as int) =~= cs);
        Ok(())
    }

    /// The disjunction that a clause stands for; fails at the first literal that names
    /// no registered variable.
    pub fn clause_to_expression(&self, clause: &Vec<i32>) -> (r: Result<Expression, CNFError>)
        requires
            self.wf(),
        ensures
            r is Ok <==> valid_clause(self.names().len() as int, clause@),
            r matches Ok(e) ==> decodes_clause(self.names(), clause@, e),
            r matches Err(e) ==> e matches CNFError::ClauseIndexNotFound(l) && first_unregistered(
                self.names().len() as int,
                clause@,
                l,
            ),
    {
        let ghost names = self.names();
        let ghost len = names.len() as int;
        let mut ans: Vec<Expression> = Vec::new();
        let mut i: usize = 0;
        while i < clause.len()
            invariant
                self.wf(),
                names == self.names(),
                len == names.len(),
                i <= clause@.len(),
                ans@.len() == i,
                forall|j: int| 0 <= j < i ==> valid_lit(len, #[trigger] clause@[j]),
                forall|j: int| 0 <= j < i ==> decodes_literal(names, clause@[j], #[trigger] ans@[j]),
            decreases clause@.len() - i,
        {
            let idx = clause[i];
            let magnitude: i32 = if idx == i32::MIN {
                0
            } else if idx < 0 {
                -idx
            } else {
                idx
            };
            match self.get_name(magnitude) {
                None => {
                    assert(clause@[i as int] == idx && !valid_lit(len, clause@[i as int]));
                    return Err(CNFError::ClauseIndexNotFound(idx));
                },
                Some(name) => {
                    if idx > 0 {
                        ans.push(Expression::Reference(Metadata::new(), name.duplicate()));
                    } else {
                        let reference = Expression::Reference(Metadata::new(), name.duplicate());
                        ans.push(Expression::Not(Metadata::new(), Box::new(reference)));
                    }
                },
            }
            i += 1;
        }
        Ok(Expression::Or(Metadata::new(), ans))
    }

    /// The conjunction of the disjunctions that the clauses stand for.
    pub fn as_expression(&self) -> (r: Result<Expression, CNFError>)
        requires
            self.wf(),
        ensures
            r matches Ok(e) && decodes_clauses(self.names(), self.clause_list(), e),
    {
        let clauses = self.get_clauses();
        let ghost cs = self.clause_list();
        let mut expr_clauses: Vec<Expression> = Vec::new();
        let mut i: usize = 0;
        while i < clauses.len()
            invariant
                self.wf(),
                cs == self.clause_list(),
                clauses@.map_values(|c: Vec<i32>| c@) == cs,
                i <= clauses@.len(),
                expr_clauses@.len() == i,
                forall|j: int|
                    0 <= j < i ==> decodes_clause(self.names(), cs[j], #[trigger] expr_clauses@[j]),
            decreases clauses@.len() - i,
        {
            assert(cs[i as int] == clauses@[i as int]@);
            match self.clause_to_expression(&clauses[i]) {
                Ok(e) => expr_clauses.push(e),
                Err(e) => return Err(e),
            }
            i += 1;
        }
        Ok(Expression::And(Metadata::new(), expr_clauses))
    }
    /// The named form of a solution given as signed literals: each literal's variable with
    /// the value `true` when the literal is positive. Fails at the first literal that
    /// names no registered variable.
    pub fn decode_assignment(&self, values: &Vec<i32>) -> (r: Result<Vec<(Name, bool)>, CNFError>)
        requires
            self.wf(),
        ensures
            r is Ok <==> valid_clause(self.names().len() as int, values@),
            r matches Ok(v) ==> v@.len() == values@.len() && forall|k: int|
                0 <= k < v@.len() ==> (#[trigger] v@[k]).0@ == self.names()[(if values@[k] > 0 {
                    values@[k] as int
                } else {
                    -values@[k]
                }) - 1] && v@[k].1 == (values@[k] > 0),
            r matches Err(e) ==> e matches CNFError::ClauseIndexNotFound(l) && first_unregistered(
                self.names().len() as int,
                values@,
                l,
            ),
    {
        let ghost len = self.names().len() as int;
        let mut ans: Vec<(Name, bool)> = Vec::new();
        let mut i: usize = 0;
        while i < values.len()
            invariant
                self.wf(),
                len == self.names().len(),
                i <= values@.len(),
                ans@.len() == i,
                forall|j: int| 0 <= j < i ==> valid_lit(len, #[trigger] values@[j]),
                forall|k: int|
                    0 <= k < i ==> (#[trigger] ans@[k]).0@ == self.names()[(if values@[k] > 0 {
                        values@[k] as int
                    } else {
                        -values@[k]
                    }) - 1] && ans@[k].1 == (values@[k] > 0),
            decreases values@.len() - i,
        {
            let lit = values[i];
            let magnitude: i32 = if lit == i32::MIN {
                0
            } else if lit < 0 {
                -lit
            } else {
                lit
            };
            match self.get_name(magnitude) {
                None => {
                    assert(values@[i as int] == lit && !valid_lit(len, values@[i as int]));
                    return Err(CNFError::ClauseIndexNotFound(lit));
                },
                Some(name) => {
                    ans.push((name.duplicate(), lit > 0));
                },
            }
            i += 1;
        }
        Ok(ans)
    }
}

} // verus!
