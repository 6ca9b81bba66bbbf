//! The expression tree, names, domains and decision variables.
use vstd::prelude::*;

verus! {

/// What a `Name` stands for, with the text of a user name as a sequence of characters.
pub enum NameView {
    User(Seq<char>),
    Machine(i32),
}

/// Identifier of a decision variable: given by the user, or generated by the tool chain.
#[derive(Debug, Clone, PartialEq, Eq, Hash)]
pub enum Name {
    UserName(String),
    MachineName(i32),
}

impl View for Name {
    type V = NameView;

    open spec fn view(&self) -> NameView {
        match self {
            Name::UserName(s) => NameView::User(s@),
            Name::MachineName(i) => NameView::Machine(*i),
        }
    }
}

impl Name {
    /// Structural comparison of two names.
    pub fn same_as(&self, other: &Name) -> (r: bool)
        ensures
            r == (self@ == other@),
    {
        match (self, other) {
            (Name::UserName(a), Name::UserName(b)) => a.eq(b),
            (Name::MachineName(a), Name::MachineName(b)) => *a == *b,
            _ => false,
        }
    }

    /// A copy of this name.
    pub fn duplicate(&self) -> (r: Name)
        ensures
            r@ == self@,
    {
        match self {
            Name::UserName(s) => Name::UserName(s.clone()),
            Name::MachineName(i) => Name::MachineName(*i),
        }
    }
}

/// The type a node is inferred to return.
#[derive(Debug, Clone, Copy, PartialEq, Eq)]
pub enum ReturnType {
    Int,
    Bool,
}

/// Per-node annotation: whether the node has been rewritten, and its inferred type.
#[derive(Debug, Clone, Copy, PartialEq, Eq)]
pub struct Metadata {
    pub clean: bool,
    pub etype: Option<ReturnType>,
}

impl Metadata {
    pub fn new() -> (r: Metadata)
        ensures
            !r.clean,
            r.etype is None,
    {
        Metadata { clean: false, etype: None }
    }
}

/// A constant value of the modelling language.
#[derive(Debug, Clone, Copy, PartialEq, Eq)]
pub enum Constant {
    Int(i32),
    Bool(bool),
}

/// A node of the constraint tree; each node owns its children.
#[derive(Debug, PartialEq, Eq)]
pub enum Expression {
    Reference(Metadata, Name),
    Not(Metadata, Box<Expression>),
    And(Metadata, Vec<Expression>),
    Or(Metadata, Vec<Expression>),
    Constant(Metadata, Constant),
    Sum(Metadata, Vec<Expression>),
}

/// An expression tree as a mathematical value: names seen through their views, and
/// children as sequences.
pub enum ExprView {
    Reference(Metadata, NameView),
    Not(Metadata, Box<ExprView>),
    And(Metadata, Seq<ExprView>),
    Or(Metadata, Seq<ExprView>),
    Constant(Metadata, Constant),
    Sum(Metadata, Seq<ExprView>),
}

/// The view of a tree.
pub open spec fn expr_view(e: Expression) -> ExprView
    decreases e,
{
    match e {
        Expression::Reference(m, n) => ExprView::Reference(m, n@),
        Expression::Not(m, b) => ExprView::Not(m, Box::new(expr_view(*b))),
        Expression::And(m, v) => ExprView::And(m, expr_views(v@)),
        Expression::Or(m, v) => ExprView::Or(m, expr_views(v@)),
        Expression::Constant(m, c) => ExprView::Constant(m, c),
        Expression::Sum(m, v) => ExprView::Sum(m, expr_views(v@)),
    }
}

/// The views of a sequence of trees, in order.
pub open spec fn expr_views(es: Seq<Expression>) -> Seq<ExprView>
    decreases es,
{
    if es.len() == 0 {
        seq![]
    } else {
        expr_views(es.subrange(0, es.len() - 1)).push(expr_view(es[es.len() - 1]))
    }
}

impl Expression {
    /// A copy of the whole tree.
    pub fn duplicate(&self) -> (r: Expression)
        ensures
            expr_view(r) == expr_view(*self),
        decreases self,
    {
        match self {
            Expression::Reference(m, n) => Expression::Reference(*m, n.duplicate()),
            Expression::Not(m, b) => Expression::Not(*m, Box::new(b.duplicate())),
            Expression::And(m, v) => Expression::And(*m, duplicate_all(v)),
            Expression::Or(m, v) => Expression::Or(*m, duplicate_all(v)),
            Expression::Constant(m, c) => Expression::Constant(*m, *c),
            Expression::Sum(m, v) => Expression::Sum(*m, duplicate_all(v)),
        }
    }
}

fn duplicate_all(v: &Vec<Expression>) -> (r: Vec<Expression>)
    ensures
        expr_views(r@) == expr_views(v@),
    decreases v,
{
    let mut r: Vec<Expression> = Vec::new();
    let mut i: usize = 0;
    assert(v@.subrange(0, 0) =~= r@);
    while i < v.len()
        invariant
            i <= v@.len(),
            expr_views(r@) == expr_views(v@.subrange(0, i as int)),
        decreases v@.len() - i,
    {
        let x = v[i].duplicate();
        let ghost before = r@;
        r.push(x);
        assert(r@.subrange(0, r@.len() - 1) =~= before);
        let ghost p = v@.subrange(0, i as int + 1);
        assert(p.subrange(0, p.len() - 1) =~= v@.subrange(0, i as int));
        assert(p[p.len() - 1] == v@[i as int]);
        i += 1;
    }
    assert(v@.subrange(0, v@.len() as int) =~= v@);
    r
}

impl Clone for Expression {
    fn clone(&self) -> Self {
        self.duplicate()
    }
}

/// An inclusive range of integers.
#[derive(Debug, Clone, Copy, PartialEq, Eq)]
pub enum Range {
    Bounded(i32, i32),
}

/// The value space of a decision variable.
#[derive(Debug, Clone, PartialEq, Eq)]
pub enum Domain {
    BoolDomain,
    IntDomain(Vec<Range>),
}

impl Domain {
    pub fn is_bool(&self) -> (r: bool)
        ensures
            r == (*self is BoolDomain),
    {
        match self {
            Domain::BoolDomain => true,
            _ => false,
        }
    }
}

/// A domain attached to a variable slot of a model.
#[derive(Debug, Clone, PartialEq, Eq)]
pub struct DecisionVariable {
    pub domain: Domain,
}

/// Truth value of a tree under an assignment of the boolean variables; shapes outside
/// the propositional subset count as false.
pub open spec fn eval(e: Expression, a: spec_fn(NameView) -> bool) -> bool
    decreases e,
{
    match e {
        Expression::Reference(_, n) => a(n@),
        Expression::Not(_, b) => !eval(*b, a),
        Expression::And(_, v) => eval_all(v@, a),
        Expression::Or(_, v) => eval_any(v@, a),
        Expression::Constant(_, c) => c == Constant::Bool(true),
        _ => false,
    }
}

/// Every expression of `es` holds.
pub open spec fn eval_all(es: Seq<Expression>, a: spec_fn(NameView) -> bool) -> bool
    decreases es,
{
    if es.len() == 0 {
        true
    } else {
        eval_all(es.subrange(0, es.len() - 1), a) && eval(es[es.len() - 1], a)
    }
}

/// Some expression of `es` holds.
pub open spec fn eval_any(es: Seq<Expression>, a: spec_fn(NameView) -> bool) -> bool
    decreases es,
{
    if es.len() == 0 {
        false
    } else {
        eval_any(es.subrange(0, es.len() - 1), a) || eval(es[es.len() - 1], a)
    }
}

/// A concatenation holds throughout exactly when both parts do.
pub proof fn lemma_eval_all_concat(x: Seq<Expression>, y: Seq<Expression>, a: spec_fn(NameView) -> bool)
    ensures
        eval_all(x + y, a) == (eval_all(x, a) && eval_all(y, a)),
    decreases y.len(),
{
    if y.len() == 0 {
        assert(x + y =~= x);
    } else {
        let xy = x + y;
        let y0 = y.subrange(0, y.len() - 1);
        assert(xy.subrange(0, xy.len() - 1) =~= x + y0);
        assert(xy[xy.len() - 1] == y[y.len() - 1]);
        lemma_eval_all_concat(x, y0, a);
    }
}

} // verus!
