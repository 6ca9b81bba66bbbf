//! A model: decision variables keyed by name, and one root constraint.
use vstd::prelude::*;

use crate::ast::{DecisionVariable, Domain, Expression, Name, NameView};
use crate::error::ModelError;

verus! {

/// The top-level constraints of a root expression: the children of a conjunction, or
/// the expression itself.
pub open spec fn conjuncts(e: Expression) -> Seq<Expression> {
    match e {
        Expression::And(_, v) => v@,
        _ => seq![e],
    }
}

/// Decision variables, each under a distinct name, and the root constraint.
#[derive(Debug, Clone)]
pub struct Model {
    variables: Vec<(Name, DecisionVariable)>,
    constraints: Expression,
}

impl Model {
    /// The variables' names, in order.
    pub closed spec fn keys(&self) -> Seq<NameView> {
        self.variables@.map_values(|p: (Name, DecisionVariable)| p.0@)
    }

    /// The variables' domains, in the order of `keys`.
    pub closed spec fn domains(&self) -> Seq<Domain> {
        self.variables@.map_values(|p: (Name, DecisionVariable)| p.1.domain)
    }

    pub closed spec fn root(&self) -> Expression {
        self.constraints
    }

    pub open spec fn wf(&self) -> bool {
        &&& self.keys().no_duplicates()
        &&& self.domains().len() == self.keys().len()
    }

    /// The domain of the variable named `n`, if there is one.
    pub open spec fn domain_of(&self, n: NameView) -> Option<Domain> {
        if self.keys().contains(n) {
            Some(self.domains()[self.keys().index_of(n)])
        } else {
            None
        }
    }

    /// The domain of each variable, by name.
    pub open spec fn domain_map(&self) -> Map<NameView, Domain> {
        Map::new(|n: NameView| self.keys().contains(n), |n: NameView| self.domain_of(n)->Some_0)
    }

    /// Every variable has the boolean domain.
    pub open spec fn is_boolean(&self) -> bool {
        forall|j: int| 0 <= j < self.domains().len() ==> #[trigger] self.domains()[j] is BoolDomain
    }

    /// Variable `k` is the first whose domain is not boolean.
    pub open spec fn first_non_boolean(&self, k: int) -> bool {
        &&& 0 <= k < self.domains().len()
        &&& !(self.domains()[k] is BoolDomain)
        &&& forall|j: int| 0 <= j < k ==> #[trigger] self.domains()[j] is BoolDomain
    }

    /// A model of the given variables, whose names must be distinct, and root constraint.
    pub fn new(variables: Vec<(Name, DecisionVariable)>, constraints: Expression) -> (r: Model)
        requires
            variables@.map_values(|p: (Name, DecisionVariable)| p.0@).no_duplicates(),
        ensures
            r.wf(),
            r.keys() == variables@.map_values(|p: (Name, DecisionVariable)| p.0@),
            r.domains() == variables@.map_values(|p: (Name, DecisionVariable)| p.1.domain),
            r.root() == constraints,
    {
        let r = Model { variables, constraints };
        assert(r.domains().len() == r.keys().len());
        r
    }

    /// The variables with their names, in order.
    pub fn variables(&self) -> (r: &Vec<(Name, DecisionVariable)>)
        ensures
            r@.map_values(|p: (Name, DecisionVariable)| p.0@) == self.keys(),
            r@.map_values(|p: (Name, DecisionVariable)| p.1.domain) == self.domains(),
    {
        &self.variables
    }

    /// The root constraint.
    pub fn constraints(&self) -> (r: &Expression)
        ensures
            *r == self.root(),
    {
        &self.constraints
    }

    fn position(&self, name: &Name) -> (r: Option<usize>)
        requires
            self.wf(),
        ensures
            r is Some <==> self.keys().contains(name@),
            r matches Some(i) ==> i == self.keys().index_of(name@) && i < self.keys().len(),
    {
        let mut i: usize = 0;
        while i < self.variables.len()
            invariant
                self.wf(),
                i <= self.variables@.len(),
                forall|j: int| 0 <= j < i ==> self.keys()[j] != name@,
            decreases self.variables@.len() - i,
        {
            if self.variables[i].0.same_as(name) {
                assert(self.keys()[i as int] == name@);
                assert(self.keys().contains(name@));
                let ghost k = self.keys().index_of(name@);
                assert(self.keys()[k] == name@);
                return Some(i);
            }
            i += 1;
        }
        assert(!self.keys().contains(name@));
        None
    }

    /// The domain of a variable.
    pub fn get_domain(&self, name: &Name) -> (r: Option<&Domain>)
        requires
            self.wf(),
        ensures
            r is Some <==> self.domain_of(name@) is Some,
            r matches Some(d) ==> self.domain_of(name@) == Some(*d),
    {
        match self.position(name) {
            Some(i) => Some(&self.variables[i].1.domain),
            None => None,
        }
    }

    /// Replaces the domain of an existing variable; every other variable keeps its domain.
    pub fn update_domain(&mut self, name: &Name, new_domain: Domain) -> (r: Result<(), ModelError>)
        requires
            old(self).wf(),
        ensures
            final(self).wf(),
            final(self).keys() == old(self).keys(),
            final(self).root() == old(self).root(),
            r is Ok <==> old(self).keys().contains(name@),
            r is Ok ==> final(self).domain_of(name@) == Some(new_domain),
            forall|n: NameView| n != name@ ==> #[trigger] final(self).domain_of(n) == old(
                self,
            ).domain_of(n),
            r matches Err(e) ==> e matches ModelError::VariableNotFound(m) && m@ == name@,
            r is Err ==> final(self).domains() == old(self).domains(),
            r is Ok ==> final(self).domain_map() == old(self).domain_map().insert(name@, new_domain),
            r is Err ==> final(self).domain_map() == old(self).domain_map(),
    {
        match self.position(name) {
            None => Err(ModelError::VariableNotFound(name.duplicate())),
            Some(i) => {
                let key = self.variables[i].0.duplicate();
                let ghost keys = self.keys();
                let ghost domains = self.domains();
                self.variables.set(i, (key, DecisionVariable { domain: new_domain }));
                assert(self.keys() =~= keys);
                assert(self.domains() =~= domains.update(i as int, new_domain));
                assert(self.domain_map() =~= old(self).domain_map().insert(name@, new_domain));
                Ok(())
            },
        }
    }

    /// The top-level constraints, in order: the children of a root conjunction, or the
    /// root alone.
    pub fn get_constraints_vec(self) -> (r: Vec<Expression>)
        ensures
            r@ == conjuncts(self.root()),
    {
        match self.constraints {
            Expression::And(_, v) => v,
            e => {
                let mut r: Vec<Expression> = Vec::new();
                r.push(e);
                assert(r@ =~= seq![e]);
                r
            },
        }
    }
}

} // verus!
