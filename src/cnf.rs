//! Clauses of signed literals over an append-only table of boolean variables.
use vstd::prelude::*;

use crate::ast::{Name, NameView};
use crate::error::{CNFError, Fault};

verus! {

/// The 1-based index of `n` in `names`, if it occurs there.
pub open spec fn index_in(names: Seq<NameView>, n: NameView) -> Option<int> {
    if names.contains(n) {
        Some(names.index_of(n) + 1)
    } else {
        None
    }
}

/// A literal whose magnitude names one of `len` registered variables.
pub open spec fn valid_lit(len: int, l: i32) -> bool {
    l != 0 && -len <= l <= len
}

pub open spec fn valid_clause(len: int, c: Seq<i32>) -> bool {
    forall|j: int| 0 <= j < c.len() ==> valid_lit(len, #[trigger] c[j])
}

pub open spec fn valid_clauses(len: int, cs: Seq<Seq<i32>>) -> bool {
    forall|i: int| 0 <= i < cs.len() ==> valid_clause(len, #[trigger] cs[i])
}

/// `l` is the first literal of `c` that names no registered variable.
pub open spec fn first_unregistered(len: int, c: Seq<i32>, l: i32) -> bool {
    exists|k: int|
        0 <= k < c.len() && c[k] == l && !valid_lit(len, c[k]) && forall|j: int|
            0 <= j < k ==> valid_lit(len, #[trigger] c[j])
}

/// A model in conjunctive normal form: clauses of signed literals, and the variables
/// that the literals' magnitudes stand for, indexed from 1 in the order of registration.
#[derive(Debug, Clone)]
pub struct CNFModel {
    clauses: Vec<Vec<i32>>,
    variables: Vec<Name>,
}

impl CNFModel {
    /// The registered variables; variable `i + 1` is the `i`-th.
    pub closed spec fn names(&self) -> Seq<NameView> {
        self.variables@.map_values(|n: Name| n@)
    }

    /// The clauses, in the order they were added.
    pub closed spec fn clause_list(&self) -> Seq<Seq<i32>> {
        self.clauses@.map_values(|c: Vec<i32>| c@)
    }

    /// Names are registered once, indices fit an `i32`, and every literal is registered.
    pub open spec fn wf(&self) -> bool {
        &&& self.names().no_duplicates()
        &&& self.names().len() < i32::MAX
        &&& valid_clauses(self.names().len() as int, self.clause_list())
    }

    /// The index of `n`, if registered.
    pub open spec fn index_of_name(&self, n: NameView) -> Option<int> {
        index_in(self.names(), n)
    }

    pub fn new() -> (r: CNFModel)
        ensures
            r.wf(),
            r.names() == Seq::<NameView>::empty(),
            r.clause_list() == Seq::<Seq<i32>>::empty(),
    {
        let r = CNFModel { clauses: Vec::new(), variables: Vec::new() };
        assert(r.names() =~= Seq::<NameView>::empty());
        assert(r.clause_list() =~= Seq::<Seq<i32>>::empty());
        r
    }

    /// The clauses, each a list of signed literals.
    pub fn get_clauses(&self) -> (r: &Vec<Vec<i32>>)
        ensures
            r@.map_values(|c: Vec<i32>| c@) == self.clause_list(),
    {
        &self.clauses
    }

    /// The registered variables, in the order of their indices.
    pub fn get_variables(&self) -> (r: Vec<&Name>)
        ensures
            r@.len() == self.names().len(),
            forall|i: int| 0 <= i < r@.len() ==> (#[trigger] r@[i])@ == self.names()[i],
    {
        let mut ans: Vec<&Name> = Vec::new();
        let mut i: usize = 0;
        while i < self.variables.len()
            invariant
                i <= self.variables@.len(),
                ans@.len() == i,
                forall|j: int| 0 <= j < i ==> (#[trigger] ans@[j])@ == self.names()[j],
            decreases self.variables@.len() - i,
        {
            ans.push(&self.variables[i]);
            i += 1;
        }
        ans
    }

    /// The index of a variable.
    pub fn get_index(&self, var: &Name) -> (r: Option<i32>)
        requires
            self.wf(),
        ensures
            r is Some <==> self.index_of_name(var@) is Some,
            r matches Some(i) ==> self.index_of_name(var@) == Some(i as int),
    {
        let mut i: usize = 0;
        while i < self.variables.len()
            invariant
                self.wf(),
                i <= self.variables@.len(),
                forall|j: int| 0 <= j < i ==> self.names()[j] != var@,
            decreases self.variables@.len() - i,
        {
            if self.variables[i].same_as(var) {
                assert(self.names()[i as int] == var@);
                assert(self.names().contains(var@));
                let ghost k = self.names().index_of(var@);
                assert(self.names()[k] == var@);
                assert(k == i);
                return Some((i + 1) as i32);
            }
            i += 1;
        }
        assert(!self.names().contains(var@));
        None
    }

    /// The variable with a given index.
    pub fn get_name(&self, ind: i32) -> (r: Option<&Name>)
        requires
            self.wf(),
        ensures
            r is Some <==> 1 <= ind <= self.names().len(),
            r matches Some(n) ==> n@ == self.names()[ind - 1],
    {
        if 1 <= ind && (ind as usize) <= self.variables.len() {
            Some(&self.variables[(ind - 1) as usize])
        } else {
            None
        }
    }

    /// Registers a variable under the next free index; a registered one keeps its index.
    pub fn add_variable(&mut self, var: &Name)
        requires
            old(self).wf(),
            old(self).names().len() < i32::MAX - 1,
        ensures
            final(self).wf(),
            final(self).clause_list() == old(self).clause_list(),
            old(self).names().contains(var@) ==> final(self).names() == old(self).names(),
            !old(self).names().contains(var@) ==> final(self).names() == old(self).names().push(
                var@,
            ),
    {
        if self.get_index(var).is_none() {
            let ghost before = self.names();
            self.variables.push(var.duplicate());
            assert(self.names() =~= before.push(var@));
            assert(self.clause_list() =~= old(self).clause_list());
            assert(self.names().no_duplicates()) by {
                assert forall|a: int, b: int|
                    0 <= a < b < self.names().len() implies self.names()[a] != self.names()[b] by {
                    if b == before.len() {
                        assert(before[a] == self.names()[a]);
                    }
                }
            }
        }
    }

    /// Whether a variable, or an index, is registered.
    pub fn has_variable<T: HasVariable>(&self, value: T) -> (r: bool)
        requires
            self.wf(),
        ensures
            r == value.registered_in(self),
    {
        value.has_variable(self)
    }

    fn literal_registered(&self, lit: i32) -> (r: bool)
        requires
            self.wf(),
        ensures
            r == valid_lit(self.names().len() as int, lit),
    {
        if lit == i32::MIN {
            false
        } else if lit < 0 {
            self.has_variable(-lit)
        } else {
            self.has_variable(lit)
        }
    }

    /// Appends a clause of signed literals; fails, changing nothing, at the first literal
    /// that names no registered variable.
    pub fn add_clause(&mut self, vec: &Vec<i32>) -> (r: Result<(), CNFError>)
        requires
            old(self).wf(),
        ensures
            final(self).wf(),
            final(self).names() == old(self).names(),
            r is Ok <==> valid_clause(old(self).names().len() as int, vec@),
            r is Ok ==> final(self).clause_list() == old(self).clause_list().push(vec@),
            r is Err ==> final(self).clause_list() == old(self).clause_list(),
            r matches Err(e) ==> e matches CNFError::ClauseIndexNotFound(l) && first_unregistered(
                old(self).names().len() as int,
                vec@,
                l,
            ),
    {
        let ghost len = self.names().len() as int;
        let mut i: usize = 0;
        while i < vec.len()
            invariant
                self.wf(),
                len == self.names().len(),
                i <= vec@.len(),
                forall|j: int| 0 <= j < i ==> valid_lit(len, #[trigger] vec@[j]),
            decreases vec@.len() - i,
        {
            if !self.literal_registered(vec[i]) {
                return Err(CNFError::ClauseIndexNotFound(vec[i]));
            }
            i += 1;
        }
        let mut copy: Vec<i32> = Vec::new();
        let mut k: usize = 0;
        while k < vec.len()
            invariant
                k <= vec@.len(),
                copy@ == vec@.subrange(0, k as int),
            decreases vec@.len() - k,
        {
            copy.push(vec[k]);
            k += 1;
        }
        assert(copy@ =~= vec@);
        let ghost before = self.clause_list();
        self.clauses.push(copy);
        assert(self.clause_list() =~= before.push(vec@));
        assert(self.names() =~= old(self).names());
        Ok(())
    }
}

/// A registered name is found at its own position.
pub proof fn lemma_index_of_registered(names: Seq<NameView>, k: int)
    requires
        names.no_duplicates(),
        0 <= k < names.len(),
    ensures
        index_in(names, names[k]) == Some(k + 1),
{
    assert(names.contains(names[k]));
    let c = names.index_of(names[k]);
    assert(names[c] == names[k]);
}

/// Every literal of a stored clause has a magnitude that names a registered variable, and
/// the index of that variable is the magnitude again.
pub proof fn lemma_literals_resolve(cnf: &CNFModel, i: int, j: int)
    requires
        cnf.wf(),
        0 <= i < cnf.clause_list().len(),
        0 <= j < cnf.clause_list()[i].len(),
    ensures
        ({
            let l = cnf.clause_list()[i][j] as int;
            let m = if l < 0 {
                -l
            } else {
                l
            };
            1 <= m <= cnf.names().len() && cnf.index_of_name(cnf.names()[m - 1]) == Some(m)
        }),
{
    let l = cnf.clause_list()[i][j] as int;
    let m = if l < 0 {
        -l
    } else {
        l
    };
    assert(valid_clause(cnf.names().len() as int, cnf.clause_list()[i]));
    assert(valid_lit(cnf.names().len() as int, cnf.clause_list()[i][j]));
    lemma_index_of_registered(cnf.names(), m - 1);
}

impl Default for CNFModel {
    fn default() -> (r: CNFModel)
        ensures
            r.wf(),
            r.names() == Seq::<NameView>::empty(),
            r.clause_list() == Seq::<Seq<i32>>::empty(),
    {
        CNFModel::new()
    }
}

/// Something that can be looked up among a model's variables: an index or a name.
pub trait HasVariable {
    spec fn registered_in(&self, cnf: &CNFModel) -> bool;

    fn has_variable(self, cnf: &CNFModel) -> (r: bool)
        requires
            cnf.wf(),
        ensures
            r == self.registered_in(cnf),
    ;
}

impl HasVariable for i32 {
    open spec fn registered_in(&self, cnf: &CNFModel) -> bool {
        1 <= *self <= cnf.names().len()
    }

    fn has_variable(self, cnf: &CNFModel) -> (r: bool) {
        cnf.get_name(self).is_some()
    }
}

impl<'a> HasVariable for &'a Name {
    open spec fn registered_in(&self, cnf: &CNFModel) -> bool {
        cnf.names().contains((*self)@)
    }

    fn has_variable(self, cnf: &CNFModel) -> (r: bool) {
        cnf.get_index(self).is_some()
    }
}

} // verus!
