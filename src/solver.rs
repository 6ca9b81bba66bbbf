//! The SAT solver adaptor: loading a model, handing its clauses to an engine, and
//! classifying what the engine reports.
use vstd::prelude::*;

use crate::cnf::CNFModel;
use crate::encode::encoding_of;
use crate::error::SolverError;
use crate::model::Model;

verus! {

/// A search that ran to its end.
#[derive(Debug, Clone, Copy, PartialEq, Eq)]
pub enum SearchComplete {
    HasSolutions,
    NoSolutions,
}

/// A search that stopped before its end.
#[derive(Debug, Clone, Copy, PartialEq, Eq)]
pub enum SearchIncomplete {
    TimeOut,
    UserTerminated,
}

#[derive(Debug, Clone, Copy, PartialEq, Eq)]
pub enum SearchStatus {
    Complete(SearchComplete),
    Incomplete(SearchIncomplete),
}

/// The class of engine behind an adaptor.
#[derive(Debug, Clone, Copy, PartialEq, Eq)]
pub enum SolverFamily {
    SAT,
    Minion,
}

/// The final status of a search.
#[derive(Debug, Clone, Copy, PartialEq, Eq)]
pub struct SolveSuccess {
    pub status: SearchStatus,
}

/// What a SAT engine answered.
#[derive(Debug, Clone, Copy, PartialEq, Eq)]
pub enum SatOutcome {
    Sat,
    Unsat,
    Interrupted,
}

/// Where an adaptor stands in its life cycle.
#[derive(Debug, Clone, Copy, PartialEq, Eq)]
pub enum AdaptorState {
    Unloaded,
    Loaded,
    Solving,
    Done,
}

/// The status that an engine's answer stands for. An interruption that the adaptor
/// cannot classify is an error, never a proof that there is no solution.
pub fn classify(outcome: SatOutcome) -> (r: Result<SolveSuccess, SolverError>)
    ensures
        outcome is Sat ==> r == Ok::<SolveSuccess, SolverError>(
            SolveSuccess { status: SearchStatus::Complete(SearchComplete::HasSolutions) },
        ),
        outcome is Unsat ==> r == Ok::<SolveSuccess, SolverError>(
            SolveSuccess { status: SearchStatus::Complete(SearchComplete::NoSolutions) },
        ),
        outcome is Interrupted ==> r == Err::<SolveSuccess, SolverError>(SolverError::Runtime),
{
    match outcome {
        SatOutcome::Sat => Ok(
            SolveSuccess { status: SearchStatus::Complete(SearchComplete::HasSolutions) },
        ),
        SatOutcome::Unsat => Ok(
            SolveSuccess { status: SearchStatus::Complete(SearchComplete::NoSolutions) },
        ),
        SatOutcome::Interrupted => Err(SolverError::Runtime),
    }
}

/// An adaptor for SAT engines. It owns the encoding of the loaded model; the engine
/// itself is driven by the caller between `begin_solve` and `finish_solve`.
pub struct SAT {
    state: AdaptorState,
    cnf: Option<CNFModel>,
}

impl SAT {
    pub closed spec fn state(&self) -> AdaptorState {
        self.state
    }

    /// The encoding of the loaded model, if one is loaded.
    pub closed spec fn loaded(&self) -> Option<CNFModel> {
        self.cnf
    }

    pub open spec fn wf(&self) -> bool {
        &&& (self.state() is Unloaded <==> self.loaded() is None)
        &&& self.loaded() matches Some(c) ==> c.wf()
    }

    /// An adaptor with no model loaded.
    pub fn unloaded() -> (r: SAT)
        ensures
            r.wf(),
            r.state() is Unloaded,
    {
        SAT { state: AdaptorState::Unloaded, cnf: None }
    }

    /// An adaptor with `model` loaded.
    pub fn new(model: Model) -> (r: Result<SAT, SolverError>)
        requires
            model.wf(),
            model.keys().len() < i32::MAX - 1,
        ensures
            encoding_of(
                model,
                match r {
                    Ok(s) => Ok(s.loaded()->Some_0),
                    Err(e) => Err(e),
                },
            ),
            r matches Ok(s) ==> s.wf() && s.state() is Loaded && s.loaded() is Some,
    {
        let mut s = SAT::unloaded();
        match s.load_model(model) {
            Ok(()) => Ok(s),
            Err(e) => Err(e),
        }
    }

    /// Encodes `model` and keeps the encoding, replacing any model loaded before. While a
    /// search runs this is a state conflict; on failure nothing changes.
    pub fn load_model(&mut self, model: Model) -> (r: Result<(), SolverError>)
        requires
            old(self).wf(),
            model.wf(),
            model.keys().len() < i32::MAX - 1,
        ensures
            final(self).wf(),
            old(self).state() is Solving ==> r == Err::<(), SolverError>(
                SolverError::StateConflict,
            ),
            !(old(self).state() is Solving) ==> encoding_of(
                model,
                match r {
                    Ok(()) => Ok(final(self).loaded()->Some_0),
                    Err(e) => Err(e),
                },
            ),
            r is Ok ==> final(self).state() is Loaded && final(self).loaded() is Some,
            r is Err ==> final(self).state() == old(self).state(),
            r is Err ==> final(self).loaded() == old(self).loaded(),
    {
        if let AdaptorState::Solving = self.state {
            return Err(SolverError::StateConflict);
        }
        match CNFModel::from_conjure(model) {
            Ok(cnf) => {
                self.cnf = Some(cnf);
                self.state = AdaptorState::Loaded;
                Ok(())
            },
            Err(e) => Err(e),
        }
    }

    /// Starts a search: hands out the loaded clauses for the engine. Without a loaded
    /// model, or while a search runs, this is a state conflict.
    pub fn begin_solve(&mut self) -> (r: Result<Vec<Vec<i32>>, SolverError>)
        requires
            old(self).wf(),
        ensures
            final(self).wf(),
            final(self).loaded() == old(self).loaded(),
            (old(self).state() is Loaded || old(self).state() is Done) ==> (r matches Ok(cs)
                && cs@.map_values(|c: Vec<i32>| c@) == old(self).loaded()->Some_0.clause_list()
                && final(self).state() is Solving),
            (old(self).state() is Unloaded || old(self).state() is Solving) ==> r == Err::<
                Vec<Vec<i32>>,
                SolverError,
            >(SolverError::StateConflict),
            (old(self).state() is Unloaded || old(self).state() is Solving) ==> final(self).state()
                == old(self).state(),
    {
        match self.state {
            AdaptorState::Unloaded | AdaptorState::Solving => Err(SolverError::StateConflict),
            _ => {
                let clauses = match &self.cnf {
                    Some(cnf) => copy_clauses(cnf.get_clauses()),
                    None => return Err(SolverError::StateConflict),
                };
                self.state = AdaptorState::Solving;
                Ok(clauses)
            },
        }
    }

    /// Ends a search with the engine's answer, classified as `classify` does. Outside a
    /// search this is a state conflict.
    pub fn finish_solve(&mut self, outcome: SatOutcome) -> (r: Result<SolveSuccess, SolverError>)
        requires
            old(self).wf(),
        ensures
            final(self).wf(),
            final(self).loaded() == old(self).loaded(),
            old(self).state() is Solving ==> final(self).state() is Done && (outcome is Sat ==> r
                == Ok::<SolveSuccess, SolverError>(
                SolveSuccess { status: SearchStatus::Complete(SearchComplete::HasSolutions) },
            )) && (outcome is Unsat ==> r == Ok::<SolveSuccess, SolverError>(
                SolveSuccess { status: SearchStatus::Complete(SearchComplete::NoSolutions) },
            )) && (outcome is Interrupted ==> r == Err::<SolveSuccess, SolverError>(
                SolverError::Runtime,
            )),
            !(old(self).state() is Solving) ==> r == Err::<SolveSuccess, SolverError>(
                SolverError::StateConflict,
            ) && final(self).state() == old(self).state(),
    {
        match self.state {
            AdaptorState::Solving => {
                self.state = AdaptorState::Done;
                classify(outcome)
            },
            _ => Err(SolverError::StateConflict),
        }
    }

    /// Searching while the model is changed is not offered by this adaptor.
    pub fn solve_mut(&mut self) -> (r: Result<SolveSuccess, SolverError>)
        ensures
            r == Err::<SolveSuccess, SolverError>(SolverError::OpNotSupported),
            *final(self) == *old(self),
    {
        Err(SolverError::OpNotSupported)
    }

    pub fn get_family(&self) -> (r: SolverFamily)
        ensures
            r == SolverFamily::SAT,
    {
        SolverFamily::SAT
    }

    /// Adds a clause to the loaded model, as `CNFModel::add_clause` does; an unregistered
    /// literal is reported as an unsupported feature of the model.
    pub fn add_clause_to_mod(&mut self, clause_vec: Vec<i32>) -> (r: Result<(), SolverError>)
        requires
            old(self).wf(),
        ensures
            final(self).wf(),
            final(self).state() == old(self).state(),
            old(self).loaded() is None ==> r == Err::<(), SolverError>(SolverError::StateConflict)
                && final(self).loaded() is None,
            old(self).loaded() matches Some(c) ==> final(self).loaded() matches Some(d) && d.names()
                == c.names() && (r is Ok ==> d.clause_list() == c.clause_list().push(clause_vec@))
                && (r is Err ==> d.clause_list() == c.clause_list()) && (r is Ok <==> crate::cnf::valid_clause(
                c.names().len() as int,
                clause_vec@,
            )),
            r matches Err(SolverError::ModelFeatureNotSupported(e)) ==> e is ClauseIndexNotFound,
    {
        match &mut self.cnf {
            Some(cnf) => match cnf.add_clause(&clause_vec) {
                Ok(()) => Ok(()),
                Err(e) => Err(SolverError::ModelFeatureNotSupported(e)),
            },
            None => Err(SolverError::StateConflict),
        }
    }
}

impl Default for SAT {
    fn default() -> (r: SAT)
        ensures
            r.wf(),
            r.state() is Unloaded,
    {
        SAT::unloaded()
    }
}

fn copy_clauses(clauses: &Vec<Vec<i32>>) -> (r: Vec<Vec<i32>>)
    ensures
        r@.map_values(|c: Vec<i32>| c@) == clauses@.map_values(|c: Vec<i32>| c@),
{
    let mut r: Vec<Vec<i32>> = Vec::new();
    let mut i: usize = 0;
    while i < clauses.len()
        invariant
            i <= clauses@.len(),
            r@.map_values(|c: Vec<i32>| c@) == clauses@.subrange(0, i as int).map_values(
                |c: Vec<i32>| c@,
            ),
        decreases clauses@.len() - i,
    {
        let mut c: Vec<i32> = Vec::new();
        let mut k: usize = 0;
        while k < clauses[i].len()
            invariant
                i < clauses@.len(),
                k <= clauses@[i as int]@.len(),
                c@ == clauses@[i as int]@.subrange(0, k as int),
            decreases clauses@[i as int]@.len() - k,
        {
            c.push(clauses[i][k]);
            k += 1;
        }
        assert(c@ =~= clauses@[i as int]@);
        let ghost before = r@.map_values(|c: Vec<i32>| c@);
        r.push(c);
        assert(r@.map_values(|c: Vec<i32>| c@) =~= before.push(c@));
        assert(clauses@.subrange(0, i as int + 1).map_values(|c: Vec<i32>| c@) =~= clauses@.subrange(
            0,
            i as int,
        ).map_values(|c: Vec<i32>| c@).push(clauses@[i as int]@));
        i += 1;
    }
    assert(clauses@.subrange(0, clauses@.len() as int) =~= clauses@);
    r
}

} // verus!
