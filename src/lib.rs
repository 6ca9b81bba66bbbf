//! Boolean constraint models and their encoding as clauses of signed literals.
//!
//! A `Model` holds decision variables keyed by name and a root constraint. When every
//! variable is boolean and the constraints are in conjunctive normal form, `CNFModel`
//! encodes it as clauses of non-zero signed integers: the magnitude is the variable's
//! 1-based index, the sign its polarity. The encoding decodes back to an equivalent
//! conjunction of disjunctions.
//!
//! `flatten_conjunction` splices nested conjunctions into one top-level conjunction, and
//! the `SAT` adaptor loads a model, hands its clauses to an engine and classifies the
//! engine's answer.
pub mod ast;
pub mod cnf;
pub mod encode;
pub mod equivalence;
pub mod error;
pub mod literal;
pub mod model;
pub mod rewrite;
pub mod solver;

pub use ast::{Constant, DecisionVariable, Domain, Expression, Metadata, Name, Range, ReturnType};
pub use cnf::{CNFModel, HasVariable};
pub use error::{CNFError, ModelError, SolverError};
pub use literal::{get_namevar_as_int, handle_and, handle_lit, handle_or, instantiate_model_from_conjure};
pub use model::Model;
pub use rewrite::flatten_conjunction;
pub use solver::{classify, AdaptorState, SAT, SatOutcome, SearchComplete, SearchIncomplete, SearchStatus, SolveSuccess, SolverFamily};
