//! Encoding errors and solver errors.
use vstd::prelude::*;

use crate::ast::{expr_view, ExprView, Expression, Name, NameView};

verus! {

/// Why an expression or a clause could not be encoded.
#[derive(Debug, Clone, PartialEq, Eq)]
pub enum CNFError {
    VariableNameNotFound(Name),
    BadVariableType(Name),
    UnexpectedExpressionInsideNot(Expression),
    UnexpectedLiteralExpression(Expression),
    UnexpectedExpressionInsideAnd(Expression),
    UnexpectedExpressionInsideOr(Expression),
    UnexpectedExpression(Expression),
    NestedAnd(Expression),
    ClauseIndexNotFound(i32),
}

/// An encoding error with the offending node, name or index seen through its view.
pub enum Fault {
    VariableNameNotFound(NameView),
    BadVariableType(NameView),
    UnexpectedExpressionInsideNot(ExprView),
    UnexpectedLiteralExpression(ExprView),
    UnexpectedExpressionInsideAnd(ExprView),
    UnexpectedExpressionInsideOr(ExprView),
    UnexpectedExpression(ExprView),
    NestedAnd(ExprView),
    ClauseIndexNotFound(i32),
}

impl View for CNFError {
    type V = Fault;

    open spec fn view(&self) -> Fault {
        match self {
            CNFError::VariableNameNotFound(n) => Fault::VariableNameNotFound(n@),
            CNFError::BadVariableType(n) => Fault::BadVariableType(n@),
            CNFError::UnexpectedExpressionInsideNot(e) => Fault::UnexpectedExpressionInsideNot(expr_view(*e)),
            CNFError::UnexpectedLiteralExpression(e) => Fault::UnexpectedLiteralExpression(expr_view(*e)),
            CNFError::UnexpectedExpressionInsideAnd(e) => Fault::UnexpectedExpressionInsideAnd(expr_view(*e)),
            CNFError::UnexpectedExpressionInsideOr(e) => Fault::UnexpectedExpressionInsideOr(expr_view(*e)),
            CNFError::UnexpectedExpression(e) => Fault::UnexpectedExpression(expr_view(*e)),
            CNFError::NestedAnd(e) => Fault::NestedAnd(expr_view(*e)),
            CNFError::ClauseIndexNotFound(i) => Fault::ClauseIndexNotFound(*i),
        }
    }
}

/// The outcome of an encoding step, seen through the view of its error.
pub open spec fn outcome<T>(r: Result<T, CNFError>) -> Result<T, Fault> {
    match r {
        Ok(t) => Ok(t),
        Err(e) => Err(e@),
    }
}

/// Errors reported by a solver back-end.
#[derive(Debug, Clone, PartialEq, Eq)]
pub enum SolverError {
    /// A variable that the model refers to is missing.
    ModelInvalid(Name),
    /// The model holds a domain or a shape that this back-end cannot encode.
    ModelFeatureNotSupported(CNFError),
    /// A capability that this back-end does not offer.
    OpNotSupported,
    /// The back-end ended in a state that cannot be classified.
    Runtime,
    /// The operation does not fit the adaptor's state: no model is loaded, or a search
    /// is already running.
    StateConflict,
}

/// Errors of operations on a model.
#[derive(Debug, Clone, PartialEq, Eq)]
pub enum ModelError {
    VariableNotFound(Name),
}

} // verus!
