//! The evaluator's error taxonomy.

use crate::sql::ast::Expr;
use crate::sql::ast::ExprV;
use vstd::prelude::*;

verus! {

/// What can go wrong while evaluating expressions against a row.
#[derive(Debug)]
pub enum EngineError {
    /// A literal was required, but the expression is an identifier or a
    /// binary node.
    UnexpectedExprExpectedLiteral(Expr),
    /// A binary expression was required at the top of a where clause.
    UnexpectedExprExpectedExpression(Expr),
    /// A comparison between types or with an operator that the types do
    /// not support.
    InvalidComparison,
    /// An internal invariant of the evaluator was violated: an identifier
    /// that names no column, or a row too short for its position.
    UnexpectedState,
}

/// The mathematical value of an `EngineError`.
pub enum EngineErrorV {
    UnexpectedExprExpectedLiteral(ExprV),
    UnexpectedExprExpectedExpression(ExprV),
    InvalidComparison,
    UnexpectedState,
}

impl DeepView for EngineError {
    type V = EngineErrorV;

    open spec fn deep_view(&self) -> EngineErrorV {
        match self {
            EngineError::UnexpectedExprExpectedLiteral(e) => {
                EngineErrorV::UnexpectedExprExpectedLiteral(e.deep_view())
            },
            EngineError::UnexpectedExprExpectedExpression(e) => {
                EngineErrorV::UnexpectedExprExpectedExpression(e.deep_view())
            },
            EngineError::InvalidComparison => EngineErrorV::InvalidComparison,
            EngineError::UnexpectedState => EngineErrorV::UnexpectedState,
        }
    }
}

impl View for EngineError {
    type V = EngineErrorV;

    open spec fn view(&self) -> EngineErrorV {
        self.deep_view()
    }
}

} // verus!
