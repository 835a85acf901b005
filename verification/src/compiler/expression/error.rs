//! How the evaluation of an expression ends.
use crate::value::{Value, ValueModel};
use std::borrow::Cow;
use vstd::prelude::*;

verus! {

/// Why an expression has no result.
#[derive(Debug)]
pub enum ExpressionError {
    /// The program is aborted.
    Abort { message: Option<String> },
    /// The program ends early, with this value.
    Return { value: Value },
    /// The expression failed.
    Error { reason: String },
}

/// What an [`ExpressionError`] says.
#[verifier::ext_equal]
pub enum ErrorModel {
    Abort(Option<Seq<char>>),
    Return(ValueModel),
    Error(Seq<char>),
}

impl View for ExpressionError {
    type V = ErrorModel;

    open spec fn view(&self) -> ErrorModel {
        match self {
            ExpressionError::Abort { message: Some(message) } => ErrorModel::Abort(
                Some(message@),
            ),
            ExpressionError::Abort { message: None } => ErrorModel::Abort(None),
            ExpressionError::Return { value } => ErrorModel::Return(value@),
            ExpressionError::Error { reason } => ErrorModel::Error(reason@),
        }
    }
}

impl vstd::std_specs::cmp::PartialEqSpecImpl for ExpressionError {
    open spec fn obeys_eq_spec() -> bool {
        true
    }

    open spec fn eq_spec(&self, other: &Self) -> bool {
        self@ == other@
    }
}

impl PartialEq for ExpressionError {
    fn eq(&self, other: &Self) -> (r: bool) {
        match (self, other) {
            (
                ExpressionError::Abort { message: Some(a) },
                ExpressionError::Abort { message: Some(b) },
            ) => *a == *b,
            (
                ExpressionError::Abort { message: None },
                ExpressionError::Abort { message: None },
            ) => true,
            (ExpressionError::Return { value: a }, ExpressionError::Return { value: b }) => {
                *a == *b
            },
            (ExpressionError::Error { reason: a }, ExpressionError::Error { reason: b }) => {
                *a == *b
            },
            _ => false,
        }
    }
}

/// The result of an expression, or why it has none.
pub type Resolved = Result<Value, ExpressionError>;

/// How the evaluation of an expression ends.
pub type Outcome = Result<ValueModel, ErrorModel>;

/// How the evaluation ended.
pub open spec fn outcome(resolved: Resolved) -> Outcome {
    match resolved {
        Ok(value) => Ok(value@),
        Err(error) => Err(error@),
    }
}

/// How the evaluation ended, with a result that may be borrowed.
pub open spec fn borrowed_outcome(resolved: Result<Cow<Value>, ExpressionError>) -> Outcome {
    match resolved {
        Ok(value) => Ok(value@),
        Err(error) => Err(error@),
    }
}

} // verus!
