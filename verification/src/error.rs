//! The errors that a restore returns.

use vstd::prelude::*;

verus! {

/// Why a request was not carried out.
#[derive(Debug, Clone, PartialEq, Eq)]
pub enum VotingError {
    /// The caller asked for something that must not be done.
    InvalidInput { message: String },
    /// The database failed, or did something that it should not have done.
    Internal { message: String },
}

/// A [`VotingError`] as the contracts speak of it.
pub ghost enum ErrorView {
    InvalidInput(Seq<char>),
    Internal(Seq<char>),
}

impl View for VotingError {
    type V = ErrorView;

    open spec fn view(&self) -> ErrorView {
        match self {
            VotingError::InvalidInput { message } => ErrorView::InvalidInput(message@),
            VotingError::Internal { message } => ErrorView::Internal(message@),
        }
    }
}

/// The error in a result, where there is one.
pub open spec fn error_of<T>(result: Result<T, VotingError>) -> Option<ErrorView> {
    match result {
        Ok(_) => None,
        Err(error) => Some(error@),
    }
}

/// An error that blames the request.
pub fn invalid(message: String) -> (error: VotingError)
    ensures
        error == (VotingError::InvalidInput { message }),
        error@ == ErrorView::InvalidInput(message@),
{
    VotingError::InvalidInput { message }
}

/// An error that blames the database.
pub fn internal(message: String) -> (error: VotingError)
    ensures
        error == (VotingError::Internal { message }),
        error@ == ErrorView::Internal(message@),
{
    VotingError::Internal { message }
}

} // verus!
