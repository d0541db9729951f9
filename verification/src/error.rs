//! Errors.

use crate::text::Text;
use vstd::prelude::*;

verus! {

/// What an error is about.
#[derive(Clone, Copy, Debug, PartialEq, Eq, Structural)]
pub enum ErrorKind {
    /// Something that a valid input never leads to.
    Internal,
    /// The number of combinations to look at is too large.
    QueryPlanComplexityExceeded,
    /// The work nests deeper than allowed.
    NestingTooDeep,
    /// Planning was cancelled from outside.
    PlanningCancelled,
    /// A document has several operations, and none was asked for.
    OperationNameNotProvided,
    /// The operation asked for is not in the document.
    UnknownOperation,
    /// `@defer` was used on a subscription.
    DeferredSubscriptionUnsupported,
    /// A directive on a fragment spread that an inline fragment cannot have.
    UnsupportedSpreadDirective,
    /// Something that is no valid document.
    InvalidGraphql,
}

/// An error with its message.
pub struct FederationError {
    pub kind: ErrorKind,
    pub message: String,
}

/// The mathematical content of a [`FederationError`].
#[verifier::ext_equal]
pub struct ErrorView {
    pub kind: ErrorKind,
    pub message: Text,
}

impl DeepView for FederationError {
    type V = ErrorView;

    open spec fn deep_view(&self) -> ErrorView {
        ErrorView { kind: self.kind, message: self.message@ }
    }
}

impl Clone for FederationError {
    fn clone(&self) -> (r: Self)
        ensures
            r.deep_view() == self.deep_view(),
    {
        FederationError { kind: self.kind, message: self.message.clone() }
    }
}

/// An internal error.
pub open spec fn internal_error(message: Text) -> ErrorView {
    ErrorView { kind: ErrorKind::Internal, message }
}

/// The content of a result.
pub open spec fn result_view<T: DeepView>(r: Result<T, FederationError>) -> Result<
    T::V,
    ErrorView,
> {
    match r {
        Ok(value) => Ok(value.deep_view()),
        Err(error) => Err(error.deep_view()),
    }
}

impl FederationError {
    /// An internal error.
    pub fn internal(message: &str) -> (r: Self)
        ensures
            r.deep_view() == internal_error(message@),
    {
        FederationError { kind: ErrorKind::Internal, message: message.to_owned() }
    }
}

} // verus!
