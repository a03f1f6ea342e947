//! How a single attempt of an operation ended.

use vstd::prelude::*;

verus! {

/// The outcome of one attempt.
///
/// A plain `Result` converts into it with `From`; its failure counts as one worth retrying.
/// An operation that can tell a hopeless failure from a passing one returns this type itself.
#[derive(Debug, PartialEq, Eq)]
pub enum OperationResult<T, E> {
    /// The attempt succeeded with a value.
    Success(T),
    /// The attempt failed; another attempt may succeed.
    Retry(E),
    /// The attempt failed for good; no further attempt is made.
    Fatal(E),
}

impl<T, E> From<Result<T, E>> for OperationResult<T, E> {
    fn from(item: Result<T, E>) -> (r: OperationResult<T, E>) {
        match item {
            Ok(value) => OperationResult::Success(value),
            Err(error) => OperationResult::Retry(error),
        }
    }
}

impl<T, E> vstd::std_specs::convert::FromSpecImpl<Result<T, E>> for OperationResult<T, E> {
    open spec fn obeys_from_spec() -> bool {
        true
    }

    open spec fn from_spec(item: Result<T, E>) -> OperationResult<T, E> {
        match item {
            Ok(value) => OperationResult::Success(value),
            Err(error) => OperationResult::Retry(error),
        }
    }
}

} // verus!
