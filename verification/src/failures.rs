//! Failures of the SQL store as `diesel` reports them, and what each of them
//! is to the repository.
//!
//! A query that should return a row and returns none is `NotFound`. A write
//! that breaks a uniqueness constraint, or that the store could not serialize
//! with a concurrent one, is `Conflict`. Everything else is `Other`. A write
//! by `id` that touched no row found no record, and is `NotFound` as well.

use crate::repositories::StoreError;
use diesel::result::{DatabaseErrorKind, Error};
use vstd::prelude::*;

verus! {

/// `diesel::result::Error`, which is carried through as it is: nothing is
/// known of what a value of it holds.
#[verifier::external_type_specification]
#[verifier::external_body]
pub struct ExDieselError(diesel::result::Error);

/// What the store reported, as far as the repository tells failures apart.
#[derive(Clone, Copy, Debug, PartialEq, Eq, Structural)]
pub enum StoreFailure {
    /// A query that should return a row returned none.
    NoRows,
    /// A uniqueness constraint was violated.
    UniqueViolation,
    /// The write could not be serialized with a concurrent one.
    SerializationFailure,
    /// Anything else.
    Other,
}

/// The failure that an error of `diesel` reports.
pub uninterp spec fn reported(error: Error) -> StoreFailure;

/// Tells the variants of `diesel::result::Error` apart: `NotFound` is
/// `NoRows`; a `DatabaseError` of kind `UniqueViolation` or
/// `SerializationFailure` is the failure of that name; every other error is
/// `Other`. Nothing is proved of this: `reported` is the name of what it
/// returns.
#[verifier::external_body]
fn classify(error: &Error) -> (failure: StoreFailure)
    ensures
        failure == reported(*error),
{
    match error {
        Error::NotFound => StoreFailure::NoRows,
        Error::DatabaseError(DatabaseErrorKind::UniqueViolation, _) => {
            StoreFailure::UniqueViolation
        },
        Error::DatabaseError(DatabaseErrorKind::SerializationFailure, _) => {
            StoreFailure::SerializationFailure
        },
        _ => StoreFailure::Other,
    }
}

/// What a reported failure is to the repository.
pub open spec fn store_error_of(failure: StoreFailure) -> StoreError {
    match failure {
        StoreFailure::NoRows => StoreError::NotFound,
        StoreFailure::UniqueViolation => StoreError::Conflict,
        StoreFailure::SerializationFailure => StoreError::Conflict,
        StoreFailure::Other => StoreError::Other,
    }
}

/// The outcome of a write by `id` that touched `rows` rows: one that touched
/// none found no record.
pub open spec fn write_outcome(rows: int) -> Result<(), StoreError> {
    if rows == 0 {
        Err(StoreError::NotFound)
    } else {
        Ok(())
    }
}

/// What a reported failure is to the repository.
pub fn from_failure(failure: StoreFailure) -> (error: StoreError)
    ensures
        error == store_error_of(failure),
{
    match failure {
        StoreFailure::NoRows => StoreError::NotFound,
        StoreFailure::UniqueViolation => StoreError::Conflict,
        StoreFailure::SerializationFailure => StoreError::Conflict,
        StoreFailure::Other => StoreError::Other,
    }
}

/// What an error of `diesel` is to the repository.
pub fn from_diesel(error: &Error) -> (translated: StoreError)
    ensures
        translated == store_error_of(reported(*error)),
{
    from_failure(classify(error))
}

/// The outcome of a query: its value, or what its error is to the repository.
pub fn queried<T>(result: Result<T, Error>) -> (outcome: Result<T, StoreError>)
    ensures
        match result {
            Ok(value) => outcome == Ok::<T, StoreError>(value),
            Err(error) => outcome == Err::<T, StoreError>(store_error_of(reported(error))),
        },
{
    match result {
        Ok(value) => Ok(value),
        Err(error) => Err(from_diesel(&error)),
    }
}

/// The outcome of a write by `id`, from the number of rows it touched.
pub fn written(result: Result<usize, Error>) -> (outcome: Result<(), StoreError>)
    ensures
        match result {
            Ok(rows) => outcome == write_outcome(rows as int),
            Err(error) => outcome == Err::<(), StoreError>(store_error_of(reported(error))),
        },
{
    match result {
        Ok(rows) => if rows == 0 {
            Err(StoreError::NotFound)
        } else {
            Ok(())
        },
        Err(error) => Err(from_diesel(&error)),
    }
}

} // verus!
