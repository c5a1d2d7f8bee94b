//! The five operations that a request can ask for, and what the repository
//! answers to each.

use crate::credentials::Identity;
use crate::models::{NewRustacean, Rustacean, RustaceanView};
use crate::repositories::{record_view, views, RustaceanRepository, StoreError, TableView};
use vstd::prelude::*;

verus! {

/// How many records a listing holds at most.
pub const LISTING_LIMIT: usize = 100;

/// What a request asks for.
#[derive(Clone, Debug, PartialEq, Eq)]
pub enum Operation {
    /// The listing: the records with the greatest `id`s, `LISTING_LIMIT` at
    /// most.
    List,
    /// The record with this `id`.
    View(i32),
    /// A new record.
    Create(NewRustacean),
    /// The name and the email of the record with this `id` replaced by those
    /// given. The `id` and the creation time that are given are not looked at.
    Update(i32, Rustacean),
    /// The record with this `id` removed.
    Delete(i32),
}

/// What the repository answered, by the operation that was asked of it.
#[derive(Debug)]
pub enum Outcome {
    Listed(Result<Vec<Rustacean>, StoreError>),
    Viewed(Result<Rustacean, StoreError>),
    Created(Result<Rustacean, StoreError>),
    Updated(Result<Rustacean, StoreError>),
    Deleted(Result<(), StoreError>),
}

/// The mathematical value of an operation.
pub enum OperationView {
    List,
    View { id: int },
    Create { name: Seq<char>, email: Seq<char> },
    Update { id: int, name: Seq<char>, email: Seq<char> },
    Delete { id: int },
}

/// The mathematical value of an outcome.
pub enum OutcomeView {
    Listed(Result<Seq<RustaceanView>, StoreError>),
    Viewed(Result<RustaceanView, StoreError>),
    Created(Result<RustaceanView, StoreError>),
    Updated(Result<RustaceanView, StoreError>),
    Deleted(Result<(), StoreError>),
}

impl View for Operation {
    type V = OperationView;

    open spec fn view(&self) -> OperationView {
        match self {
            Operation::List => OperationView::List,
            Operation::View(id) => OperationView::View { id: *id as int },
            Operation::Create(new_rustacean) => OperationView::Create {
                name: new_rustacean.name@,
                email: new_rustacean.email@,
            },
            Operation::Update(id, rustacean) => OperationView::Update {
                id: *id as int,
                name: rustacean.name@,
                email: rustacean.email@,
            },
            Operation::Delete(id) => OperationView::Delete { id: *id as int },
        }
    }
}

impl View for Outcome {
    type V = OutcomeView;

    open spec fn view(&self) -> OutcomeView {
        match self {
            Outcome::Listed(r) => OutcomeView::Listed(
                match r {
                    Ok(records) => Ok(views(records@)),
                    Err(e) => Err(*e),
                },
            ),
            Outcome::Viewed(r) => OutcomeView::Viewed(record_view(*r)),
            Outcome::Created(r) => OutcomeView::Created(record_view(*r)),
            Outcome::Updated(r) => OutcomeView::Updated(record_view(*r)),
            Outcome::Deleted(r) => OutcomeView::Deleted(*r),
        }
    }
}

/// The table after an operation was run on it at the time `now`, and what
/// the repository answers.
pub open spec fn executed(table: TableView, operation: OperationView, now: Seq<char>) -> (
    TableView,
    OutcomeView,
) {
    match operation {
        OperationView::List => (
            table,
            OutcomeView::Listed(Ok(table.find_multiple(LISTING_LIMIT as nat))),
        ),
        OperationView::View { id } => (table, OutcomeView::Viewed(table.find(id))),
        OperationView::Create { name, email } => (
            table.create(name, email, now).0,
            OutcomeView::Created(table.create(name, email, now).1),
        ),
        OperationView::Update { id, name, email } => (
            table.save(id, name, email).0,
            OutcomeView::Updated(table.save(id, name, email).1),
        ),
        OperationView::Delete { id } => (
            table.delete(id).0,
            OutcomeView::Deleted(table.delete(id).1),
        ),
    }
}

/// Runs an operation on the repository for an authenticated user. `now` is
/// the time of the request, which a new record gets as its creation time.
pub fn execute(
    identity: &Identity,
    repository: &mut RustaceanRepository,
    operation: Operation,
    now: String,
) -> (outcome: Outcome)
    ensures
        old(repository)@.wf(),
        final(repository)@.wf(),
        (final(repository)@, outcome@) == executed(old(repository)@, operation@, now@),
{
    match operation {
        Operation::List => Outcome::Listed(repository.find_multiple(LISTING_LIMIT)),
        Operation::View(id) => Outcome::Viewed(repository.find(id)),
        Operation::Create(new_rustacean) => Outcome::Created(
            repository.create(new_rustacean, now),
        ),
        Operation::Update(id, rustacean) => Outcome::Updated(repository.save(id, rustacean)),
        Operation::Delete(id) => Outcome::Deleted(repository.delete(id)),
    }
}

} // verus!
