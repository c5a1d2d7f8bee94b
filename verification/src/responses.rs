//! What the service answers: the status code and body of each outcome.
//!
//! A failure reaches the client as a stable code and a fixed message. The
//! functions here take the kind of a failure and nothing else, so no detail of
//! what went wrong inside the store can get into a body.

use crate::models::{Rustacean, RustaceanView};
use crate::repositories::{views, StoreError};
use vstd::prelude::*;

verus! {

/// 200 OK: a listing, a record, or an updated record.
pub const OK: u16 = 200;

/// 201 Created.
pub const CREATED: u16 = 201;

/// 204 No Content: a record was deleted.
pub const NO_CONTENT: u16 = 204;

/// 401 Unauthorized.
pub const UNAUTHORIZED: u16 = 401;

/// 404 Not Found.
pub const NOT_FOUND: u16 = 404;

/// 409 Conflict.
pub const CONFLICT: u16 = 409;

/// 500 Internal Server Error.
pub const INTERNAL_SERVER_ERROR: u16 = 500;

/// The body of a failure: a code for programs and a message for people.
#[derive(Clone, Debug, PartialEq, Eq)]
pub struct ApiError {
    pub code: String,
    pub message: String,
}

/// The body of a response.
#[derive(Clone, Debug, PartialEq, Eq)]
pub enum Body {
    Empty,
    Rustacean(Rustacean),
    Rustaceans(Vec<Rustacean>),
    Error(ApiError),
}

/// A response: the status code, whether it carries the challenge
/// `WWW-Authenticate: Basic`, and the body.
#[derive(Clone, Debug, PartialEq, Eq)]
pub struct Response {
    pub status: u16,
    pub challenge: bool,
    pub body: Body,
}

/// The mathematical value of a body.
pub enum BodyView {
    Empty,
    Rustacean(RustaceanView),
    Rustaceans(Seq<RustaceanView>),
    Error { code: Seq<char>, message: Seq<char> },
}

/// The mathematical value of a response.
pub struct ResponseView {
    pub status: int,
    pub challenge: bool,
    pub body: BodyView,
}

impl View for Body {
    type V = BodyView;

    open spec fn view(&self) -> BodyView {
        match self {
            Body::Empty => BodyView::Empty,
            Body::Rustacean(record) => BodyView::Rustacean(record@),
            Body::Rustaceans(records) => BodyView::Rustaceans(views(records@)),
            Body::Error(error) => BodyView::Error { code: error.code@, message: error.message@ },
        }
    }
}

impl View for Response {
    type V = ResponseView;

    open spec fn view(&self) -> ResponseView {
        ResponseView { status: self.status as int, challenge: self.challenge, body: self.body@ }
    }
}

/// The status code of a failure of the store.
pub open spec fn status_of(error: StoreError) -> int {
    match error {
        StoreError::NotFound => 404,
        StoreError::Conflict => 409,
        StoreError::Other => 500,
    }
}

/// The response to every request that is not authenticated, whatever the
/// reason: 401 with the challenge.
pub open spec fn unauthorized_view() -> ResponseView {
    ResponseView {
        status: 401,
        challenge: true,
        body: BodyView::Error { code: "unauthorized"@, message: "Authentication required."@ },
    }
}

/// The response to a request for a route that does not exist, and to one for
/// a record that does not exist.
pub open spec fn not_found_view() -> ResponseView {
    ResponseView {
        status: 404,
        challenge: false,
        body: BodyView::Error { code: "not_found"@, message: "Not found!"@ },
    }
}

/// The response to a write that the store refused as conflicting.
pub open spec fn conflict_view() -> ResponseView {
    ResponseView {
        status: 409,
        challenge: false,
        body: BodyView::Error {
            code: "conflict"@,
            message: "The request conflicts with the stored data."@,
        },
    }
}

/// The response to any other failure.
pub open spec fn internal_error_view() -> ResponseView {
    ResponseView {
        status: 500,
        challenge: false,
        body: BodyView::Error { code: "internal_error"@, message: "Internal server error."@ },
    }
}

/// The response to a failure of the store.
pub open spec fn store_failure_view(error: StoreError) -> ResponseView {
    match error {
        StoreError::NotFound => not_found_view(),
        StoreError::Conflict => conflict_view(),
        StoreError::Other => internal_error_view(),
    }
}

/// The response to the outcome of a listing: 200 with the records.
pub open spec fn listing_view(outcome: Result<Seq<RustaceanView>, StoreError>) -> ResponseView {
    match outcome {
        Ok(records) => ResponseView {
            status: 200,
            challenge: false,
            body: BodyView::Rustaceans(records),
        },
        Err(error) => store_failure_view(error),
    }
}

/// The response to an outcome that holds a record, with `status` on success.
pub open spec fn record_response_view(
    status: int,
    outcome: Result<RustaceanView, StoreError>,
) -> ResponseView {
    match outcome {
        Ok(record) => ResponseView { status, challenge: false, body: BodyView::Rustacean(record) },
        Err(error) => store_failure_view(error),
    }
}

/// The response to the outcome of a delete: 204 with an empty body.
pub open spec fn deletion_view(outcome: Result<(), StoreError>) -> ResponseView {
    match outcome {
        Ok(()) => ResponseView { status: 204, challenge: false, body: BodyView::Empty },
        Err(error) => store_failure_view(error),
    }
}

fn failure(status: u16, challenge: bool, code: &str, message: &str) -> (response: Response)
    ensures
        response@ == (ResponseView {
            status: status as int,
            challenge,
            body: BodyView::Error { code: code@, message: message@ },
        }),
{
    Response {
        status,
        challenge,
        body: Body::Error(ApiError { code: code.to_owned(), message: message.to_owned() }),
    }
}

/// The response to a request that is not authenticated.
pub fn unauthorized() -> (response: Response)
    ensures
        response@ == unauthorized_view(),
{
    failure(UNAUTHORIZED, true, "unauthorized", "Authentication required.")
}

/// The response to a request for a route that does not exist.
pub fn not_found() -> (response: Response)
    ensures
        response@ == not_found_view(),
{
    failure(NOT_FOUND, false, "not_found", "Not found!")
}

/// The response to a failure of the store: 404 for `NotFound`, 409 for
/// `Conflict`, 500 for `Other`.
pub fn store_failure(error: StoreError) -> (response: Response)
    ensures
        response@ == store_failure_view(error),
        response@.status == status_of(error),
{
    match error {
        StoreError::NotFound => not_found(),
        StoreError::Conflict => failure(
            CONFLICT,
            false,
            "conflict",
            "The request conflicts with the stored data.",
        ),
        StoreError::Other => failure(
            INTERNAL_SERVER_ERROR,
            false,
            "internal_error",
            "Internal server error.",
        ),
    }
}

/// Answers a request for the listing.
pub fn get_rustaceans(outcome: Result<Vec<Rustacean>, StoreError>) -> (response: Response)
    ensures
        response@ == listing_view(
            match outcome {
                Ok(records) => Ok(views(records@)),
                Err(error) => Err(error),
            },
        ),
{
    match outcome {
        Ok(records) => Response { status: OK, challenge: false, body: Body::Rustaceans(records) },
        Err(error) => store_failure(error),
    }
}

fn record_response(status: u16, outcome: Result<Rustacean, StoreError>) -> (response: Response)
    ensures
        response@ == record_response_view(
            status as int,
            match outcome {
                Ok(record) => Ok(record@),
                Err(error) => Err(error),
            },
        ),
{
    match outcome {
        Ok(record) => Response { status, challenge: false, body: Body::Rustacean(record) },
        Err(error) => store_failure(error),
    }
}

/// Answers a request for one record.
pub fn view_rustacean(outcome: Result<Rustacean, StoreError>) -> (response: Response)
    ensures
        response@ == record_response_view(
            200,
            match outcome {
                Ok(record) => Ok(record@),
                Err(error) => Err(error),
            },
        ),
{
    record_response(OK, outcome)
}

/// Answers a request to create a record: 201 with the record as stored.
pub fn create_rustacean(outcome: Result<Rustacean, StoreError>) -> (response: Response)
    ensures
        response@ == record_response_view(
            201,
            match outcome {
                Ok(record) => Ok(record@),
                Err(error) => Err(error),
            },
        ),
{
    record_response(CREATED, outcome)
}

/// Answers a request to update a record.
pub fn update_rustacean(outcome: Result<Rustacean, StoreError>) -> (response: Response)
    ensures
        response@ == record_response_view(
            200,
            match outcome {
                Ok(record) => Ok(record@),
                Err(error) => Err(error),
            },
        ),
{
    record_response(OK, outcome)
}

/// Answers a request to delete a record: 204 with an empty body.
pub fn delete_rustacean(outcome: Result<(), StoreError>) -> (response: Response)
    ensures
        response@ == deletion_view(outcome),
{
    match outcome {
        Ok(()) => Response { status: NO_CONTENT, challenge: false, body: Body::Empty },
        Err(error) => store_failure(error),
    }
}

} // verus!
