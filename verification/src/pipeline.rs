//! The path of one request: from the header to the credentials, from the
//! credentials to an identity, and only then to the repository and to the
//! response.
//!
//! `advance` is the whole of it: it takes the stage that a request is in and
//! what happened, and says what stage comes next and what is to be done. The
//! caller does what it is told (it consults the credential store, it runs the
//! operation on the repository) and reports back. A request that fails
//! authentication is answered at once, and the repository is never asked.

use crate::auth::{request_credentials, BasicAuth};
use crate::credentials::{record_authenticates, verify, CredentialRecord, Identity};
use crate::models::RustaceanView;
use crate::operations::{executed, OperationView, Outcome, OutcomeView};
use crate::repositories::{
    lemma_create_then_find, lemma_delete_then_find, lemma_save_keeps_id_and_creation_time,
    StoreError, TableView, MAX_ID,
};
use crate::responses::{
    create_rustacean, delete_rustacean, deletion_view, get_rustaceans, internal_error_view,
    listing_view, not_found_view, record_response_view, store_failure, unauthorized,
    unauthorized_view, update_rustacean, view_rustacean, BodyView, Response, ResponseView,
};
use vstd::prelude::*;
use vstd::utf8::encode_utf8;

verus! {

/// Where a request stands.
#[derive(Debug)]
pub enum Stage {
    /// Nothing is known of the request yet.
    Unauthenticated,
    /// The header held these credentials, which are not checked yet.
    Authenticating(BasicAuth),
    /// The credentials were right.
    Authenticated(Identity),
    /// The operation is running on the repository.
    Executing(Identity),
    /// The request was answered.
    Responded,
}

/// What happened to a request.
#[derive(Debug)]
pub enum Event {
    /// It arrived, with this value of the `Authorization` header or with none.
    Arrived(Option<String>),
    /// The credential store was consulted: it holds `record` for the claimed
    /// username, and `presented` is the verifier of the claimed password.
    Looked { record: Option<CredentialRecord>, presented: Vec<u8> },
    /// The operation was handed to the repository.
    Dispatched,
    /// The repository answered.
    Answered(Outcome),
}

/// What is to be done next.
#[derive(Debug)]
pub enum Action {
    /// Consult the credential store for the credentials of the stage.
    Validate,
    /// Hand the operation to the repository.
    Dispatch,
    /// Run the operation on the repository.
    Execute,
    /// Send this response: the request is done.
    Respond(Response),
}

/// The mathematical value of a stage.
pub enum StageView {
    Unauthenticated,
    Authenticating { username: Seq<char>, password: Seq<char> },
    Authenticated { username: Seq<char> },
    Executing { username: Seq<char> },
    Responded,
}

/// The mathematical value of an event. The header is the bytes it was sent as.
pub enum EventView {
    Arrived(Option<Seq<u8>>),
    Looked { record: Option<CredentialRecord>, presented: Seq<u8> },
    Dispatched,
    Answered(OutcomeView),
}

/// The mathematical value of an action.
pub enum ActionView {
    Validate,
    Dispatch,
    Execute,
    Respond(ResponseView),
}

impl View for Stage {
    type V = StageView;

    open spec fn view(&self) -> StageView {
        match self {
            Stage::Unauthenticated => StageView::Unauthenticated,
            Stage::Authenticating(credentials) => StageView::Authenticating {
                username: credentials.username@,
                password: credentials.password@,
            },
            Stage::Authenticated(identity) => StageView::Authenticated { username: identity@ },
            Stage::Executing(identity) => StageView::Executing { username: identity@ },
            Stage::Responded => StageView::Responded,
        }
    }
}

impl View for Event {
    type V = EventView;

    open spec fn view(&self) -> EventView {
        match self {
            Event::Arrived(header) => EventView::Arrived(
                match header {
                    Some(h) => Some(encode_utf8(h@)),
                    None => None,
                },
            ),
            Event::Looked { record, presented } => EventView::Looked {
                record: *record,
                presented: presented@,
            },
            Event::Dispatched => EventView::Dispatched,
            Event::Answered(outcome) => EventView::Answered(outcome@),
        }
    }
}

impl View for Action {
    type V = ActionView;

    open spec fn view(&self) -> ActionView {
        match self {
            Action::Validate => ActionView::Validate,
            Action::Dispatch => ActionView::Dispatch,
            Action::Execute => ActionView::Execute,
            Action::Respond(response) => ActionView::Respond(response@),
        }
    }
}

/// The response to what the repository answered: 200 for a listing, a record
/// or an update, 201 for a creation, 204 for a deletion, and for a failure
/// the response of its kind.
pub open spec fn outcome_response(outcome: OutcomeView) -> ResponseView {
    match outcome {
        OutcomeView::Listed(r) => listing_view(r),
        OutcomeView::Viewed(r) => record_response_view(200, r),
        OutcomeView::Created(r) => record_response_view(201, r),
        OutcomeView::Updated(r) => record_response_view(200, r),
        OutcomeView::Deleted(r) => deletion_view(r),
    }
}

/// The stage that follows and what is to be done, for each stage and each
/// event.
///
/// A request that arrives is authenticated first. Where the header is missing
/// or malformed, or the credential store does not bear the credentials out,
/// the request is answered with 401 and is done. Only a request that was
/// authenticated is dispatched and executed, and what the repository answers
/// becomes the response. An event that cannot follow the stage ends the
/// request with 500.
pub open spec fn step(stage: StageView, event: EventView) -> (StageView, ActionView) {
    match (stage, event) {
        (StageView::Unauthenticated, EventView::Arrived(header)) => match request_credentials(
            header,
        ) {
            Ok((username, password)) => (
                StageView::Authenticating { username, password },
                ActionView::Validate,
            ),
            Err(_) => (StageView::Responded, ActionView::Respond(unauthorized_view())),
        },
        (StageView::Authenticating { username, password }, EventView::Looked { record, presented }) => {
            if record_authenticates(record, username, presented) {
                (StageView::Authenticated { username }, ActionView::Dispatch)
            } else {
                (StageView::Responded, ActionView::Respond(unauthorized_view()))
            }
        },
        (StageView::Authenticated { username }, EventView::Dispatched) => (
            StageView::Executing { username },
            ActionView::Execute,
        ),
        (StageView::Executing { username }, EventView::Answered(outcome)) => (
            StageView::Responded,
            ActionView::Respond(outcome_response(outcome)),
        ),
        _ => (StageView::Responded, ActionView::Respond(internal_error_view())),
    }
}

/// The response to what the repository answered.
pub fn respond(outcome: Outcome) -> (response: Response)
    ensures
        response@ == outcome_response(outcome@),
{
    match outcome {
        Outcome::Listed(r) => get_rustaceans(r),
        Outcome::Viewed(r) => view_rustacean(r),
        Outcome::Created(r) => create_rustacean(r),
        Outcome::Updated(r) => update_rustacean(r),
        Outcome::Deleted(r) => delete_rustacean(r),
    }
}

/// Takes a request one step further: the stage that follows `stage` when
/// `event` happened, and what is to be done next.
pub fn advance(stage: Stage, event: Event) -> (next: (Stage, Action))
    ensures
        (next.0@, next.1@) == step(stage@, event@),
{
    match (stage, event) {
        (Stage::Unauthenticated, Event::Arrived(header)) => {
            let extracted = match &header {
                Some(h) => BasicAuth::extract(Some(h.as_str())),
                None => BasicAuth::extract(None),
            };
            match extracted {
                Ok(credentials) => (Stage::Authenticating(credentials), Action::Validate),
                Err(_) => (Stage::Responded, Action::Respond(unauthorized())),
            }
        },
        (Stage::Authenticating(credentials), Event::Looked { record, presented }) => {
            match verify(&credentials, record.as_ref(), presented.as_slice()) {
                Ok(identity) => (Stage::Authenticated(identity), Action::Dispatch),
                Err(_) => (Stage::Responded, Action::Respond(unauthorized())),
            }
        },
        (Stage::Authenticated(identity), Event::Dispatched) => (
            Stage::Executing(identity),
            Action::Execute,
        ),
        (Stage::Executing(_), Event::Answered(outcome)) => (
            Stage::Responded,
            Action::Respond(respond(outcome)),
        ),
        _ => (Stage::Responded, Action::Respond(store_failure(StoreError::Other))),
    }
}

/// The actions that a run of events calls for, one for each event, when the
/// request starts in `stage`.
pub open spec fn actions(stage: StageView, events: Seq<EventView>) -> Seq<ActionView>
    decreases events.len(),
{
    if events.len() == 0 {
        Seq::empty()
    } else {
        let (next, action) = step(stage, events[0]);
        seq![action] + actions(next, events.skip(1))
    }
}

proof fn lemma_actions_index(stage: StageView, events: Seq<EventView>, k: int)
    requires
        0 <= k < events.len(),
    ensures
        actions(stage, events).len() == events.len(),
        k == 0 ==> actions(stage, events)[k] == step(stage, events[0]).1,
        k > 0 ==> actions(stage, events)[k] == actions(
            step(stage, events[0]).0,
            events.skip(1),
        )[k - 1],
    decreases events.len(),
{
    lemma_actions_len(stage, events);
    lemma_actions_len(step(stage, events[0]).0, events.skip(1));
}

proof fn lemma_actions_len(stage: StageView, events: Seq<EventView>)
    ensures
        actions(stage, events).len() == events.len(),
    decreases events.len(),
{
    if events.len() > 0 {
        lemma_actions_len(step(stage, events[0]).0, events.skip(1));
    }
}

/// Once a request is answered, nothing that happens makes the repository run:
/// no later action is `Execute`.
pub proof fn lemma_answered_request_never_executes(events: Seq<EventView>, k: int)
    requires
        0 <= k < events.len(),
    ensures
        actions(StageView::Responded, events)[k] != ActionView::Execute,
    decreases events.len(),
{
    lemma_actions_index(StageView::Responded, events, k);
    if k > 0 {
        lemma_answered_request_never_executes(events.skip(1), k - 1);
    }
}

/// A request whose header is missing or malformed is answered with 401 and
/// the challenge, whatever it asks for, and the repository is never run for
/// it: no action of the run is `Execute`, whatever happens later.
pub proof fn lemma_unauthenticated_request_never_executes(
    header: Option<Seq<u8>>,
    later: Seq<EventView>,
    k: int,
)
    requires
        request_credentials(header) is Err,
        0 <= k <= later.len(),
    ensures
        step(StageView::Unauthenticated, EventView::Arrived(header)) == (
            StageView::Responded,
            ActionView::Respond(unauthorized_view()),
        ),
        unauthorized_view().status == 401,
        unauthorized_view().challenge,
        actions(StageView::Unauthenticated, seq![EventView::Arrived(header)] + later)[k]
            != ActionView::Execute,
{
    let events = seq![EventView::Arrived(header)] + later;
    lemma_actions_index(StageView::Unauthenticated, events, k);
    if k > 0 {
        assert(events.skip(1) =~= later);
        lemma_answered_request_never_executes(later, k - 1);
    }
}

/// Credentials that the credential store does not bear out (an unknown user
/// or a wrong password) are answered exactly as a missing header is: the
/// same status, the same challenge and the same body.
pub proof fn lemma_wrong_password_answers_like_missing_header(
    username: Seq<char>,
    password: Seq<char>,
    record: Option<CredentialRecord>,
    presented: Seq<u8>,
)
    requires
        !record_authenticates(record, username, presented),
    ensures
        step(
            StageView::Authenticating { username, password },
            EventView::Looked { record, presented },
        ) == step(StageView::Unauthenticated, EventView::Arrived(None)),
        step(StageView::Unauthenticated, EventView::Arrived(None)) == (
            StageView::Responded,
            ActionView::Respond(unauthorized_view()),
        ),
{
}

/// The repository runs for authenticated requests only. Where a run that
/// starts with an unauthenticated request calls for `Execute`, it does so
/// once, as its third action: the request arrived with a header that holds
/// credentials, the credential store bore them out, and the operation was
/// dispatched.
pub proof fn lemma_execute_needs_authentication(events: Seq<EventView>, k: int)
    requires
        0 <= k < events.len(),
        actions(StageView::Unauthenticated, events)[k] == ActionView::Execute,
    ensures
        k == 2,
        events[0] matches EventView::Arrived(header) && request_credentials(header) matches Ok(
            (username, password),
        ) && events[1] matches EventView::Looked { record, presented } && record_authenticates(
            record,
            username,
            presented,
        ),
        events[2] == EventView::Dispatched,
{
    let (s1, a0) = step(StageView::Unauthenticated, events[0]);
    lemma_actions_index(StageView::Unauthenticated, events, k);
    assert(k > 0);
    let rest1 = events.skip(1);
    if s1 == StageView::Responded {
        lemma_answered_request_never_executes(rest1, k - 1);
    }
    let (s2, a1) = step(s1, rest1[0]);
    lemma_actions_index(s1, rest1, k - 1);
    assert(k > 1);
    let rest2 = rest1.skip(1);
    if s2 == StageView::Responded {
        lemma_answered_request_never_executes(rest2, k - 2);
    }
    let (s3, a2) = step(s2, rest2[0]);
    lemma_actions_index(s2, rest2, k - 2);
    if k > 2 {
        let rest3 = rest2.skip(1);
        if s3 == StageView::Responded {
            lemma_answered_request_never_executes(rest3, k - 3);
        }
        let (s4, a3) = step(s3, rest3[0]);
        lemma_actions_index(s3, rest3, k - 3);
        assert(s4 == StageView::Responded);
        if k > 3 {
            lemma_answered_request_never_executes(rest3.skip(1), k - 4);
        }
    }
}

/// Creating a record is answered with 201 and the record as stored; viewing
/// it under its `id`, at any later time, with 200 and the same record.
pub proof fn lemma_created_record_is_viewed(
    table: TableView,
    name: Seq<char>,
    email: Seq<char>,
    now: Seq<char>,
    later: Seq<char>,
)
    requires
        table.wf(),
        table.last_id < MAX_ID,
    ensures
        ({
            let (after, created) = executed(table, OperationView::Create { name, email }, now);
            let record = RustaceanView { id: table.last_id + 1, name, email, created_at: now };
            &&& outcome_response(created) == (ResponseView {
                status: 201,
                challenge: false,
                body: BodyView::Rustacean(record),
            })
            &&& outcome_response(executed(after, OperationView::View { id: record.id }, later).1)
                == (ResponseView {
                status: 200,
                challenge: false,
                body: BodyView::Rustacean(record),
            })
        }),
{
    lemma_create_then_find(table, name, email, now);
}

/// Updating a record that exists is answered with 200 and the record with
/// its new name and email and its old `id` and creation time.
pub proof fn lemma_updated_record_keeps_id_and_creation_time(
    table: TableView,
    id: int,
    name: Seq<char>,
    email: Seq<char>,
    now: Seq<char>,
)
    requires
        table.wf(),
        table.contains(id),
    ensures
        ({
            let (after, updated) = executed(table, OperationView::Update { id, name, email }, now);
            let before = table.find(id)->Ok_0;
            let record = RustaceanView { id, name, email, created_at: before.created_at };
            &&& before.id == id
            &&& outcome_response(updated) == (ResponseView {
                status: 200,
                challenge: false,
                body: BodyView::Rustacean(record),
            })
            &&& after.find(id) == Ok::<RustaceanView, StoreError>(record)
        }),
{
    lemma_save_keeps_id_and_creation_time(table, id, name, email);
}

/// Finding, updating and deleting under an `id` that no record has are each
/// answered with 404.
pub proof fn lemma_absent_id_answers_not_found(
    table: TableView,
    id: int,
    name: Seq<char>,
    email: Seq<char>,
)
    requires
        !table.contains(id),
    ensures
        outcome_response(OutcomeView::Viewed(table.find(id))) == not_found_view(),
        outcome_response(OutcomeView::Updated(table.save(id, name, email).1)) == not_found_view(),
        outcome_response(OutcomeView::Deleted(table.delete(id).1)) == not_found_view(),
        not_found_view().status == 404,
{
}

/// Deleting a record that exists is answered with 204 and an empty body;
/// finding it afterwards, and deleting it again, with 404.
pub proof fn lemma_deleted_record_answers_not_found(table: TableView, id: int)
    requires
        table.wf(),
        table.contains(id),
    ensures
        outcome_response(OutcomeView::Deleted(table.delete(id).1)) == (ResponseView {
            status: 204,
            challenge: false,
            body: BodyView::Empty,
        }),
        outcome_response(OutcomeView::Viewed(table.delete(id).0.find(id))) == not_found_view(),
        outcome_response(OutcomeView::Deleted(table.delete(id).0.delete(id).1))
            == not_found_view(),
{
    lemma_delete_then_find(table, id);
}

} // verus!
