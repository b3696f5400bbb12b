//! The path of one request through ingestion.
//!
//! A request is received, verified, decoded, persisted and answered, in that
//! order. Verification, decoding and persistence can each fail, and a failure
//! ends the request with a rejection. Persisting is the caller's work: the
//! request stays decoded until the caller reports how it went.
use vstd::prelude::*;
use vstd::utf8::encode_utf8;
use vstd::string::*;
use crate::event::{decode, decoded, outcome, Event, EventView};
use crate::pool::PoolError;
use crate::signature::{valid_signature, verify};

verus! {

/// The status of a request that was ingested.
pub const STATUS_OK: u16 = 200;

/// The status of a request whose signature is missing or wrong.
pub const STATUS_UNAUTHORIZED: u16 = 401;

/// The status of a request whose payload cannot be decoded.
pub const STATUS_BAD_REQUEST: u16 = 400;

/// The status of a request whose event could not be persisted.
pub const STATUS_INTERNAL_ERROR: u16 = 500;

/// What arrived: the raw body and the value of the signature header, if the
/// header was there.
#[derive(Debug, PartialEq, Eq)]
pub struct RawRequest {
    pub body: Vec<u8>,
    pub signature: Option<String>,
}

/// The mathematical value of a [`RawRequest`].
pub struct RequestView {
    pub body: Seq<u8>,
    pub signature: Option<Seq<char>>,
}

impl View for RawRequest {
    type V = RequestView;

    open spec fn view(&self) -> RequestView {
        RequestView {
            body: self.body@,
            signature: match self.signature {
                Some(text) => Some(text@),
                None => None,
            },
        }
    }
}

/// What is sent back.
#[derive(Debug, PartialEq, Eq)]
pub struct Response {
    pub status: u16,
    pub body: String,
}

/// The mathematical value of a [`Response`].
pub struct ResponseView {
    pub status: u16,
    pub body: Seq<char>,
}

impl View for Response {
    type V = ResponseView;

    open spec fn view(&self) -> ResponseView {
        ResponseView { status: self.status, body: self.body@ }
    }
}

/// Why a request was not verified.
#[derive(Debug, Clone, Copy, PartialEq, Eq)]
pub enum AuthError {
    /// The request has no signature header.
    MissingSignature,
    /// The header does not hold a valid signature of the body.
    BadSignature,
}

/// Why an event was not persisted.
#[derive(Debug, Clone, Copy, PartialEq, Eq)]
pub enum PersistError {
    /// No connection could be had from the pool.
    Pool(PoolError),
    /// The database refused the statement.
    Query,
}

/// The stages of a request.
#[derive(Debug, Clone, Copy, PartialEq, Eq)]
pub enum Stage {
    Received,
    Verified,
    Decoded,
    Persisted,
    Responded,
    Rejected,
}

/// A request at some stage, with what it carries there.
#[derive(Debug, PartialEq, Eq)]
pub enum Progress {
    Received(RawRequest),
    Verified(RawRequest),
    Decoded(Event),
    Persisted(Event),
    Responded(Response),
    Rejected(Response),
}

/// The mathematical value of a [`Progress`].
pub enum ProgressView {
    Received(RequestView),
    Verified(RequestView),
    Decoded(EventView),
    Persisted(EventView),
    Responded(ResponseView),
    Rejected(ResponseView),
}

impl View for Progress {
    type V = ProgressView;

    open spec fn view(&self) -> ProgressView {
        match self {
            Progress::Received(request) => ProgressView::Received(request@),
            Progress::Verified(request) => ProgressView::Verified(request@),
            Progress::Decoded(event) => ProgressView::Decoded(event@),
            Progress::Persisted(event) => ProgressView::Persisted(event@),
            Progress::Responded(response) => ProgressView::Responded(response@),
            Progress::Rejected(response) => ProgressView::Rejected(response@),
        }
    }
}

impl ProgressView {
    /// The stage of the request.
    pub open spec fn stage(self) -> Stage {
        match self {
            ProgressView::Received(_) => Stage::Received,
            ProgressView::Verified(_) => Stage::Verified,
            ProgressView::Decoded(_) => Stage::Decoded,
            ProgressView::Persisted(_) => Stage::Persisted,
            ProgressView::Responded(_) => Stage::Responded,
            ProgressView::Rejected(_) => Stage::Rejected,
        }
    }

    /// Whether the request has its answer.
    pub open spec fn terminal(self) -> bool {
        self is Responded || self is Rejected
    }

    /// The request after its next step.
    ///
    /// `persisted` is what the caller reports of persisting the event; it
    /// matters to a decoded request only, which stays as it is until there is
    /// a report.
    pub open spec fn step(self, secret: Seq<u8>, persisted: Option<Result<(), PersistError>>) -> ProgressView {
        match self {
            ProgressView::Received(request) => if authentic(secret, request) {
                ProgressView::Verified(request)
            } else {
                ProgressView::Rejected(refusal(STATUS_UNAUTHORIZED))
            },
            ProgressView::Verified(request) => match decoded(request.body) {
                Ok(event) => ProgressView::Decoded(event),
                Err(_) => ProgressView::Rejected(refusal(STATUS_BAD_REQUEST)),
            },
            ProgressView::Decoded(event) => match persisted {
                None => self,
                Some(Ok(_)) => ProgressView::Persisted(event),
                Some(Err(_)) => ProgressView::Rejected(refusal(STATUS_INTERNAL_ERROR)),
            },
            ProgressView::Persisted(event) => ProgressView::Responded(
                ResponseView { status: STATUS_OK, body: reply_of(event) },
            ),
            ProgressView::Responded(_) => self,
            ProgressView::Rejected(_) => self,
        }
    }
}

/// Whether the request carries a valid signature of its body under `secret`,
/// and why not where it does not.
pub open spec fn authentication(secret: Seq<u8>, request: RequestView) -> Result<(), AuthError> {
    match request.signature {
        None => Err(AuthError::MissingSignature),
        Some(text) => if valid_signature(secret, request.body, encode_utf8(text)) {
            Ok(())
        } else {
            Err(AuthError::BadSignature)
        },
    }
}

/// Whether the request carries a valid signature of its body under `secret`.
/// A request without the header does not.
pub open spec fn authentic(secret: Seq<u8>, request: RequestView) -> bool {
    authentication(secret, request) is Ok
}

/// The text that answers an event: the field that identifies it.
pub open spec fn reply_of(event: EventView) -> Seq<char> {
    match event {
        EventView::Push { before, commits } => before,
        EventView::Generic { action } => action,
        EventView::Unrecognized => Seq::empty(),
    }
}

/// The text sent with a status that rejects a request. It names the kind of
/// failure and nothing of its cause.
pub open spec fn reason(status: u16) -> Seq<char> {
    if status == STATUS_UNAUTHORIZED {
        "invalid signature"@
    } else if status == STATUS_BAD_REQUEST {
        "invalid payload"@
    } else {
        "internal error"@
    }
}

/// The response that rejects a request with `status`.
pub open spec fn refusal(status: u16) -> ResponseView {
    ResponseView { status, body: reason(status) }
}

/// The place of a stage in the order of a request.
pub open spec fn rank(stage: Stage) -> nat {
    match stage {
        Stage::Received => 0,
        Stage::Verified => 1,
        Stage::Decoded => 2,
        Stage::Persisted => 3,
        Stage::Responded => 4,
        Stage::Rejected => 4,
    }
}

/// Builds the response that rejects a request with `status`.
fn refuse(status: u16) -> (response: Response)
    ensures
        response@ == refusal(status),
{
    let text = if status == STATUS_UNAUTHORIZED {
        "invalid signature"
    } else if status == STATUS_BAD_REQUEST {
        "invalid payload"
    } else {
        "internal error"
    };
    Response { status, body: String::from_str(text) }
}

/// The response to an event that could not be persisted: status 500 and a
/// text that is the same for every cause.
pub fn internal_error(error: PersistError) -> (response: Response)
    ensures
        response@ == refusal(STATUS_INTERNAL_ERROR),
{
    refuse(STATUS_INTERNAL_ERROR)
}

/// Checks the signature of a request.
pub fn authenticate(secret: &[u8], request: &RawRequest) -> (r: Result<(), AuthError>)
    ensures
        r == authentication(secret@, request@),
{
    match &request.signature {
        None => Err(AuthError::MissingSignature),
        Some(text) => {
            if verify(secret, request.body.as_slice(), text.as_str()) {
                Ok(())
            } else {
                Err(AuthError::BadSignature)
            }
        },
    }
}

/// The text that answers an event.
pub fn reply_text(event: &Event) -> (text: String)
    ensures
        text@ == reply_of(event@),
{
    match event {
        Event::Push { before, commits } => before.clone(),
        Event::Generic { action } => action.clone(),
        Event::Unrecognized => String::new(),
    }
}

impl Progress {
    /// A request that has just arrived.
    pub fn receive(request: RawRequest) -> (progress: Progress)
        ensures
            progress@ == ProgressView::Received(request@),
    {
        Progress::Received(request)
    }

    /// The stage of the request.
    pub fn stage(&self) -> (stage: Stage)
        ensures
            stage == self@.stage(),
    {
        match self {
            Progress::Received(_) => Stage::Received,
            Progress::Verified(_) => Stage::Verified,
            Progress::Decoded(_) => Stage::Decoded,
            Progress::Persisted(_) => Stage::Persisted,
            Progress::Responded(_) => Stage::Responded,
            Progress::Rejected(_) => Stage::Rejected,
        }
    }

    /// Takes the request one step further.
    pub fn step(self, secret: &[u8], persisted: Option<Result<(), PersistError>>) -> (next: Progress)
        ensures
            next@ == self@.step(secret@, persisted),
    {
        match self {
            Progress::Received(request) => {
                match authenticate(secret, &request) {
                    Ok(_) => Progress::Verified(request),
                    Err(_) => Progress::Rejected(refuse(STATUS_UNAUTHORIZED)),
                }
            },
            Progress::Verified(request) => {
                let r = decode(request.body.as_slice());
                assert(outcome(r) == decoded(request@.body));
                match r {
                    Ok(event) => Progress::Decoded(event),
                    Err(_) => Progress::Rejected(refuse(STATUS_BAD_REQUEST)),
                }
            },
            Progress::Decoded(event) => match persisted {
                None => Progress::Decoded(event),
                Some(Ok(_)) => Progress::Persisted(event),
                Some(Err(error)) => Progress::Rejected(internal_error(error)),
            },
            Progress::Persisted(event) => {
                let body = reply_text(&event);
                Progress::Responded(Response { status: STATUS_OK, body })
            },
            Progress::Responded(response) => Progress::Responded(response),
            Progress::Rejected(response) => Progress::Rejected(response),
        }
    }
}

/// Verifies and decodes a request that has just arrived: two steps, after
/// which the request is decoded and waits to be persisted, or is rejected.
pub fn screen(secret: &[u8], request: RawRequest) -> (progress: Progress)
    ensures
        progress@ == ProgressView::Received(request@).step(secret@, None).step(secret@, None),
        progress@ is Decoded || progress@ is Rejected,
{
    Progress::receive(request).step(secret, None).step(secret, None)
}

/// Answers an event of which the caller reports how persisting it went.
pub fn conclude(event: Event, persisted: Result<(), PersistError>) -> (response: Response)
    ensures
        response@ == match persisted {
            Ok(_) => ResponseView { status: STATUS_OK, body: reply_of(event@) },
            Err(_) => refusal(STATUS_INTERNAL_ERROR),
        },
{
    match persisted {
        Ok(_) => {
            let body = reply_text(&event);
            Response { status: STATUS_OK, body }
        },
        Err(error) => internal_error(error),
    }
}

/// A step never takes a request back: it moves it forward in the order of
/// the stages, or leaves it where it is.
pub proof fn lemma_step_moves_forward(
    progress: ProgressView,
    secret: Seq<u8>,
    persisted: Option<Result<(), PersistError>>,
)
    ensures
        rank(progress.stage()) <= rank(progress.step(secret, persisted).stage()),
        progress.step(secret, persisted).stage() == progress.stage() ==> progress.step(
            secret,
            persisted,
        ) == progress,
{
}

/// A request that has its answer keeps it.
pub proof fn lemma_terminal_is_final(
    progress: ProgressView,
    secret: Seq<u8>,
    persisted: Option<Result<(), PersistError>>,
)
    requires
        progress.terminal(),
    ensures
        progress.step(secret, persisted) == progress,
{
}

/// A request is rejected only before it is persisted, and with the status of
/// the stage in which it failed: 401 on arrival, 400 once verified, 500 once
/// decoded.
pub proof fn lemma_rejection_precedes_persistence(
    progress: ProgressView,
    secret: Seq<u8>,
    persisted: Option<Result<(), PersistError>>,
)
    requires
        !(progress is Rejected),
        progress.step(secret, persisted) is Rejected,
    ensures
        progress.stage() == Stage::Received || progress.stage() == Stage::Verified
            || progress.stage() == Stage::Decoded,
        progress.step(secret, persisted) == ProgressView::Rejected(
            refusal(
                match progress.stage() {
                    Stage::Received => STATUS_UNAUTHORIZED,
                    Stage::Verified => STATUS_BAD_REQUEST,
                    _ => STATUS_INTERNAL_ERROR,
                },
            ),
        ),
{
}

/// What is sent back in the end says nothing of the secret or of the cause
/// of a failure: it is the reply of the event with status 200, or one of the
/// three fixed rejections.
pub proof fn lemma_answers_are_fixed(
    progress: ProgressView,
    secret: Seq<u8>,
    persisted: Option<Result<(), PersistError>>,
)
    requires
        !progress.terminal(),
    ensures
        match progress.step(secret, persisted) {
            ProgressView::Responded(response) => progress matches ProgressView::Persisted(event)
                && response == (ResponseView { status: STATUS_OK, body: reply_of(event) }),
            ProgressView::Rejected(response) => response == refusal(STATUS_UNAUTHORIZED)
                || response == refusal(STATUS_BAD_REQUEST) || response == refusal(
                STATUS_INTERNAL_ERROR,
            ),
            _ => true,
        },
{
}

} // verus!
