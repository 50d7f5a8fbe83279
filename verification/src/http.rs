//! Requests to the server, and what comes of them.

use crate::config::{Authorization, AuthorizationView};
use crate::json::{content, Json, JsonView};
use crate::text::decimal;
use vstd::prelude::*;

verus! {

/// How the body of a response is read.
#[derive(Clone, Copy, Debug, PartialEq, Eq, Structural)]
pub enum BodyForm {
    /// As text in the character set that the response declares.
    Text,
    /// As JSON, which is UTF-8 and nothing else, and only where the status means success.
    Json,
}

impl BodyForm {
    /// Whether the body of a response with that status is read at all.
    pub open spec fn reads(self, status: u16) -> bool {
        self is Text || success(status)
    }

    /// Whether the body of a response with that status is read at all. The text of one
    /// that is not read counts as empty.
    pub fn is_read(self, status: u16) -> (yes: bool)
        ensures
            yes == self.reads(status),
    {
        match self {
            BodyForm::Text => true,
            BodyForm::Json => is_success(status),
        }
    }
}

/// A request to the server. One with a payload is a `POST` of JSON, one without is a
/// `GET`.
#[derive(Debug, PartialEq, Eq)]
pub struct HttpRequest {
    pub url: String,
    pub authorization: Authorization,
    pub payload: Option<Json>,
    pub body: BodyForm,
}

/// What a request to the server holds, as mathematical data.
pub struct HttpRequestView {
    pub url: Seq<char>,
    pub authorization: AuthorizationView,
    pub payload: Option<JsonView>,
    pub body: BodyForm,
}

impl View for HttpRequest {
    type V = HttpRequestView;

    open spec fn view(&self) -> HttpRequestView {
        HttpRequestView {
            url: self.url@,
            authorization: self.authorization@,
            payload: content(self.payload),
            body: self.body,
        }
    }
}

/// What came of a request to the server.
#[derive(Debug, PartialEq, Eq)]
pub enum HttpEvent {
    /// Nothing could be sent at all; the text says why.
    Aborted(String),
    /// The request failed; the text says why.
    Failed(String),
    /// A response came, but its body could not be read; the text says why.
    Unreadable(String),
    /// A response came.
    Responded { status: u16, text: String },
}

/// What came of a request to the server, as mathematical data.
pub enum HttpEventView {
    Aborted(Seq<char>),
    Failed(Seq<char>),
    Unreadable(Seq<char>),
    Responded { status: u16, text: Seq<char> },
}

impl View for HttpEvent {
    type V = HttpEventView;

    open spec fn view(&self) -> HttpEventView {
        match self {
            HttpEvent::Aborted(reason) => HttpEventView::Aborted(reason@),
            HttpEvent::Failed(reason) => HttpEventView::Failed(reason@),
            HttpEvent::Unreadable(reason) => HttpEventView::Unreadable(reason@),
            HttpEvent::Responded { status, text } => HttpEventView::Responded {
                status: *status,
                text: text@,
            },
        }
    }
}

impl HttpEventView {
    /// The status of a response, where there is one, has three digits.
    pub open spec fn well_formed(self) -> bool {
        self matches HttpEventView::Responded { status, .. } ==> 100 <= status <= 999
    }
}

/// Whether a status means success.
pub open spec fn success(status: u16) -> bool {
    200 <= status < 300
}

/// Whether a status means success.
pub fn is_success(status: u16) -> (yes: bool)
    ensures
        yes == success(status),
{
    200 <= status && status < 300
}

/// The standard reason phrase of a status, or the words that stand for an unknown one.
pub uninterp spec fn reason_phrase(status: u16) -> Seq<char>;

/// A status as messages print it: its number and its reason phrase.
pub open spec fn status_text(status: u16) -> Seq<char> {
    decimal(status as nat) + " "@ + reason_phrase(status)
}

/// `reqwest::StatusCode` and its `Display`: the number, a space, and the canonical
/// reason of the status or the words for an unknown one. There are status codes from
/// 100 to 999 only.
#[verifier::external_body]
pub(crate) fn print_status(status: u16) -> (text: String)
    requires
        100 <= status <= 999,
    ensures
        text@ == decimal(status as nat) + " "@ + reason_phrase(status),
{
    reqwest::StatusCode::from_u16(status).unwrap().to_string()
}

/// A message about the engine.
pub open spec fn engine_message(engine: Seq<char>, what: Seq<char>, detail: Seq<char>) -> Seq<char> {
    engine + what + detail
}

/// A message about the engine.
pub fn message(engine: &str, what: &str, detail: &str) -> (text: String)
    ensures
        text@ == engine_message(engine@, what@, detail@),
{
    let mut text = engine.to_owned();
    text.append(what);
    text.append(detail);
    text
}

} // verus!
