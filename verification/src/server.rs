//! What the server is asked, and what its answers mean.

use crate::catalog::{listed, listed_indices};
use crate::config::{ConfigView, SearchConnection};
use crate::http::{
    engine_message, is_success, message, print_status, status_text, success, BodyForm, HttpEvent,
    HttpEventView, HttpRequest, HttpRequestView,
};
use crate::json::{
    get_at, json_text, lemma_object_view, member_views, or_null, parse_or_null, parsed, str_at,
    Json, JsonView,
};
use crate::output::{output_view, response_table, sql_response_to_output, OutputView, QueryOutput};
use crate::text::{first_chars, leading, same_text, text_of, trim, trimmed};
use vstd::prelude::*;

verus! {

/// Whether the engine is OpenSearch, by its engine id or by its lower-case name.
pub open spec fn is_opensearch(engine: Seq<char>) -> bool {
    engine == "openSearch"@ || engine == "opensearch"@
}

/// Where SQL statements go, the first endpoint first: to the SQL plugin of OpenSearch
/// under its present and its former path, and to the one SQL endpoint of any other
/// engine.
pub open spec fn endpoints(engine: Seq<char>) -> Seq<Seq<char>> {
    if is_opensearch(engine) {
        seq!["/_plugins/_sql?format=json"@, "/_opendistro/_sql?format=json"@]
    } else {
        seq!["/_sql?format=json"@]
    }
}

/// Where SQL statements go, the first endpoint first.
pub fn sql_endpoints(engine: &str) -> (paths: Vec<&'static str>)
    ensures
        paths@.map_values(|path: &'static str| path@) == endpoints(engine@),
{
    let paths = if same_text(engine, "openSearch") || same_text(engine, "opensearch") {
        vec!["/_plugins/_sql?format=json", "/_opendistro/_sql?format=json"]
    } else {
        vec!["/_sql?format=json"]
    };
    assert(paths@.map_values(|path: &'static str| path@) =~= endpoints(engine@));
    paths
}

/// A `GET` of a path below the server's URL.
pub open spec fn get_request(config: ConfigView, path: Seq<char>, body: BodyForm) -> HttpRequestView {
    HttpRequestView {
        url: config.base_url + path,
        authorization: config.authorization(),
        payload: None,
        body,
    }
}

/// The request that asks for the server's version.
pub open spec fn root_request(config: ConfigView) -> HttpRequestView {
    get_request(config, Seq::empty(), BodyForm::Text)
}

/// The request that runs a statement at one of the SQL endpoints.
pub open spec fn sql_request(
    config: ConfigView,
    endpoint: Seq<char>,
    statement: Seq<char>,
) -> HttpRequestView {
    HttpRequestView {
        url: config.base_url + endpoint,
        authorization: config.authorization(),
        payload: Some(JsonView::Object(seq![("query"@, JsonView::String(statement))])),
        body: BodyForm::Text,
    }
}

/// The request that lists the indices.
pub open spec fn indices_request(config: ConfigView) -> HttpRequestView {
    get_request(
        config,
        "/_cat/indices?format=json&h=index,health,status,docs.count,store.size"@,
        BodyForm::Text,
    )
}

/// The request for the mapping of an index.
pub open spec fn mapping_request(config: ConfigView, index: Seq<char>) -> HttpRequestView {
    get_request(config, "/"@ + index + "/_mapping"@, BodyForm::Json)
}

/// A `GET` of a path below the server's URL.
fn get(connection: &SearchConnection, path: &str, body: BodyForm) -> (request: HttpRequest)
    ensures
        request@ == get_request(connection@, path@, body),
{
    let mut url = connection.config.base_url.clone();
    url.append(path);
    HttpRequest { url, authorization: connection.auth(), payload: None, body }
}

/// The request that asks for the server's version.
pub fn version_call(connection: &SearchConnection) -> (request: HttpRequest)
    ensures
        request@ == root_request(connection@),
{
    assert(""@ =~= Seq::<char>::empty()) by {
        reveal_strlit("");
    }
    get(connection, "", BodyForm::Text)
}

/// The request that runs a statement at one of the SQL endpoints.
pub fn sql_call(connection: &SearchConnection, endpoint: &str, statement: &str) -> (request:
    HttpRequest)
    ensures
        request@ == sql_request(connection@, endpoint@, statement@),
{
    broadcast use lemma_object_view;

    let members = vec![("query".to_owned(), json_text(statement))];
    assert(member_views(members@) =~= seq![("query"@, JsonView::String(statement@))]);
    let mut url = connection.config.base_url.clone();
    url.append(endpoint);
    HttpRequest {
        url,
        authorization: connection.auth(),
        payload: Some(Json::Object(members)),
        body: BodyForm::Text,
    }
}

/// The request that lists the indices.
pub fn indices_call(connection: &SearchConnection) -> (request: HttpRequest)
    ensures
        request@ == indices_request(connection@),
{
    get(
        connection,
        "/_cat/indices?format=json&h=index,health,status,docs.count,store.size",
        BodyForm::Text,
    )
}

/// The request for the mapping of an index.
pub fn mapping_call(connection: &SearchConnection, index: &str) -> (request: HttpRequest)
    ensures
        request@ == mapping_request(connection@, index@),
{
    let mut path = "/".to_owned();
    path.append(index);
    path.append("/_mapping");
    get(connection, path.as_str(), BodyForm::Json)
}

/// A status and the text that came with it.
pub open spec fn status_detail(status: u16, text: Seq<char>) -> Seq<char> {
    status_text(status) + ": "@ + text
}

/// A message about a response that is no success: its status as it is printed, and
/// the text that came with it.
pub fn http_failure(engine: &str, what: &str, status_line: &str, text: &str) -> (message: String)
    ensures
        message@ == engine@ + what@ + (status_line@ + ": "@ + text@),
{
    let mut message = engine.to_owned();
    message.append(what);
    message.append(status_line);
    message.append(": ");
    message.append(text);
    assert(message@ =~= engine@ + what@ + (status_line@ + ": "@ + text@));
    message
}

/// The version that the answer of the server's root gives, named after the engine.
pub open spec fn version_in(engine: Seq<char>, answer: JsonView) -> Option<Seq<char>> {
    match str_at(get_at(answer.get("version"@), "number"@)) {
        Some(number) => Some(engine + " "@ + number),
        None => None,
    }
}

/// What asking for the version led to: a version or none, or a message of failure.
pub open spec fn version_outcome(
    engine: Seq<char>,
    event: HttpEventView,
) -> Result<Option<Seq<char>>, Seq<char>> {
    match event {
        HttpEventView::Aborted(reason) => Err(reason),
        HttpEventView::Failed(reason) => Err(
            engine_message(engine, " root request failed: "@, reason),
        ),
        HttpEventView::Unreadable(reason) => Err(
            engine_message(engine, " response read failed: "@, reason),
        ),
        HttpEventView::Responded { status, text } => if success(status) {
            Ok(version_in(engine, or_null(parsed(text))))
        } else {
            Err(
                engine_message(
                    engine,
                    " root request returned HTTP "@,
                    status_detail(status, text),
                ),
            )
        },
    }
}

/// The version that the answer of the server's root gives, named after the engine.
pub fn server_version(engine: &str, answer: &Json) -> (version: Option<String>)
    ensures
        text_of(version) == version_in(engine@, answer@),
{
    if let Some(version) = answer.get("version") {
        if let Some(number) = version.get("number") {
            if let Some(number) = number.as_str() {
                let mut named = engine.to_owned();
                named.append(" ");
                named.append(number);
                return Some(named);
            }
        }
    }
    None
}

/// What asking for the version led to: a version or none, or a message of failure.
pub fn load_version(engine: &str, event: &HttpEvent) -> (outcome: Result<Option<String>, String>)
    requires
        event@.well_formed(),
    ensures
        (match outcome {
            Ok(version) => version_outcome(engine@, event@) == Ok::<_, Seq<char>>(
                text_of(version),
            ),
            Err(text) => version_outcome(engine@, event@) == Err::<Option<Seq<char>>, _>(text@),
        }),
{
    match event {
        HttpEvent::Aborted(reason) => Err(reason.clone()),
        HttpEvent::Failed(reason) => Err(
            message(engine, " root request failed: ", reason.as_str()),
        ),
        HttpEvent::Unreadable(reason) => Err(
            message(engine, " response read failed: ", reason.as_str()),
        ),
        HttpEvent::Responded { status, text } => {
            if is_success(*status) {
                Ok(server_version(engine, &parse_or_null(text.as_str())))
            } else {
                let line = print_status(*status);
                Err(
                    http_failure(
                        engine,
                        " root request returned HTTP ",
                        line.as_str(),
                        text.as_str(),
                    ),
                )
            }
        },
    }
}

/// What running a statement at one endpoint led to.
#[derive(Debug, PartialEq, Eq)]
pub enum SqlOutcome {
    /// A table.
    Table(QueryOutput),
    /// The endpoint is not there; the message is for the case that no other is left.
    NotThere(String),
    /// A failure that ends the query.
    Failed(String),
}

/// What running a statement at one endpoint led to, as mathematical data.
pub enum SqlOutcomeView {
    Table(OutputView),
    NotThere(Seq<char>),
    Failed(Seq<char>),
}

impl View for SqlOutcome {
    type V = SqlOutcomeView;

    open spec fn view(&self) -> SqlOutcomeView {
        match self {
            SqlOutcome::Table(output) => SqlOutcomeView::Table(output_view(*output)),
            SqlOutcome::NotThere(message) => SqlOutcomeView::NotThere(message@),
            SqlOutcome::Failed(message) => SqlOutcomeView::Failed(message@),
        }
    }
}

/// What running a statement at one endpoint led to. Only a status of 404 says that the
/// endpoint is not there.
pub open spec fn sql_outcome(engine: Seq<char>, event: HttpEventView, cap: nat) -> SqlOutcomeView {
    match event {
        HttpEventView::Aborted(reason) => SqlOutcomeView::Failed(reason),
        HttpEventView::Failed(reason) => SqlOutcomeView::Failed(
            engine_message(engine, " SQL request failed: "@, reason),
        ),
        HttpEventView::Unreadable(reason) => SqlOutcomeView::Failed(
            engine_message(engine, " SQL response read failed: "@, reason),
        ),
        HttpEventView::Responded { status, text } => if success(status) {
            SqlOutcomeView::Table(response_table(or_null(parsed(text)), cap))
        } else {
            let message = engine_message(
                engine,
                " SQL returned HTTP "@,
                status_detail(status, first_chars(trimmed(text), 500)),
            );
            if status == 404 {
                SqlOutcomeView::NotThere(message)
            } else {
                SqlOutcomeView::Failed(message)
            }
        },
    }
}

/// What running a statement at one endpoint led to.
pub fn run_sql(engine: &str, event: &HttpEvent, cap: usize) -> (outcome: SqlOutcome)
    requires
        event@.well_formed(),
    ensures
        outcome@ == sql_outcome(engine@, event@, cap as nat),
{
    match event {
        HttpEvent::Aborted(reason) => SqlOutcome::Failed(reason.clone()),
        HttpEvent::Failed(reason) => SqlOutcome::Failed(
            message(engine, " SQL request failed: ", reason.as_str()),
        ),
        HttpEvent::Unreadable(reason) => SqlOutcome::Failed(
            message(engine, " SQL response read failed: ", reason.as_str()),
        ),
        HttpEvent::Responded { status, text } => {
            if is_success(*status) {
                SqlOutcome::Table(sql_response_to_output(text.as_str(), cap))
            } else {
                let line = print_status(*status);
                let text = http_failure(
                    engine,
                    " SQL returned HTTP ",
                    line.as_str(),
                    leading(trim(text.as_str()), 500),
                );
                if *status == 404 {
                    SqlOutcome::NotThere(text)
                } else {
                    SqlOutcome::Failed(text)
                }
            }
        },
    }
}

/// What listing the indices led to: the indices with their names, or a message of
/// failure.
pub open spec fn indices_outcome(
    engine: Seq<char>,
    event: HttpEventView,
) -> Result<Seq<(Seq<char>, JsonView)>, Seq<char>> {
    match event {
        HttpEventView::Aborted(reason) => Err(reason),
        HttpEventView::Failed(reason) => Err(
            engine_message(engine, " index metadata request failed: "@, reason),
        ),
        HttpEventView::Unreadable(reason) => Err(
            engine_message(engine, " metadata response read failed: "@, reason),
        ),
        HttpEventView::Responded { status, text } => if success(status) {
            Ok(listed(text))
        } else {
            Err(engine_message(engine, " metadata returned HTTP "@, status_detail(status, text)))
        },
    }
}

/// What listing the indices led to: the indices with their names, or a message of
/// failure.
pub fn load_indices(engine: &str, event: &HttpEvent) -> (outcome: Result<
    Vec<(String, Json)>,
    String,
>)
    requires
        event@.well_formed(),
    ensures
        (match outcome {
            Ok(indices) => indices_outcome(engine@, event@) == Ok::<_, Seq<char>>(
                member_views(indices@),
            ),
            Err(text) => indices_outcome(engine@, event@) == Err::<
                Seq<(Seq<char>, JsonView)>,
                _,
            >(text@),
        }),
{
    match event {
        HttpEvent::Aborted(reason) => Err(reason.clone()),
        HttpEvent::Failed(reason) => Err(
            message(engine, " index metadata request failed: ", reason.as_str()),
        ),
        HttpEvent::Unreadable(reason) => Err(
            message(engine, " metadata response read failed: ", reason.as_str()),
        ),
        HttpEvent::Responded { status, text } => {
            if is_success(*status) {
                Ok(listed_indices(text.as_str()))
            } else {
                let line = print_status(*status);
                Err(http_failure(engine, " metadata returned HTTP ", line.as_str(), text.as_str()))
            }
        },
    }
}

} // verus!
