//! What each call asks of the server and what it is answered, in terms of the call, the
//! open connections and what the server said.

use crate::catalog::{catalogue, index_columns, index_entry, listed};
use crate::config::{requested_config, ConfigView};
use crate::http::{
    engine_message, reason_phrase, status_text, success, BodyForm, HttpEventView, HttpRequestView,
};
use crate::json::{parsed, JsonView};
use crate::laws::options::below;
use crate::output::{response_table, OutputView};
use crate::server::{
    endpoints, indices_outcome, sql_outcome, version_in, version_outcome,
};
use crate::session::{
    connections_after_first, connections_after_next, connections_after_opening,
    first_step, needs_body, next_step, opening_step, usable,
    CallBodyView, CallView, ConnectorView, PendingView, ReplyView, StepView,
};
use crate::text::{decimal, first_chars, trimmed};
use vstd::prelude::*;

verus! {

/// An answer that is a failure with that code and message.
pub open spec fn fails(code: Seq<char>, message: Seq<char>) -> StepView {
    StepView::Answer(ReplyView::Failure { code, message })
}

/// An answer with these members.
pub open spec fn tells(members: Seq<(Seq<char>, JsonView)>) -> StepView {
    StepView::Answer(ReplyView::Fields(members))
}

/// A request without a payload to a path below the connection's URL, with the connection's
/// credentials.
pub open spec fn gets(config: ConfigView, path: Seq<char>, body: BodyForm) -> HttpRequestView {
    HttpRequestView {
        url: config.base_url + path,
        authorization: config.authorization(),
        payload: None,
        body,
    }
}

/// A request that hands the statement to a path below the connection's URL, with the
/// connection's credentials.
pub open spec fn posts(
    config: ConfigView,
    path: Seq<char>,
    statement: Seq<char>,
) -> HttpRequestView {
    HttpRequestView {
        url: config.base_url + path,
        authorization: config.authorization(),
        payload: Some(JsonView::Object(seq![("query"@, JsonView::String(statement))])),
        body: BodyForm::Text,
    }
}

/// The refusal where the open connections cannot be relied on.
pub open spec fn refuses() -> StepView {
    fails("connector.statePoisoned"@, "Connector connection state is poisoned."@)
}

/// The refusal where no connection has the id.
pub open spec fn misses(id: Seq<char>) -> StepView {
    fails("connector.connectionNotFound"@, "no open connection: "@ + id)
}

/// A status that is no success, as messages print it.
pub open spec fn status_line(status: u16) -> Seq<char> {
    decimal(status as nat) + " "@ + reason_phrase(status)
}

/// A number for each method, another for each.
spec fn method_number(method: Seq<char>) -> int {
    if method.len() == 4 {
        1
    } else if method.len() == 5 {
        if method[0] == 'q' {
            2
        } else {
            3
        }
    } else if method.len() == 6 {
        if method[0] == 'h' {
            4
        } else {
            5
        }
    } else if method.len() == 7 {
        6
    } else if method.len() == 8 {
        if method[0] == 'd' {
            7
        } else if method[1] == 'a' {
            8
        } else {
            9
        }
    } else {
        10
    }
}

proof fn lemma_methods()
    ensures
        method_number("ping"@) == 1,
        method_number("query"@) == 2,
        method_number("close"@) == 3,
        method_number("health"@) == 4,
        method_number("config"@) == 5,
        method_number("connect"@) == 6,
        method_number("describe"@) == 7,
        method_number("manifest"@) == 8,
        method_number("metadata"@) == 9,
        method_number("capabilities"@) == 10,
{
    reveal_strlit("ping");
    reveal_strlit("query");
    reveal_strlit("close");
    reveal_strlit("health");
    reveal_strlit("config");
    reveal_strlit("connect");
    reveal_strlit("describe");
    reveal_strlit("manifest");
    reveal_strlit("metadata");
    reveal_strlit("capabilities");
}

/// `health` and `ping` tell the engine, the version of the interface and whether the
/// driver is linked; `describe` and `capabilities` add the manifest and the configuration
/// as JSON, null where their text is none; `manifest` and `config` are these texts as they
/// stand.
pub proof fn law_the_connector_describes_itself(
    connector: ConnectorView,
    connections: Map<Seq<char>, ConfigView>,
    poisoned: bool,
    body: Option<CallBodyView>,
)
    ensures
        ({
            let answer = |method: Seq<char>|
                first_step(connector, connections, poisoned, method, body);
            let short = seq![
                ("engine"@, JsonView::String(connector.engine)),
                ("abiVersion"@, connector.abi_version),
                ("driverLinked"@, JsonView::Bool(connector.driver_linked)),
            ];
            let manifest = match parsed(connector.manifest_json) {
                Some(json) => json,
                None => JsonView::Null,
            };
            let config = match parsed(connector.config_json) {
                Some(json) => json,
                None => JsonView::Null,
            };
            let long = short + seq![("manifest"@, manifest), ("config"@, config)];
            &&& answer("health"@) == tells(short)
            &&& answer("ping"@) == tells(short)
            &&& answer("describe"@) == tells(long)
            &&& answer("capabilities"@) == tells(long)
            &&& answer("manifest"@) == StepView::Answer(ReplyView::Raw(connector.manifest_json))
            &&& answer("config"@) == StepView::Answer(ReplyView::Raw(connector.config_json))
        }),
{
    lemma_methods();
    let short = seq![
        ("engine"@, JsonView::String(connector.engine)),
        ("abiVersion"@, connector.abi_version),
        ("driverLinked"@, JsonView::Bool(connector.driver_linked)),
    ];
    let manifest = match parsed(connector.manifest_json) {
        Some(json) => json,
        None => JsonView::Null,
    };
    let config = match parsed(connector.config_json) {
        Some(json) => json,
        None => JsonView::Null,
    };
    assert(short + seq![("manifest"@, manifest), ("config"@, config)] =~= short.push(
        ("manifest"@, manifest),
    ).push(("config"@, config)));
}

/// A method that is none of the ten is refused by its name. A request that could not be
/// read has its answer already.
pub proof fn law_other_methods_are_unknown(
    connector: ConnectorView,
    connections: Map<Seq<char>, ConfigView>,
    poisoned: bool,
    call: CallView,
    reply: ReplyView,
)
    requires
        ({
            let known = set![
                "health"@,
                "ping"@,
                "describe"@,
                "capabilities"@,
                "manifest"@,
                "config"@,
                "connect"@,
                "query"@,
                "metadata"@,
                "close"@,
            ];
            !known.contains(call.method)
        }),
    ensures
        opening_step(connector, connections, poisoned, Ok(call)) == fails(
            "connector.unknownMethod"@,
            "unknown connector method: "@ + call.method,
        ),
        opening_step(connector, connections, poisoned, Err(reply)) == StepView::Answer(reply),
        !needs_body(call.method),
        needs_body("connect"@) && needs_body("query"@) && needs_body("metadata"@) && needs_body(
            "close"@,
        ),
{
}

/// A call that was read takes the first step of its method.
pub proof fn law_a_read_call_is_taken_up(
    connector: ConnectorView,
    connections: Map<Seq<char>, ConfigView>,
    poisoned: bool,
    call: CallView,
    reply: ReplyView,
)
    ensures
        opening_step(connector, connections, poisoned, Ok(call)) == first_step(
            connector,
            connections,
            poisoned,
            call.method,
            call.body,
        ),
        connections_after_opening(connections, poisoned, Ok(call)) == connections_after_first(
            connections,
            poisoned,
            call.method,
            call.body,
        ),
        connections_after_opening(connections, poisoned, Err(reply)) == connections,
{
}

/// A connect asks the root of the server that its request names for the version, whatever
/// connections are open.
pub proof fn law_a_connect_asks_the_root(
    connector: ConnectorView,
    connections: Map<Seq<char>, ConfigView>,
    poisoned: bool,
    body: CallBodyView,
)
    ensures
        ({
            let config = requested_config(body.value);
            first_step(connector, connections, poisoned, "connect"@, Some(body)) == StepView::Send(
                gets(config, Seq::empty(), BodyForm::Text),
                PendingView::Connect { id: body.connection_id, config },
            )
        }),
{
    lemma_methods();
}

/// A query runs `sql`, else `query`, else `statement`, at the first SQL endpoint of the
/// connection of its id. It is refused without a statement, where the open connections
/// cannot be relied on, and where no connection has the id, in this order.
pub proof fn law_a_query_runs_its_statement(
    connector: ConnectorView,
    connections: Map<Seq<char>, ConfigView>,
    poisoned: bool,
    body: CallBodyView,
    statement: Seq<char>,
)
    ensures
        ({
            let step = first_step(connector, connections, poisoned, "query"@, Some(body));
            let id = body.connection_id;
            let runs = {
                ||| body.sql == Some(statement)
                ||| body.sql is None && body.query == Some(statement)
                ||| body.sql is None && body.query is None && body.statement == Some(statement)
            };
            let config = connections[id];
            let path = if connector.engine == "openSearch"@ || connector.engine == "opensearch"@ {
                "/_plugins/_sql?format=json"@
            } else {
                "/_sql?format=json"@
            };
            &&& body.sql is None && body.query is None && body.statement is None ==> step == fails(
                "connector.invalidRequest"@,
                "query requires a string sql, query, or statement field."@,
            )
            &&& runs && poisoned ==> step == refuses()
            &&& runs && !poisoned && !connections.contains_key(id) ==> step == misses(id)
            &&& runs && !poisoned && connections.contains_key(id) ==> step == StepView::Send(
                posts(config, path, statement),
                PendingView::Query {
                    id,
                    config,
                    statement,
                    max_rows: body.max_rows,
                    endpoint: 0,
                },
            )
        }),
{
    lemma_methods();
}

/// A request for the catalogue asks the server of its connection for the list of the
/// indices. It is refused where the open connections cannot be relied on, and where no
/// connection has the id.
pub proof fn law_a_catalogue_begins_with_the_list(
    connector: ConnectorView,
    connections: Map<Seq<char>, ConfigView>,
    poisoned: bool,
    body: CallBodyView,
)
    ensures
        ({
            let step = first_step(connector, connections, poisoned, "metadata"@, Some(body));
            let id = body.connection_id;
            let config = connections[id];
            &&& poisoned ==> step == refuses()
            &&& !poisoned && !connections.contains_key(id) ==> step == misses(id)
            &&& !poisoned && connections.contains_key(id) ==> step == StepView::Send(
                gets(
                    config,
                    "/_cat/indices?format=json&h=index,health,status,docs.count,store.size"@,
                    BodyForm::Text,
                ),
                PendingView::Indices { id, config },
            )
        }),
{
    lemma_methods();
}

/// A close says whether there was a connection of the id, and there is none afterwards.
/// No other first step changes a connection, and a close changes no other one.
pub proof fn law_a_close_says_what_it_closed(
    connector: ConnectorView,
    connections: Map<Seq<char>, ConfigView>,
    poisoned: bool,
    body: CallBodyView,
    method: Seq<char>,
    other: Seq<char>,
)
    ensures
        ({
            let step = first_step(connector, connections, poisoned, "close"@, Some(body));
            let after = connections_after_first(connections, poisoned, "close"@, Some(body));
            let id = body.connection_id;
            &&& poisoned ==> step == refuses() && after == connections
            &&& !poisoned ==> step == tells(
                seq![
                    ("connectionId"@, JsonView::String(id)),
                    ("closed"@, JsonView::Bool(connections.contains_key(id))),
                ],
            )
            &&& !poisoned ==> !after.contains_key(id)
            &&& other != id ==> after.contains_key(other) == connections.contains_key(other)
            &&& other != id && connections.contains_key(other) ==> after[other]
                == connections[other]
            &&& method != "close"@ ==> connections_after_first(
                connections,
                poisoned,
                method,
                Some(body),
            ) == connections
        }),
{
    lemma_methods();
}

/// The version of a server is the string `number` of the member `version` of its answer,
/// behind the name of the engine; an answer without one has no version.
pub proof fn law_the_version_is_the_number(engine: Seq<char>, answer: JsonView, number: Seq<char>)
    ensures
        ({
            let found = below(answer.get("version"@), "number"@);
            &&& found == Some(JsonView::String(number)) ==> version_in(engine, answer) == Some(
                engine + " "@ + number,
            )
            &&& !(found matches Some(JsonView::String(_))) ==> version_in(engine, answer) is None
        }),
{
}

/// A connect succeeds just where the root answers with a status from 200 to 299. It is
/// answered with the id, the URL and the version where the server tells one, and keeps
/// the connection under its id. Where it fails, the answer says why, redacted, and no
/// connection changes.
pub proof fn law_a_connect_succeeds_with_the_root(
    connector: ConnectorView,
    connections: Map<Seq<char>, ConfigView>,
    poisoned: bool,
    id: Seq<char>,
    config: ConfigView,
    reason: Seq<char>,
    status: u16,
    text: Seq<char>,
)
    ensures
        ({
            let pending = PendingView::Connect { id, config };
            let step = |event: HttpEventView| next_step(connector, poisoned, pending, event);
            let after = |event: HttpEventView|
                connections_after_next(connector, connections, poisoned, pending, event);
            let failed = |message: Seq<char>|
                fails("connector.connectFailed"@, config.redacted(message));
            let aborted = HttpEventView::Aborted(reason);
            let unsent = HttpEventView::Failed(reason);
            let unread = HttpEventView::Unreadable(reason);
            let responded = HttpEventView::Responded { status, text };
            let ok = 200 <= status <= 299;
            let answer = match parsed(text) {
                Some(json) => json,
                None => JsonView::Null,
            };
            let members = seq![
                ("engine"@, JsonView::String(connector.engine)),
                ("connectionId"@, JsonView::String(id)),
                ("driverLinked"@, JsonView::Bool(connector.driver_linked)),
                ("endpoint"@, JsonView::String(config.base_url)),
            ];
            &&& step(aborted) == failed(reason) && after(aborted) == connections
            &&& step(unsent) == failed(connector.engine + " root request failed: "@ + reason)
            &&& after(unsent) == connections
            &&& step(unread) == failed(connector.engine + " response read failed: "@ + reason)
            &&& after(unread) == connections
            &&& !ok ==> step(responded) == failed(
                connector.engine + " root request returned HTTP "@ + (status_line(status) + ": "@
                    + text),
            )
            &&& !ok || poisoned ==> after(responded) == connections
            &&& ok && poisoned ==> step(responded) == refuses()
            &&& ok && !poisoned ==> step(responded) == tells(
                match version_in(connector.engine, answer) {
                    Some(version) => members.push(("serverVersion"@, JsonView::String(version))),
                    None => members,
                },
            )
            &&& ok && !poisoned ==> after(responded) == connections.insert(id, config)
        }),
{
}

/// The SQL endpoints: the plugin of OpenSearch under its present and then its former path,
/// and one path for any other engine.
pub proof fn law_the_endpoints_are_these(engine: Seq<char>)
    ensures
        engine == "openSearch"@ || engine == "opensearch"@ ==> endpoints(engine) == seq![
            "/_plugins/_sql?format=json"@,
            "/_opendistro/_sql?format=json"@,
        ],
        engine != "openSearch"@ && engine != "opensearch"@ ==> endpoints(engine) == seq![
            "/_sql?format=json"@,
        ],
{
}

/// The members of the answer to a query: a name for each column, a list of cells for each
/// row, and the flag.
pub open spec fn shows(
    members: Seq<(Seq<char>, JsonView)>,
    id: Seq<char>,
    table: OutputView,
) -> bool {
    &&& members.len() == 4
    &&& members[0] == ("connectionId"@, JsonView::String(id))
    &&& members[1].0 == "columns"@
    &&& members[1].1 matches JsonView::Array(names) && names.len() == table.columns.len() && forall|
        c: int,
    |
        0 <= c < names.len() ==> #[trigger] names[c] == JsonView::String(table.columns[c])
    &&& members[2].0 == "rows"@
    &&& members[2].1 matches JsonView::Array(rows) && rows.len() == table.rows.len() && forall|
        r: int,
    |
        0 <= r < rows.len() ==> #[trigger] rows[r] == JsonView::Array(table.rows[r])
    &&& members[3] == ("truncated"@, JsonView::Bool(table.truncated))
}

/// A query is answered with the table of the response where the status is from 200 to 299.
/// A status of 404 leads to the next endpoint while there is one. Everything else fails
/// the query, with a redacted message that has at most the first 500 characters of what
/// the server said, without the white space around it.
pub proof fn law_a_query_is_answered_with_the_table(
    connector: ConnectorView,
    poisoned: bool,
    id: Seq<char>,
    config: ConfigView,
    statement: Seq<char>,
    max_rows: nat,
    endpoint: nat,
    reason: Seq<char>,
    status: u16,
    text: Seq<char>,
)
    ensures
        ({
            let pending = PendingView::Query { id, config, statement, max_rows, endpoint };
            let step = |event: HttpEventView| next_step(connector, poisoned, pending, event);
            let failed = |message: Seq<char>|
                fails("connector.queryFailed"@, config.redacted(message));
            let responded = HttpEventView::Responded { status, text };
            let ok = 200 <= status <= 299;
            let said = connector.engine + " SQL returned HTTP "@ + (status_line(status) + ": "@
                + first_chars(trimmed(text), 500));
            let more = endpoint + 1 < endpoints(connector.engine).len();
            let value = match parsed(text) {
                Some(json) => json,
                None => JsonView::Null,
            };
            &&& step(HttpEventView::Aborted(reason)) == failed(reason)
            &&& step(HttpEventView::Failed(reason)) == failed(
                connector.engine + " SQL request failed: "@ + reason,
            )
            &&& step(HttpEventView::Unreadable(reason)) == failed(
                connector.engine + " SQL response read failed: "@ + reason,
            )
            &&& !ok && (status != 404 || !more) ==> step(responded) == failed(said)
            &&& status == 404 && more ==> step(responded) == StepView::Send(
                posts(config, endpoints(connector.engine)[endpoint as int + 1], statement),
                PendingView::Query { id, config, statement, max_rows, endpoint: endpoint + 1 },
            )
            &&& ok ==> (step(responded) matches StepView::Answer(ReplyView::Fields(members))
                && shows(members, id, response_table(value, max_rows)))
        }),
{
}

/// The list of the indices leads to the mapping of the first of them, and straight to the
/// catalogue where there is none. A mapping leads to that of the next index, and that of
/// the last one to the catalogue with an entry for each, in order.
pub proof fn law_the_catalogue_grows_by_one_entry(
    connector: ConnectorView,
    poisoned: bool,
    id: Seq<char>,
    config: ConfigView,
    indices: Seq<(Seq<char>, JsonView)>,
    entries: Seq<JsonView>,
    event: HttpEventView,
    reason: Seq<char>,
    status: u16,
    text: Seq<char>,
)
    ensures
        ({
            let goes_on = |all: Seq<(Seq<char>, JsonView)>, done: Seq<JsonView>|
                if done.len() < all.len() {
                    StepView::Send(
                        gets(
                            config,
                            "/"@ + all[done.len() as int].0 + "/_mapping"@,
                            BodyForm::Json,
                        ),
                        PendingView::Mapping { id, config, indices: all, entries: done },
                    )
                } else {
                    tells(
                        seq![
                            ("connectionId"@, JsonView::String(id)),
                            ("metadata"@, catalogue(done)),
                        ],
                    )
                };
            let step = |pending: PendingView, event: HttpEventView|
                next_step(connector, poisoned, pending, event);
            let failed = |message: Seq<char>|
                fails("connector.metadataFailed"@, config.redacted(message));
            let list = PendingView::Indices { id, config };
            let mapping = PendingView::Mapping { id, config, indices, entries };
            let responded = HttpEventView::Responded { status, text };
            let ok = 200 <= status <= 299;
            let index = indices[entries.len() as int];
            &&& step(list, HttpEventView::Aborted(reason)) == failed(reason)
            &&& step(list, HttpEventView::Failed(reason)) == failed(
                connector.engine + " index metadata request failed: "@ + reason,
            )
            &&& step(list, HttpEventView::Unreadable(reason)) == failed(
                connector.engine + " metadata response read failed: "@ + reason,
            )
            &&& !ok ==> step(list, responded) == failed(
                connector.engine + " metadata returned HTTP "@ + (status_line(status) + ": "@
                    + text),
            )
            &&& ok ==> step(list, responded) == goes_on(listed(text), Seq::empty())
            &&& step(mapping, HttpEventView::Aborted(reason)) == failed(reason)
            &&& !(event is Aborted) && entries.len() < indices.len() ==> step(mapping, event)
                == goes_on(
                indices,
                entries.push(
                    index_entry(
                        index.0,
                        index.1,
                        index_columns(connector.engine, index.0, event),
                    ),
                ),
            )
        }),
{
}

/// A status from 200 to 299 means success, and no other; a status has three digits. Statuses and messages are printed
/// in this way, and JSON bodies are read only on success.
pub proof fn law_statuses_and_messages(
    status: u16,
    engine: Seq<char>,
    what: Seq<char>,
    detail: Seq<char>,
)
    ensures
        success(status) <==> 200 <= status <= 299,
        status_text(status) == status_line(status),
        engine_message(engine, what, detail) == engine + what + detail,
        BodyForm::Text.reads(status),
        BodyForm::Json.reads(status) <==> 200 <= status <= 299,
        (HttpEventView::Responded { status, text: detail }).well_formed() <==> 100 <= status <= 999,
        HttpEventView::Aborted(detail).well_formed(),
        HttpEventView::Failed(detail).well_formed(),
        HttpEventView::Unreadable(detail).well_formed(),
{
}

/// A connection can be used just where the open connections can be relied on and one has
/// the id.
pub proof fn law_connections_are_found_by_their_id(
    connections: Map<Seq<char>, ConfigView>,
    poisoned: bool,
    id: Seq<char>,
)
    ensures
        ({
            let found = usable(connections, poisoned, id);
            &&& found is Ok <==> !poisoned && connections.contains_key(id)
            &&& found is Ok ==> found->Ok_0 == connections[id]
            &&& poisoned ==> StepView::Answer(found->Err_0) == refuses()
            &&& !poisoned && !connections.contains_key(id) ==> StepView::Answer(found->Err_0)
                == misses(id)
        }),
{
}

/// What running a statement, asking for the version and listing the indices come to agrees
/// with what the calls are answered: a failure is a message, a success is none.
pub proof fn law_outcomes_follow_the_status(
    engine: Seq<char>,
    status: u16,
    text: Seq<char>,
    cap: nat,
)
    ensures
        ({
            let event = HttpEventView::Responded { status, text };
            let ok = 200 <= status <= 299;
            &&& version_outcome(engine, event) is Ok <==> ok
            &&& indices_outcome(engine, event) is Ok <==> ok
            &&& ok ==> indices_outcome(engine, event)->Ok_0 == listed(text)
            &&& sql_outcome(engine, event, cap) is Table <==> ok
            &&& sql_outcome(engine, event, cap) is NotThere <==> status == 404
            &&& sql_outcome(engine, event, cap) is Failed <==> !ok && status != 404
        }),
{
}

} // verus!
