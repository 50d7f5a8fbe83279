//! Calls to the connector: what each method answers, and which requests to the server
//! it takes to get there.

use crate::catalog::{catalogue, catalogue_json, index_columns, index_entry, index_object};
use crate::config::{requested_config, ConfigView, SearchConfig, SearchConnection};
use crate::http::{HttpEvent, HttpEventView, HttpRequest, HttpRequestView};
use crate::json::{
    json_text, lemma_array_view, lemma_member_views_push, lemma_views_push, member_views, or_null,
    parse_or_null, parsed, views, Json, JsonView,
};
use crate::output::{output_view, row_views, OutputView, QueryOutput};
use crate::server::{
    endpoints, indices_call, indices_outcome, indices_request, load_indices, load_version,
    mapping_call, mapping_request, root_request, run_sql, sql_call, sql_endpoints, sql_outcome,
    sql_request, version_call, version_outcome, SqlOutcome, SqlOutcomeView,
};
use crate::text::{same_text, text_of, texts};
use vstd::hash_map::StringHashMap;
use vstd::prelude::*;

verus! {

/// What a connector says of itself.
#[derive(Debug, PartialEq, Eq)]
pub struct Connector {
    pub engine: String,
    pub abi_version: Json,
    pub driver_linked: bool,
    /// The text of the extension's manifest.
    pub manifest_json: String,
    /// The text of the connector's configuration.
    pub config_json: String,
}

/// What a connector says of itself, as mathematical data.
pub struct ConnectorView {
    pub engine: Seq<char>,
    pub abi_version: JsonView,
    pub driver_linked: bool,
    pub manifest_json: Seq<char>,
    pub config_json: Seq<char>,
}

impl View for Connector {
    type V = ConnectorView;

    open spec fn view(&self) -> ConnectorView {
        ConnectorView {
            engine: self.engine@,
            abi_version: self.abi_version@,
            driver_linked: self.driver_linked,
            manifest_json: self.manifest_json@,
            config_json: self.config_json@,
        }
    }
}

/// What a call hands over besides its method.
#[derive(Debug, PartialEq, Eq)]
pub struct CallBody {
    pub connection_id: String,
    pub sql: Option<String>,
    pub query: Option<String>,
    pub statement: Option<String>,
    /// The most rows that an answer may have.
    pub max_rows: usize,
    /// The whole request.
    pub value: Json,
}

/// What a call hands over besides its method, as mathematical data.
pub struct CallBodyView {
    pub connection_id: Seq<char>,
    pub sql: Option<Seq<char>>,
    pub query: Option<Seq<char>>,
    pub statement: Option<Seq<char>>,
    pub max_rows: nat,
    pub value: JsonView,
}

impl View for CallBody {
    type V = CallBodyView;

    open spec fn view(&self) -> CallBodyView {
        CallBodyView {
            connection_id: self.connection_id@,
            sql: text_of(self.sql),
            query: text_of(self.query),
            statement: text_of(self.statement),
            max_rows: self.max_rows as nat,
            value: self.value@,
        }
    }
}

impl CallBodyView {
    /// The statement to run: the first that there is of `sql`, `query` and `statement`.
    pub open spec fn text(self) -> Option<Seq<char>> {
        match (self.sql, self.query, self.statement) {
            (Some(sql), _, _) => Some(sql),
            (None, Some(query), _) => Some(query),
            (None, None, statement) => statement,
        }
    }
}

/// A call to the connector.
#[derive(Debug, PartialEq, Eq)]
pub struct CallRequest {
    pub method: String,
    pub body: Option<CallBody>,
}

/// A call to the connector, as mathematical data.
pub struct CallView {
    pub method: Seq<char>,
    pub body: Option<CallBodyView>,
}

impl View for CallRequest {
    type V = CallView;

    open spec fn view(&self) -> CallView {
        CallView { method: self.method@, body: body_view(self.body) }
    }
}

/// What reading a request came to: a call, or the answer to a request that is none.
pub open spec fn request_view(request: Result<CallRequest, Reply>) -> Result<CallView, ReplyView> {
    match request {
        Ok(call) => Ok(call@),
        Err(reply) => Err(reply@),
    }
}

/// Whether a method needs more than its name.
pub open spec fn needs_body(method: Seq<char>) -> bool {
    method == "connect"@ || method == "query"@ || method == "metadata"@ || method == "close"@
}

/// Whether a method needs more than its name.
pub fn takes_body(method: &str) -> (yes: bool)
    ensures
        yes == needs_body(method@),
{
    same_text(method, "connect") || same_text(method, "query") || same_text(method, "metadata")
        || same_text(method, "close")
}

/// The answer to a call.
#[derive(Debug, PartialEq, Eq)]
pub enum Reply {
    /// Success, with these members of the answer.
    Fields(Vec<(String, Json)>),
    /// A text that is the whole answer.
    Raw(String),
    /// Failure, with a code and a message.
    Failure { code: String, message: String },
}

/// The answer to a call, as mathematical data.
pub enum ReplyView {
    Fields(Seq<(Seq<char>, JsonView)>),
    Raw(Seq<char>),
    Failure { code: Seq<char>, message: Seq<char> },
}

impl View for Reply {
    type V = ReplyView;

    open spec fn view(&self) -> ReplyView {
        match self {
            Reply::Fields(members) => ReplyView::Fields(member_views(members@)),
            Reply::Raw(text) => ReplyView::Raw(text@),
            Reply::Failure { code, message } => ReplyView::Failure {
                code: code@,
                message: message@,
            },
        }
    }
}

/// A call that waits for the server.
#[derive(Debug, PartialEq, Eq)]
pub enum Pending {
    /// Waits for the version.
    Connect { connection_id: String, connection: SearchConnection },
    /// Waits for the outcome of the statement at the endpoint of that number.
    Query {
        connection_id: String,
        connection: SearchConnection,
        statement: String,
        max_rows: usize,
        endpoint: usize,
    },
    /// Waits for the list of the indices.
    Indices { connection_id: String, connection: SearchConnection },
    /// Waits for the mapping of the first of the indices that has no entry yet.
    Mapping {
        connection_id: String,
        connection: SearchConnection,
        indices: Vec<(String, Json)>,
        entries: Vec<Json>,
    },
}

/// A call that waits for the server, as mathematical data.
pub enum PendingView {
    Connect { id: Seq<char>, config: ConfigView },
    Query {
        id: Seq<char>,
        config: ConfigView,
        statement: Seq<char>,
        max_rows: nat,
        endpoint: nat,
    },
    Indices { id: Seq<char>, config: ConfigView },
    Mapping {
        id: Seq<char>,
        config: ConfigView,
        indices: Seq<(Seq<char>, JsonView)>,
        entries: Seq<JsonView>,
    },
}

impl View for Pending {
    type V = PendingView;

    open spec fn view(&self) -> PendingView {
        match self {
            Pending::Connect { connection_id, connection } => PendingView::Connect {
                id: connection_id@,
                config: connection@,
            },
            Pending::Query { connection_id, connection, statement, max_rows, endpoint } =>
                PendingView::Query {
                id: connection_id@,
                config: connection@,
                statement: statement@,
                max_rows: *max_rows as nat,
                endpoint: *endpoint as nat,
            },
            Pending::Indices { connection_id, connection } => PendingView::Indices {
                id: connection_id@,
                config: connection@,
            },
            Pending::Mapping { connection_id, connection, indices, entries } =>
                PendingView::Mapping {
                id: connection_id@,
                config: connection@,
                indices: member_views(indices@),
                entries: views(entries@),
            },
        }
    }
}

/// What is next in a call.
#[derive(Debug, PartialEq, Eq)]
pub enum Step {
    /// The call is over.
    Answer(Reply),
    /// The request is to be sent, and the call goes on with what comes of it.
    Send(HttpRequest, Pending),
}

/// What is next in a call, as mathematical data.
pub enum StepView {
    Answer(ReplyView),
    Send(HttpRequestView, PendingView),
}

impl View for Step {
    type V = StepView;

    open spec fn view(&self) -> StepView {
        match self {
            Step::Answer(reply) => StepView::Answer(reply@),
            Step::Send(request, pending) => StepView::Send(request@, pending@),
        }
    }
}

/// The open connections, by their ids.
pub struct Connections {
    open: StringHashMap<SearchConnection>,
}

impl View for Connections {
    type V = Map<Seq<char>, ConfigView>;

    closed spec fn view(&self) -> Map<Seq<char>, ConfigView> {
        self.open@.map_values(|connection: SearchConnection| connection@)
    }
}

impl Connections {
    /// No connection.
    pub fn new() -> (connections: Connections)
        ensures
            connections@ == Map::<Seq<char>, ConfigView>::empty(),
    {
        let connections = Connections { open: StringHashMap::new() };
        assert(connections@ =~= Map::empty());
        connections
    }

    /// Keeps a connection under an id, in place of any that had the id.
    pub fn insert(&mut self, connection_id: String, connection: SearchConnection)
        ensures
            final(self)@ == old(self)@.insert(connection_id@, connection@),
    {
        self.open.insert(connection_id, connection);
        assert(self@ =~= old(self)@.insert(connection_id@, connection@));
    }

    /// Forgets the connection of an id, and says whether there was one.
    pub fn remove(&mut self, connection_id: &str) -> (existed: bool)
        ensures
            final(self)@ == old(self)@.remove(connection_id@),
            existed == old(self)@.contains_key(connection_id@),
    {
        let existed = self.open.contains_key(connection_id);
        self.open.remove(connection_id);
        assert(self@ =~= old(self)@.remove(connection_id@));
        existed
    }

    /// A copy of the connection of an id.
    pub fn get(&self, connection_id: &str) -> (connection: Option<SearchConnection>)
        ensures
            (match connection {
                Some(c) => self@.contains_key(connection_id@) && c@ == self@[connection_id@],
                None => !self@.contains_key(connection_id@),
            }),
    {
        match self.open.get(connection_id) {
            Some(connection) => Some(connection.clone()),
            None => None,
        }
    }
}

/// A failure.
pub open spec fn failure(code: Seq<char>, message: Seq<char>) -> ReplyView {
    ReplyView::Failure { code, message }
}

/// The answer where the open connections cannot be relied on.
pub open spec fn poisoned_reply() -> ReplyView {
    failure("connector.statePoisoned"@, "Connector connection state is poisoned."@)
}

/// The answer where no connection has the id.
pub open spec fn not_found_reply(id: Seq<char>) -> ReplyView {
    failure("connector.connectionNotFound"@, "no open connection: "@ + id)
}

/// What a connector says of itself in short.
pub open spec fn health_fields(connector: ConnectorView) -> Seq<(Seq<char>, JsonView)> {
    seq![
        ("engine"@, JsonView::String(connector.engine)),
        ("abiVersion"@, connector.abi_version),
        ("driverLinked"@, JsonView::Bool(connector.driver_linked)),
    ]
}

/// What a connector says of itself at length, with this manifest and configuration.
pub open spec fn description(
    connector: ConnectorView,
    manifest: JsonView,
    config: JsonView,
) -> Seq<(Seq<char>, JsonView)> {
    health_fields(connector).push(("manifest"@, manifest)).push(("config"@, config))
}

/// What a connector says of itself at length.
pub open spec fn describe_fields(connector: ConnectorView) -> Seq<(Seq<char>, JsonView)> {
    description(
        connector,
        or_null(parsed(connector.manifest_json)),
        or_null(parsed(connector.config_json)),
    )
}

/// What a new connection is answered.
pub open spec fn connect_fields(
    connector: ConnectorView,
    id: Seq<char>,
    config: ConfigView,
    version: Option<Seq<char>>,
) -> Seq<(Seq<char>, JsonView)> {
    let fields = seq![
        ("engine"@, JsonView::String(connector.engine)),
        ("connectionId"@, JsonView::String(id)),
        ("driverLinked"@, JsonView::Bool(connector.driver_linked)),
        ("endpoint"@, JsonView::String(config.base_url)),
    ];
    match version {
        Some(version) => fields.push(("serverVersion"@, JsonView::String(version))),
        None => fields,
    }
}

/// What a query is answered.
pub open spec fn query_fields(id: Seq<char>, table: OutputView) -> Seq<(Seq<char>, JsonView)> {
    seq![
        ("connectionId"@, JsonView::String(id)),
        (
            "columns"@,
            JsonView::Array(table.columns.map_values(|name: Seq<char>| JsonView::String(name))),
        ),
        (
            "rows"@,
            JsonView::Array(table.rows.map_values(|row: Seq<JsonView>| JsonView::Array(row))),
        ),
        ("truncated"@, JsonView::Bool(table.truncated)),
    ]
}

/// What a request for the catalogue is answered.
pub open spec fn metadata_fields(
    id: Seq<char>,
    entries: Seq<JsonView>,
) -> Seq<(Seq<char>, JsonView)> {
    seq![("connectionId"@, JsonView::String(id)), ("metadata"@, catalogue(entries))]
}

/// What closing a connection is answered.
pub open spec fn close_fields(id: Seq<char>, existed: bool) -> Seq<(Seq<char>, JsonView)> {
    seq![("connectionId"@, JsonView::String(id)), ("closed"@, JsonView::Bool(existed))]
}

/// The connection of an id, or the answer where there is none to use.
pub open spec fn usable(
    connections: Map<Seq<char>, ConfigView>,
    poisoned: bool,
    id: Seq<char>,
) -> Result<ConfigView, ReplyView> {
    if poisoned {
        Err(poisoned_reply())
    } else if connections.contains_key(id) {
        Ok(connections[id])
    } else {
        Err(not_found_reply(id))
    }
}

/// The first step of a connect.
pub open spec fn connect_step(body: CallBodyView) -> StepView {
    let config = requested_config(body.value);
    StepView::Send(
        root_request(config),
        PendingView::Connect { id: body.connection_id, config },
    )
}

/// The step that runs a statement at the endpoint of that number.
pub open spec fn query_at(
    connector: ConnectorView,
    id: Seq<char>,
    config: ConfigView,
    statement: Seq<char>,
    max_rows: nat,
    endpoint: nat,
) -> StepView {
    StepView::Send(
        sql_request(config, endpoints(connector.engine)[endpoint as int], statement),
        PendingView::Query { id, config, statement, max_rows, endpoint },
    )
}

/// The first step of a query.
pub open spec fn query_step(
    connector: ConnectorView,
    connections: Map<Seq<char>, ConfigView>,
    poisoned: bool,
    body: CallBodyView,
) -> StepView {
    match body.text() {
        None => StepView::Answer(
            failure(
                "connector.invalidRequest"@,
                "query requires a string sql, query, or statement field."@,
            ),
        ),
        Some(statement) => match usable(connections, poisoned, body.connection_id) {
            Err(reply) => StepView::Answer(reply),
            Ok(config) => query_at(
                connector,
                body.connection_id,
                config,
                statement,
                body.max_rows,
                0,
            ),
        },
    }
}

/// The first step of a request for the catalogue.
pub open spec fn metadata_step(
    connections: Map<Seq<char>, ConfigView>,
    poisoned: bool,
    body: CallBodyView,
) -> StepView {
    match usable(connections, poisoned, body.connection_id) {
        Err(reply) => StepView::Answer(reply),
        Ok(config) => StepView::Send(
            indices_request(config),
            PendingView::Indices { id: body.connection_id, config },
        ),
    }
}

/// The only step of a close.
pub open spec fn close_step(
    connections: Map<Seq<char>, ConfigView>,
    poisoned: bool,
    body: CallBodyView,
) -> StepView {
    if poisoned {
        StepView::Answer(poisoned_reply())
    } else {
        StepView::Answer(
            ReplyView::Fields(
                close_fields(body.connection_id, connections.contains_key(body.connection_id)),
            ),
        )
    }
}

/// The first step of a call.
pub open spec fn first_step(
    connector: ConnectorView,
    connections: Map<Seq<char>, ConfigView>,
    poisoned: bool,
    method: Seq<char>,
    body: Option<CallBodyView>,
) -> StepView {
    if method == "health"@ || method == "ping"@ {
        StepView::Answer(ReplyView::Fields(health_fields(connector)))
    } else if method == "describe"@ || method == "capabilities"@ {
        StepView::Answer(ReplyView::Fields(describe_fields(connector)))
    } else if method == "manifest"@ {
        StepView::Answer(ReplyView::Raw(connector.manifest_json))
    } else if method == "config"@ {
        StepView::Answer(ReplyView::Raw(connector.config_json))
    } else if method == "connect"@ {
        connect_step(body->Some_0)
    } else if method == "query"@ {
        query_step(connector, connections, poisoned, body->Some_0)
    } else if method == "metadata"@ {
        metadata_step(connections, poisoned, body->Some_0)
    } else if method == "close"@ {
        close_step(connections, poisoned, body->Some_0)
    } else {
        StepView::Answer(
            failure("connector.unknownMethod"@, "unknown connector method: "@ + method),
        )
    }
}

/// The first step of a call, as reading its request came out: a request that could not
/// be read has its answer already.
pub open spec fn opening_step(
    connector: ConnectorView,
    connections: Map<Seq<char>, ConfigView>,
    poisoned: bool,
    request: Result<CallView, ReplyView>,
) -> StepView {
    match request {
        Ok(call) => first_step(connector, connections, poisoned, call.method, call.body),
        Err(reply) => StepView::Answer(reply),
    }
}

/// The open connections after the first step of a call, as reading its request came out.
pub open spec fn connections_after_opening(
    connections: Map<Seq<char>, ConfigView>,
    poisoned: bool,
    request: Result<CallView, ReplyView>,
) -> Map<Seq<char>, ConfigView> {
    match request {
        Ok(call) => connections_after_first(connections, poisoned, call.method, call.body),
        Err(_) => connections,
    }
}

/// The open connections after the first step of a call.
pub open spec fn connections_after_first(
    connections: Map<Seq<char>, ConfigView>,
    poisoned: bool,
    method: Seq<char>,
    body: Option<CallBodyView>,
) -> Map<Seq<char>, ConfigView> {
    if method == "close"@ && !poisoned {
        connections.remove(body->Some_0.connection_id)
    } else {
        connections
    }
}

/// The step after what came of asking for the version.
pub open spec fn connected_step(
    connector: ConnectorView,
    poisoned: bool,
    id: Seq<char>,
    config: ConfigView,
    event: HttpEventView,
) -> StepView {
    match version_outcome(connector.engine, event) {
        Err(message) => StepView::Answer(
            failure("connector.connectFailed"@, config.redacted(message)),
        ),
        Ok(version) => if poisoned {
            StepView::Answer(poisoned_reply())
        } else {
            StepView::Answer(ReplyView::Fields(connect_fields(connector, id, config, version)))
        },
    }
}

/// The step after what came of running a statement: the next endpoint is tried where
/// this one is not there.
pub open spec fn queried_step(
    connector: ConnectorView,
    id: Seq<char>,
    config: ConfigView,
    statement: Seq<char>,
    max_rows: nat,
    endpoint: nat,
    event: HttpEventView,
) -> StepView {
    match sql_outcome(connector.engine, event, max_rows) {
        SqlOutcomeView::Table(table) => StepView::Answer(ReplyView::Fields(query_fields(id, table))),
        SqlOutcomeView::Failed(message) => StepView::Answer(
            failure("connector.queryFailed"@, config.redacted(message)),
        ),
        SqlOutcomeView::NotThere(message) => if endpoint + 1 < endpoints(connector.engine).len() {
            query_at(connector, id, config, statement, max_rows, endpoint + 1)
        } else {
            StepView::Answer(failure("connector.queryFailed"@, config.redacted(message)))
        },
    }
}

/// The step with these entries of the catalogue: the mapping of the next index is asked
/// for, or the catalogue is complete.
pub open spec fn entered_step(
    id: Seq<char>,
    config: ConfigView,
    indices: Seq<(Seq<char>, JsonView)>,
    entries: Seq<JsonView>,
) -> StepView {
    if entries.len() < indices.len() {
        StepView::Send(
            mapping_request(config, indices[entries.len() as int].0),
            PendingView::Mapping { id, config, indices, entries },
        )
    } else {
        StepView::Answer(ReplyView::Fields(metadata_fields(id, entries)))
    }
}

/// The step after what came of listing the indices.
pub open spec fn listed_step(
    connector: ConnectorView,
    id: Seq<char>,
    config: ConfigView,
    event: HttpEventView,
) -> StepView {
    match indices_outcome(connector.engine, event) {
        Err(message) => StepView::Answer(
            failure("connector.metadataFailed"@, config.redacted(message)),
        ),
        Ok(indices) => entered_step(id, config, indices, Seq::empty()),
    }
}

/// The step after what came of asking for a mapping.
pub open spec fn mapped_step(
    connector: ConnectorView,
    id: Seq<char>,
    config: ConfigView,
    indices: Seq<(Seq<char>, JsonView)>,
    entries: Seq<JsonView>,
    event: HttpEventView,
) -> StepView {
    match event {
        HttpEventView::Aborted(message) => StepView::Answer(
            failure("connector.metadataFailed"@, config.redacted(message)),
        ),
        _ => if entries.len() < indices.len() {
            let index = indices[entries.len() as int];
            entered_step(
                id,
                config,
                indices,
                entries.push(
                    index_entry(
                        index.0,
                        index.1,
                        index_columns(connector.engine, index.0, event),
                    ),
                ),
            )
        } else {
            entered_step(id, config, indices, entries)
        },
    }
}

/// The step of a waiting call after what came of its request.
pub open spec fn next_step(
    connector: ConnectorView,
    poisoned: bool,
    pending: PendingView,
    event: HttpEventView,
) -> StepView {
    match pending {
        PendingView::Connect { id, config } => connected_step(
            connector,
            poisoned,
            id,
            config,
            event,
        ),
        PendingView::Query { id, config, statement, max_rows, endpoint } => queried_step(
            connector,
            id,
            config,
            statement,
            max_rows,
            endpoint,
            event,
        ),
        PendingView::Indices { id, config } => listed_step(connector, id, config, event),
        PendingView::Mapping { id, config, indices, entries } => mapped_step(
            connector,
            id,
            config,
            indices,
            entries,
            event,
        ),
    }
}

/// The open connections after a step of a waiting call: a connect that succeeds keeps
/// its connection.
pub open spec fn connections_after_next(
    connector: ConnectorView,
    connections: Map<Seq<char>, ConfigView>,
    poisoned: bool,
    pending: PendingView,
    event: HttpEventView,
) -> Map<Seq<char>, ConfigView> {
    match pending {
        PendingView::Connect { id, config } => if !poisoned && version_outcome(
            connector.engine,
            event,
        ) is Ok {
            connections.insert(id, config)
        } else {
            connections
        },
        _ => connections,
    }
}

/// What a call hands over besides its method.
pub open spec fn body_view(body: Option<CallBody>) -> Option<CallBodyView> {
    match body {
        Some(body) => Some(body@),
        None => None,
    }
}

/// A failure.
fn failure_reply(code: &str, message: String) -> (reply: Reply)
    ensures
        reply@ == failure(code@, message@),
{
    Reply::Failure { code: code.to_owned(), message }
}

/// The answer where the open connections cannot be relied on.
pub fn state_poisoned() -> (reply: Reply)
    ensures
        reply@ == poisoned_reply(),
{
    failure_reply(
        "connector.statePoisoned",
        "Connector connection state is poisoned.".to_owned(),
    )
}

/// The connection of an id, or the answer where there is none to use.
pub fn connection(connections: &Connections, poisoned: bool, connection_id: &str) -> (found: Result<
    SearchConnection,
    Reply,
>)
    ensures
        (match found {
            Ok(connection) => usable(connections@, poisoned, connection_id@) == Ok::<
                _,
                ReplyView,
            >(connection@),
            Err(reply) => usable(connections@, poisoned, connection_id@) == Err::<ConfigView, _>(
                reply@,
            ),
        }),
{
    if poisoned {
        return Err(state_poisoned());
    }
    match connections.get(connection_id) {
        Some(connection) => Ok(connection),
        None => {
            let mut message = "no open connection: ".to_owned();
            message.append(connection_id);
            Err(failure_reply("connector.connectionNotFound", message))
        },
    }
}

/// What a connector says of itself in short.
fn health(connector: &Connector) -> (members: Vec<(String, Json)>)
    ensures
        member_views(members@) == health_fields(connector@),
{
    let members = vec![
        ("engine".to_owned(), json_text(connector.engine.as_str())),
        ("abiVersion".to_owned(), connector.abi_version.clone()),
        ("driverLinked".to_owned(), Json::Bool(connector.driver_linked)),
    ];
    assert(member_views(members@) =~= health_fields(connector@));
    members
}

/// What a connector says of itself at length, with this manifest and configuration.
pub fn describe(connector: &Connector, manifest: Json, config: Json) -> (reply: Reply)
    ensures
        reply@ == ReplyView::Fields(description(connector@, manifest@, config@)),
{
    let mut members = health(connector);
    let first = ("manifest".to_owned(), manifest);
    let second = ("config".to_owned(), config);
    proof {
        lemma_member_views_push(members@, first);
        lemma_member_views_push(members@.push(first), second);
    }
    members.push(first);
    members.push(second);
    Reply::Fields(members)
}

/// The first step of a connect: the server is asked for its version.
pub fn connect(body: &CallBody) -> (step: Step)
    ensures
        step@ == connect_step(body@),
{
    match SearchConfig::from_request(&body.value) {
        Ok(config) => {
            let connection = SearchConnection { config };
            let request = version_call(&connection);
            Step::Send(
                request,
                Pending::Connect { connection_id: body.connection_id.clone(), connection },
            )
        },
        Err(message) => Step::Answer(failure_reply("connector.invalidRequest", message)),
    }
}

/// The step that runs a statement at the endpoint of that number.
fn query_endpoint(
    connector: &Connector,
    connection_id: String,
    connection: SearchConnection,
    statement: String,
    max_rows: usize,
    endpoint: usize,
) -> (step: Step)
    requires
        endpoint < endpoints(connector@.engine).len(),
    ensures
        step@ == query_at(
            connector@,
            connection_id@,
            connection@,
            statement@,
            max_rows as nat,
            endpoint as nat,
        ),
{
    let paths = sql_endpoints(connector.engine.as_str());
    assert(paths@[endpoint as int]@ == paths@.map_values(
        |path: &'static str| path@,
    )[endpoint as int]);
    let request = sql_call(&connection, paths[endpoint], statement.as_str());
    Step::Send(
        request,
        Pending::Query { connection_id, connection, statement, max_rows, endpoint },
    )
}

/// The first step of a query: its statement goes to the first SQL endpoint.
pub fn query(
    connector: &Connector,
    connections: &Connections,
    poisoned: bool,
    body: &CallBody,
) -> (step: Step)
    ensures
        step@ == query_step(connector@, connections@, poisoned, body@),
{
    let statement = match (&body.sql, &body.query, &body.statement) {
        (Some(sql), _, _) => sql.clone(),
        (None, Some(query), _) => query.clone(),
        (None, None, Some(statement)) => statement.clone(),
        (None, None, None) => {
            return Step::Answer(
                failure_reply(
                    "connector.invalidRequest",
                    "query requires a string sql, query, or statement field.".to_owned(),
                ),
            );
        },
    };
    match connection(connections, poisoned, body.connection_id.as_str()) {
        Ok(connection) => query_endpoint(
            connector,
            body.connection_id.clone(),
            connection,
            statement,
            body.max_rows,
            0,
        ),
        Err(reply) => Step::Answer(reply),
    }
}

/// The first step of a request for the catalogue: the server is asked for its indices.
pub fn metadata(connections: &Connections, poisoned: bool, body: &CallBody) -> (step: Step)
    ensures
        step@ == metadata_step(connections@, poisoned, body@),
{
    match connection(connections, poisoned, body.connection_id.as_str()) {
        Ok(connection) => {
            let request = indices_call(&connection);
            Step::Send(
                request,
                Pending::Indices { connection_id: body.connection_id.clone(), connection },
            )
        },
        Err(reply) => Step::Answer(reply),
    }
}

/// The only step of a close: the connection is forgotten.
pub fn close(connections: &mut Connections, poisoned: bool, body: &CallBody) -> (step: Step)
    ensures
        step@ == close_step(old(connections)@, poisoned, body@),
        final(connections)@ == if poisoned {
            old(connections)@
        } else {
            old(connections)@.remove(body@.connection_id)
        },
{
    if poisoned {
        return Step::Answer(state_poisoned());
    }
    let existed = connections.remove(body.connection_id.as_str());
    let members = vec![
        ("connectionId".to_owned(), json_text(body.connection_id.as_str())),
        ("closed".to_owned(), Json::Bool(existed)),
    ];
    assert(member_views(members@) =~= close_fields(body@.connection_id, existed));
    Step::Answer(Reply::Fields(members))
}

/// The first step of a call, as reading its request came out: where that failed with an
/// answer, this is the answer. `poisoned` says that the open connections cannot be relied
/// on; calls that need them then fail.
pub fn call_json(
    connector: &Connector,
    connections: &mut Connections,
    poisoned: bool,
    request: Result<CallRequest, Reply>,
) -> (step: Step)
    requires
        request matches Ok(call) ==> needs_body(call.method@) ==> call.body is Some,
    ensures
        step@ == opening_step(connector@, old(connections)@, poisoned, request_view(request)),
        final(connections)@ == connections_after_opening(
            old(connections)@,
            poisoned,
            request_view(request),
        ),
{
    let request = match request {
        Ok(request) => request,
        Err(reply) => {
            return Step::Answer(reply);
        },
    };
    let method = request.method.as_str();
    proof {
        lemma_methods_differ();
    }
    if same_text(method, "health") || same_text(method, "ping") {
        return Step::Answer(Reply::Fields(health(connector)));
    }
    if same_text(method, "describe") || same_text(method, "capabilities") {
        let manifest = parse_or_null(connector.manifest_json.as_str());
        let config = parse_or_null(connector.config_json.as_str());
        return Step::Answer(describe(connector, manifest, config));
    }
    if same_text(method, "manifest") {
        return Step::Answer(Reply::Raw(connector.manifest_json.clone()));
    }
    if same_text(method, "config") {
        return Step::Answer(Reply::Raw(connector.config_json.clone()));
    }
    if let Some(body) = &request.body {
        if same_text(method, "connect") {
            return connect(body);
        }
        if same_text(method, "query") {
            return query(connector, connections, poisoned, body);
        }
        if same_text(method, "metadata") {
            return metadata(connections, poisoned, body);
        }
        if same_text(method, "close") {
            return close(connections, poisoned, body);
        }
    }
    let mut message = "unknown connector method: ".to_owned();
    message.append(method);
    Step::Answer(failure_reply("connector.unknownMethod", message))
}

/// `close` is none of the methods that come before it.
proof fn lemma_methods_differ()
    ensures
        "close"@ != "health"@,
        "close"@ != "ping"@,
        "close"@ != "describe"@,
        "close"@ != "capabilities"@,
        "close"@ != "manifest"@,
        "close"@ != "config"@,
        "close"@ != "connect"@,
        "close"@ != "query"@,
        "close"@ != "metadata"@,
{
    reveal_strlit("close");
    reveal_strlit("health");
    reveal_strlit("ping");
    reveal_strlit("describe");
    reveal_strlit("capabilities");
    reveal_strlit("manifest");
    reveal_strlit("config");
    reveal_strlit("connect");
    reveal_strlit("query");
    reveal_strlit("metadata");
    assert("close"@[0] != "query"@[0]);
    assert("capabilities"@.len() == 12 && "config"@.len() == 6 && "connect"@.len() == 7);
}

/// What a query is answered.
fn query_reply(connection_id: &str, output: QueryOutput) -> (reply: Reply)
    ensures
        reply@ == ReplyView::Fields(query_fields(connection_id@, output_view(output))),
{
    broadcast use lemma_array_view;

    let ghost table = output_view(output);
    let mut columns: Vec<Json> = Vec::new();
    let ghost names = table.columns.map_values(|name: Seq<char>| JsonView::String(name));
    for column in iter: output.0
        invariant
            texts(iter.seq()) == table.columns,
            names == table.columns.map_values(|name: Seq<char>| JsonView::String(name)),
            views(columns@) == names.take(iter.index() as int),
    {
        let ghost k = iter.index() as int;
        assert(texts(iter.seq())[k] == column@);
        let name = Json::String(column);
        proof {
            lemma_views_push(columns@, name);
            assert(names.take(k + 1) =~= names.take(k).push(name@));
        }
        columns.push(name);
    }
    assert(views(columns@) =~= names);
    let mut rows: Vec<Json> = Vec::new();
    let ghost lines = table.rows.map_values(|row: Seq<JsonView>| JsonView::Array(row));
    for row in iter: output.1
        invariant
            row_views(iter.seq()) == table.rows,
            lines == table.rows.map_values(|row: Seq<JsonView>| JsonView::Array(row)),
            views(rows@) == lines.take(iter.index() as int),
    {
        let ghost k = iter.index() as int;
        assert(row_views(iter.seq())[k] == views(row@));
        let ghost cells = row;
        let line = Json::Array(row);
        proof {
            assert(line@ == JsonView::Array(views(cells@))) by {
                lemma_array_view(cells);
            }
            lemma_views_push(rows@, line);
            assert(lines.take(k + 1) =~= lines.take(k).push(line@));
        }
        rows.push(line);
    }
    assert(views(rows@) =~= lines);
    let members = vec![
        ("connectionId".to_owned(), json_text(connection_id)),
        ("columns".to_owned(), Json::Array(columns)),
        ("rows".to_owned(), Json::Array(rows)),
        ("truncated".to_owned(), Json::Bool(output.2)),
    ];
    assert(member_views(members@) =~= query_fields(connection_id@, table));
    Reply::Fields(members)
}

/// The step with these entries of the catalogue.
fn enter(
    connection_id: String,
    connection: SearchConnection,
    indices: Vec<(String, Json)>,
    entries: Vec<Json>,
) -> (step: Step)
    ensures
        step@ == entered_step(
            connection_id@,
            connection@,
            member_views(indices@),
            views(entries@),
        ),
{
    if entries.len() < indices.len() {
        assert(member_views(indices@)[entries@.len() as int].0 == indices@[entries@.len() as int].0@);
        let request = mapping_call(&connection, indices[entries.len()].0.as_str());
        Step::Send(request, Pending::Mapping { connection_id, connection, indices, entries })
    } else {
        let members = vec![
            ("connectionId".to_owned(), json_text(connection_id.as_str())),
            ("metadata".to_owned(), catalogue_json(entries)),
        ];
        assert(member_views(members@) =~= metadata_fields(connection_id@, views(entries@)));
        Step::Answer(Reply::Fields(members))
    }
}

/// The step after what came of asking for the version.
fn connected(
    connector: &Connector,
    connections: &mut Connections,
    poisoned: bool,
    connection_id: String,
    connection: SearchConnection,
    event: &HttpEvent,
) -> (step: Step)
    requires
        event@.well_formed(),
    ensures
        step@ == connected_step(connector@, poisoned, connection_id@, connection@, event@),
        final(connections)@ == connections_after_next(
            connector@,
            old(connections)@,
            poisoned,
            PendingView::Connect { id: connection_id@, config: connection@ },
            event@,
        ),
{
    let version = match load_version(connector.engine.as_str(), event) {
        Ok(version) => version,
        Err(message) => {
            let message = connection.config.redact(message.as_str());
            return Step::Answer(failure_reply("connector.connectFailed", message));
        },
    };
    if poisoned {
        return Step::Answer(state_poisoned());
    }
    let mut members = vec![
        ("engine".to_owned(), json_text(connector.engine.as_str())),
        ("connectionId".to_owned(), json_text(connection_id.as_str())),
        ("driverLinked".to_owned(), Json::Bool(connector.driver_linked)),
        ("endpoint".to_owned(), json_text(connection.config.base_url.as_str())),
    ];
    assert(member_views(members@) =~= connect_fields(
        connector@,
        connection_id@,
        connection@,
        None,
    ));
    if let Some(version) = version {
        let member = ("serverVersion".to_owned(), Json::String(version));
        proof {
            lemma_member_views_push(members@, member);
        }
        members.push(member);
    }
    connections.insert(connection_id, connection);
    Step::Answer(Reply::Fields(members))
}

/// The step of a waiting call after what came of its request.
pub fn resume(
    connector: &Connector,
    connections: &mut Connections,
    poisoned: bool,
    pending: Pending,
    event: &HttpEvent,
) -> (step: Step)
    requires
        event@.well_formed(),
    ensures
        step@ == next_step(connector@, poisoned, pending@, event@),
        final(connections)@ == connections_after_next(
            connector@,
            old(connections)@,
            poisoned,
            pending@,
            event@,
        ),
{
    match pending {
        Pending::Connect { connection_id, connection } => connected(
            connector,
            connections,
            poisoned,
            connection_id,
            connection,
            event,
        ),
        Pending::Query { connection_id, connection, statement, max_rows, endpoint } => {
            match run_sql(connector.engine.as_str(), event, max_rows) {
                SqlOutcome::Table(output) => Step::Answer(
                    query_reply(connection_id.as_str(), output),
                ),
                SqlOutcome::Failed(message) => {
                    let message = connection.config.redact(message.as_str());
                    Step::Answer(failure_reply("connector.queryFailed", message))
                },
                SqlOutcome::NotThere(message) => {
                    let paths = sql_endpoints(connector.engine.as_str());
                    assert(paths@.len() == endpoints(connector@.engine).len());
                    if endpoint < paths.len() - 1 {
                        query_endpoint(
                            connector,
                            connection_id,
                            connection,
                            statement,
                            max_rows,
                            endpoint + 1,
                        )
                    } else {
                        let message = connection.config.redact(message.as_str());
                        Step::Answer(failure_reply("connector.queryFailed", message))
                    }
                },
            }
        },
        Pending::Indices { connection_id, connection } => {
            match load_indices(connector.engine.as_str(), event) {
                Ok(indices) => {
                    let entries: Vec<Json> = Vec::new();
                    assert(views(entries@) =~= Seq::empty());
                    enter(connection_id, connection, indices, entries)
                },
                Err(message) => {
                    let message = connection.config.redact(message.as_str());
                    Step::Answer(failure_reply("connector.metadataFailed", message))
                },
            }
        },
        Pending::Mapping { connection_id, connection, indices, entries } => {
            if let HttpEvent::Aborted(message) = event {
                let message = connection.config.redact(message.as_str());
                return Step::Answer(failure_reply("connector.metadataFailed", message));
            }
            let mut entries = entries;
            if entries.len() < indices.len() {
                let at: usize = entries.len();
                assert(member_views(indices@)[at as int] == (
                    indices@[at as int].0@,
                    indices@[at as int].1@,
                ));
                let entry = index_object(
                    connector.engine.as_str(),
                    indices[at].0.as_str(),
                    &indices[at].1,
                    event,
                );
                proof {
                    lemma_views_push(entries@, entry);
                }
                entries.push(entry);
            }
            enter(connection_id, connection, indices, entries)
        },
    }
}

} // verus!
