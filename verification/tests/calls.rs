use opensearch_connector::config::Authorization;
use opensearch_connector::http::{BodyForm, HttpEvent, HttpRequest};
use opensearch_connector::json::{parse, Json};
use opensearch_connector::server::{
    http_failure, load_indices, load_version, run_sql, server_version, sql_endpoints, SqlOutcome,
};
use opensearch_connector::session::{
    call_json, resume, state_poisoned, takes_body, CallBody, CallRequest, Connections, Connector,
    Pending, Reply, Step,
};

fn connector() -> Connector {
    Connector {
        engine: "openSearch".to_string(),
        abi_version: Json::Number("1".to_string()),
        driver_linked: true,
        manifest_json: r#"{"id":"irodori.opensearch"}"#.to_string(),
        config_json: "broken".to_string(),
    }
}

fn body(id: &str, value: &str) -> CallBody {
    CallBody {
        connection_id: id.to_string(),
        sql: None,
        query: None,
        statement: None,
        max_rows: 100,
        value: parse(value).unwrap(),
    }
}

fn call(method: &str, body: Option<CallBody>) -> CallRequest {
    CallRequest {
        method: method.to_string(),
        body,
    }
}

fn start(connections: &mut Connections, method: &str, body: Option<CallBody>) -> Step {
    call_json(&connector(), connections, false, Ok(call(method, body)))
}

fn responded(status: u16, text: &str) -> HttpEvent {
    HttpEvent::Responded {
        status,
        text: text.to_string(),
    }
}

fn sent(step: Step) -> (HttpRequest, Pending) {
    match step {
        Step::Send(request, pending) => (request, pending),
        Step::Answer(reply) => panic!("answered: {reply:?}"),
    }
}

fn answered(step: Step) -> Reply {
    match step {
        Step::Answer(reply) => reply,
        Step::Send(request, _) => panic!("sent: {request:?}"),
    }
}

fn failure(code: &str, message: &str) -> Reply {
    Reply::Failure {
        code: code.to_string(),
        message: message.to_string(),
    }
}

fn field(name: &str, value: Json) -> (String, Json) {
    (name.to_string(), value)
}

fn text(value: &str) -> Json {
    Json::String(value.to_string())
}

const OPTIONS: &str = r#"{"url":"http://h:1/","user":"u","password":"hunter2"}"#;

fn opened() -> Connections {
    let mut connections = Connections::new();
    let (_, pending) = sent(start(&mut connections, "connect", Some(body("c", OPTIONS))));
    let step = resume(
        &connector(),
        &mut connections,
        false,
        pending,
        &responded(200, "{}"),
    );
    answered(step);
    connections
}

fn query_body(id: &str) -> CallBody {
    let mut body = body(id, "{}");
    body.query = Some("select 1".to_string());
    body
}

#[test]
fn health_is_engine_version_and_link() {
    let expected = Reply::Fields(vec![
        field("engine", text("openSearch")),
        field("abiVersion", Json::Number("1".to_string())),
        field("driverLinked", Json::Bool(true)),
    ]);
    let mut connections = Connections::new();
    assert_eq!(answered(start(&mut connections, "health", None)), expected);
    assert_eq!(answered(start(&mut connections, "ping", None)), expected);
}

#[test]
fn describe_adds_manifest_and_config() {
    let expected = Reply::Fields(vec![
        field("engine", text("openSearch")),
        field("abiVersion", Json::Number("1".to_string())),
        field("driverLinked", Json::Bool(true)),
        field(
            "manifest",
            Json::Object(vec![field("id", text("irodori.opensearch"))]),
        ),
        field("config", Json::Null),
    ]);
    let mut connections = Connections::new();
    assert_eq!(answered(start(&mut connections, "describe", None)), expected);
    assert_eq!(
        answered(start(&mut connections, "capabilities", None)),
        expected
    );
}

#[test]
fn manifest_and_config_are_raw() {
    let mut connections = Connections::new();
    assert_eq!(
        answered(start(&mut connections, "manifest", None)),
        Reply::Raw(r#"{"id":"irodori.opensearch"}"#.to_string())
    );
    assert_eq!(
        answered(start(&mut connections, "config", None)),
        Reply::Raw("broken".to_string())
    );
}

#[test]
fn four_methods_need_a_body() {
    for method in ["connect", "query", "metadata", "close"] {
        assert!(takes_body(method));
    }
    for method in ["health", "describe", "manifest", "config", "Close", ""] {
        assert!(!takes_body(method));
    }
}

#[test]
fn unknown_methods_fail() {
    let mut connections = Connections::new();
    assert_eq!(
        answered(start(&mut connections, "Health", None)),
        failure("connector.unknownMethod", "unknown connector method: Health")
    );
}

#[test]
fn a_request_that_cannot_be_read_has_its_answer() {
    let mut connections = opened();
    for poisoned in [false, true] {
        let step = call_json(
            &connector(),
            &mut connections,
            poisoned,
            Err(failure("connector.invalidRequest", "no JSON")),
        );
        assert_eq!(
            answered(step),
            failure("connector.invalidRequest", "no JSON")
        );
    }
    assert!(connections.get("c").is_some());
}

#[test]
fn connect_asks_for_the_version() {
    let mut connections = Connections::new();
    let (request, pending) = sent(start(&mut connections, "connect", Some(body("c", OPTIONS))));
    assert_eq!(
        request,
        HttpRequest {
            url: "http://h:1".to_string(),
            authorization: Authorization::Basic("u".to_string(), Some("hunter2".to_string())),
            payload: None,
            body: BodyForm::Text,
        }
    );
    let step = resume(
        &connector(),
        &mut connections,
        false,
        pending,
        &responded(200, r#"{"version":{"number":"2.11.0"}}"#),
    );
    assert_eq!(
        answered(step),
        Reply::Fields(vec![
            field("engine", text("openSearch")),
            field("connectionId", text("c")),
            field("driverLinked", Json::Bool(true)),
            field("endpoint", text("http://h:1")),
            field("serverVersion", text("openSearch 2.11.0")),
        ])
    );
    assert_eq!(
        connections.get("c").unwrap().config.base_url,
        "http://h:1".to_string()
    );
}

#[test]
fn a_server_without_a_version_is_connected_too() {
    let connections = opened();
    assert!(connections.get("c").is_some());
    assert!(connections.get("d").is_none());
}

#[test]
fn a_failed_connect_is_redacted_and_forgotten() {
    let mut connections = Connections::new();
    let (_, pending) = sent(start(&mut connections, "connect", Some(body("c", OPTIONS))));
    let step = resume(
        &connector(),
        &mut connections,
        false,
        pending,
        &responded(401, "bad hunter2 at http://h:1"),
    );
    assert_eq!(
        answered(step),
        failure(
            "connector.connectFailed",
            "openSearc**** root request returned HTTP 40**** Unaut****orized: bad **** at <searc****-url>"
        )
    );
    assert!(connections.get("c").is_none());
}

#[test]
fn a_connect_that_cannot_send_says_why() {
    let mut connections = Connections::new();
    let reasons = [
        (
            HttpEvent::Failed("refused".to_string()),
            "openSearch root request failed: refused",
        ),
        (
            HttpEvent::Unreadable("cut".to_string()),
            "openSearch response read failed: cut",
        ),
        (HttpEvent::Aborted("no runtime".to_string()), "no runtime"),
    ];
    for (event, message) in reasons {
        let value = r#"{"url":"http://search.example"}"#;
        let (_, pending) = sent(start(&mut connections, "connect", Some(body("c", value))));
        let step = resume(&connector(), &mut connections, false, pending, &event);
        assert_eq!(answered(step), failure("connector.connectFailed", message));
    }
}

#[test]
fn a_poisoned_state_keeps_nothing() {
    let mut connections = Connections::new();
    let (_, pending) = sent(call_json(
        &connector(),
        &mut connections,
        true,
        Ok(call("connect", Some(body("c", OPTIONS)))),
    ));
    let step = resume(
        &connector(),
        &mut connections,
        true,
        pending,
        &responded(200, "{}"),
    );
    assert_eq!(answered(step), state_poisoned());
    assert!(connections.get("c").is_none());
    let mut connections = opened();
    for method in ["query", "metadata", "close"] {
        let step = call_json(
            &connector(),
            &mut connections,
            true,
            Ok(call(method, Some(query_body("c")))),
        );
        assert_eq!(
            answered(step),
            failure(
                "connector.statePoisoned",
                "Connector connection state is poisoned."
            )
        );
    }
    assert!(connections.get("c").is_some());
}

#[test]
fn close_forgets_a_connection_once() {
    let mut connections = opened();
    let closed = |existed: bool| {
        Reply::Fields(vec![
            field("connectionId", text("c")),
            field("closed", Json::Bool(existed)),
        ])
    };
    assert_eq!(
        answered(start(&mut connections, "close", Some(body("c", "{}")))),
        closed(true)
    );
    assert_eq!(
        answered(start(&mut connections, "close", Some(body("c", "{}")))),
        closed(false)
    );
    assert_eq!(
        answered(start(&mut connections, "query", Some(query_body("c")))),
        failure("connector.connectionNotFound", "no open connection: c")
    );
    assert_eq!(
        answered(start(&mut connections, "metadata", Some(body("c", "{}")))),
        failure("connector.connectionNotFound", "no open connection: c")
    );
}

#[test]
fn a_query_needs_a_statement() {
    let mut connections = opened();
    assert_eq!(
        answered(start(&mut connections, "query", Some(body("x", "{}")))),
        failure(
            "connector.invalidRequest",
            "query requires a string sql, query, or statement field."
        )
    );
}

#[test]
fn statements_have_an_order() {
    let mut connections = opened();
    let mut all = query_body("c");
    all.sql = Some("first".to_string());
    all.statement = Some("third".to_string());
    let (request, _) = sent(start(&mut connections, "query", Some(all)));
    assert_eq!(
        request.payload,
        Some(Json::Object(vec![field("query", text("first"))]))
    );
    let mut last = body("c", "{}");
    last.statement = Some("third".to_string());
    let (request, _) = sent(start(&mut connections, "query", Some(last)));
    assert_eq!(
        request.payload,
        Some(Json::Object(vec![field("query", text("third"))]))
    );
}

#[test]
fn a_query_answers_with_a_table() {
    let mut connections = opened();
    let (request, pending) = sent(start(&mut connections, "query", Some(query_body("c"))));
    assert_eq!(
        request,
        HttpRequest {
            url: "http://h:1/_plugins/_sql?format=json".to_string(),
            authorization: Authorization::Basic("u".to_string(), Some("hunter2".to_string())),
            payload: Some(Json::Object(vec![field("query", text("select 1"))])),
            body: BodyForm::Text,
        }
    );
    let step = resume(
        &connector(),
        &mut connections,
        false,
        pending,
        &responded(200, r#"{"schema":[{"name":"n"}],"datarows":[[1],[2]]}"#),
    );
    assert_eq!(
        answered(step),
        Reply::Fields(vec![
            field("connectionId", text("c")),
            field("columns", Json::Array(vec![text("n")])),
            field(
                "rows",
                Json::Array(vec![
                    Json::Array(vec![Json::Number("1".to_string())]),
                    Json::Array(vec![Json::Number("2".to_string())]),
                ])
            ),
            field("truncated", Json::Bool(false)),
        ])
    );
}

#[test]
fn a_query_keeps_to_its_limit() {
    let mut connections = opened();
    let mut limited = query_body("c");
    limited.max_rows = 1;
    let (_, pending) = sent(start(&mut connections, "query", Some(limited)));
    let event = responded(200, r#"{"columns":[{"name":"n"}],"rows":[[1],[2]]}"#);
    let step = resume(&connector(), &mut connections, false, pending, &event);
    let Reply::Fields(fields) = answered(step) else {
        panic!("failed");
    };
    assert_eq!(
        fields[2],
        field(
            "rows",
            Json::Array(vec![Json::Array(vec![Json::Number("1".to_string())])])
        )
    );
    assert_eq!(fields[3], field("truncated", Json::Bool(true)));
    assert!(connections.get("c").is_some());
}

#[test]
fn a_missing_endpoint_leads_to_the_next() {
    let mut connections = opened();
    let (_, pending) = sent(start(&mut connections, "query", Some(query_body("c"))));
    let step = resume(
        &connector(),
        &mut connections,
        false,
        pending,
        &responded(404, "no handler"),
    );
    let (request, pending) = sent(step);
    assert_eq!(request.url, "http://h:1/_opendistro/_sql?format=json");
    let step = resume(
        &connector(),
        &mut connections,
        false,
        pending,
        &responded(404, " still hunter2 "),
    );
    let reply = answered(step);
    assert_eq!(
        reply,
        failure(
            "connector.queryFailed",
            "openSearc**** SQL returned HTTP 404 Not Found: still ****"
        )
    );
}

#[test]
fn other_failures_end_a_query() {
    let mut connections = opened();
    let events = [
        responded(500, "boom"),
        HttpEvent::Failed("refused".to_string()),
    ];
    for event in events {
        let (_, pending) = sent(start(&mut connections, "query", Some(query_body("c"))));
        let step = resume(&connector(), &mut connections, false, pending, &event);
        assert!(matches!(answered(step), Reply::Failure { .. }));
    }
}

#[test]
fn the_catalogue_is_collected_index_by_index() {
    let mut connections = opened();
    let (request, pending) = sent(start(&mut connections, "metadata", Some(body("c", "{}"))));
    assert_eq!(
        request.url,
        "http://h:1/_cat/indices?format=json&h=index,health,status,docs.count,store.size"
    );
    let step = resume(
        &connector(),
        &mut connections,
        false,
        pending,
        &responded(200, r#"[{"index":"a"},{"health":"red"},{"index":"b"}]"#),
    );
    let (request, pending) = sent(step);
    assert_eq!(request.url, "http://h:1/a/_mapping");
    assert_eq!(request.body, BodyForm::Json);
    let step = resume(
        &connector(),
        &mut connections,
        false,
        pending,
        &HttpEvent::Failed("gone".to_string()),
    );
    let (request, pending) = sent(step);
    assert_eq!(request.url, "http://h:1/b/_mapping");
    let step = resume(
        &connector(),
        &mut connections,
        false,
        pending,
        &responded(200, r#"{"b":{"mappings":{"properties":{"f":{"type":"long"}}}}}"#),
    );
    let Reply::Fields(fields) = answered(step) else {
        panic!("failed");
    };
    assert_eq!(fields[0], field("connectionId", text("c")));
    assert_eq!(fields[1].0, "metadata");
    let objects = fields[1].1.get("schemas").unwrap().as_array().unwrap()[0]
        .get("objects")
        .unwrap()
        .as_array()
        .unwrap();
    assert_eq!(objects.len(), 2);
    assert_eq!(objects[0].get("name"), Some(&text("a")));
    assert_eq!(
        objects[0].get("columns").unwrap().as_array().unwrap()[1].get("name"),
        Some(&text("_source"))
    );
    assert_eq!(objects[1].get("name"), Some(&text("b")));
    assert_eq!(
        objects[1].get("columns").unwrap().as_array().unwrap()[1].get("name"),
        Some(&text("f"))
    );
}

#[test]
fn an_empty_catalogue_needs_no_mapping() {
    let mut connections = opened();
    let (_, pending) = sent(start(&mut connections, "metadata", Some(body("c", "{}"))));
    let step = resume(
        &connector(),
        &mut connections,
        false,
        pending,
        &responded(200, "[]"),
    );
    assert!(matches!(answered(step), Reply::Fields(_)));
}

#[test]
fn a_catalogue_without_a_list_fails() {
    let mut connections = opened();
    let (_, pending) = sent(start(&mut connections, "metadata", Some(body("c", "{}"))));
    let step = resume(
        &connector(),
        &mut connections,
        false,
        pending,
        &HttpEvent::Aborted("no runtime".to_string()),
    );
    assert_eq!(
        answered(step),
        failure("connector.metadataFailed", "no runtime")
    );
}

#[test]
fn versions_are_named_after_the_engine() {
    let answer = parse(r#"{"version":{"number":"8.1"}}"#).unwrap();
    assert_eq!(server_version("x", &answer), Some("x 8.1".to_string()));
    assert_eq!(server_version("x", &Json::Null), None);
    assert_eq!(
        load_version("x", &responded(204, "")),
        Ok(None)
    );
    assert_eq!(
        load_version("x", &responded(302, "moved")),
        Err("x root request returned HTTP 302 Found: moved".to_string())
    );
}

#[test]
fn statuses_are_printed_with_their_reason() {
    assert_eq!(
        run_sql("e", &responded(404, "t"), 1),
        SqlOutcome::NotThere("e SQL returned HTTP 404 Not Found: t".to_string())
    );
    assert_eq!(
        run_sql("e", &responded(599, "t"), 1),
        SqlOutcome::Failed("e SQL returned HTTP 599 <unknown status code>: t".to_string())
    );
    assert_eq!(
        load_indices("e", &responded(503, "t")),
        Err("e metadata returned HTTP 503 Service Unavailable: t".to_string())
    );
    assert_eq!(
        http_failure("e", " is ", "418 I'm a teapot", "short"),
        "e is 418 I'm a teapot: short"
    );
}

#[test]
fn sql_failures_are_cut_short() {
    let long = "x".repeat(600);
    let expected = format!("e SQL returned HTTP 400 Bad Request: {}", "x".repeat(500));
    assert_eq!(
        run_sql("e", &responded(400, &format!("  {long}")), 1),
        SqlOutcome::Failed(expected)
    );
    assert_eq!(
        run_sql("e", &HttpEvent::Failed("f".to_string()), 1),
        SqlOutcome::Failed("e SQL request failed: f".to_string())
    );
    assert_eq!(
        run_sql("e", &HttpEvent::Unreadable("f".to_string()), 1),
        SqlOutcome::Failed("e SQL response read failed: f".to_string())
    );
}

#[test]
fn listing_failures_say_why() {
    assert_eq!(
        load_indices("e", &HttpEvent::Failed("f".to_string())),
        Err("e index metadata request failed: f".to_string())
    );
    assert_eq!(
        load_indices("e", &HttpEvent::Unreadable("f".to_string())),
        Err("e metadata response read failed: f".to_string())
    );
}

#[test]
fn the_engine_chooses_the_endpoints() {
    let plugin = vec!["/_plugins/_sql?format=json", "/_opendistro/_sql?format=json"];
    assert_eq!(sql_endpoints("openSearch"), plugin);
    assert_eq!(sql_endpoints("opensearch"), plugin);
    assert_eq!(sql_endpoints("elasticsearch"), vec!["/_sql?format=json"]);
}
