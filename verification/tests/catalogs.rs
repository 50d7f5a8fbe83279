use opensearch_connector::catalog::{
    catalogue_json, flatten_properties, index_object, listed_indices, load_index_columns,
    mapping_columns, named_indices,
};
use opensearch_connector::http::{BodyForm, HttpEvent};
use opensearch_connector::json::{parse, Json};

fn json(text: &str) -> Json {
    parse(text).unwrap()
}

fn column(name: &str, data_type: &str, nullable: bool, ordinal: u32) -> Json {
    Json::Object(vec![
        ("name".to_string(), Json::String(name.to_string())),
        ("dataType".to_string(), Json::String(data_type.to_string())),
        ("nullable".to_string(), Json::Bool(nullable)),
        ("ordinal".to_string(), Json::Number(ordinal.to_string())),
    ])
}

fn responded(status: u16, text: &str) -> HttpEvent {
    HttpEvent::Responded {
        status,
        text: text.to_string(),
    }
}

const MAPPING: &str = r#"{"logs":{"mappings":{"properties":{
    "a":{"type":"keyword","properties":{"x":{"type":"long"},"y":{"properties":{"z":{"type":"date"}}}}},
    "b":{"type":7},
    "c":{"type":"text"}}}}}"#;

fn mapped() -> Vec<Json> {
    vec![
        column("_id", "keyword", false, 1),
        column("a", "keyword", true, 2),
        column("a.x", "long", true, 3),
        column("a.y", "object", true, 4),
        column("a.y.z", "date", true, 5),
        column("b", "object", true, 6),
        column("c", "text", true, 7),
    ]
}

#[test]
fn properties_are_flattened_in_order() {
    assert_eq!(mapping_columns("logs", &json(MAPPING)), mapped());
}

#[test]
fn flattening_numbers_on() {
    let properties = json(r#"{"p":{"type":"ip"}}"#);
    let mut columns = vec![Json::Null, Json::Null];
    flatten_properties("top", properties.as_object().unwrap(), &mut columns);
    assert_eq!(
        columns,
        vec![Json::Null, Json::Null, column("top.p", "ip", true, 3)]
    );
}

#[test]
fn an_index_without_properties_has_its_id() {
    let only_id = vec![column("_id", "keyword", false, 1)];
    assert_eq!(mapping_columns("other", &json(MAPPING)), only_id);
    assert_eq!(
        mapping_columns("i", &json(r#"{"i":{"mappings":{"properties":[]}}}"#)),
        only_id
    );
}

#[test]
fn columns_come_from_a_successful_json_response() {
    assert_eq!(
        load_index_columns("e", "logs", &responded(200, MAPPING)),
        Ok(mapped())
    );
    assert_eq!(
        load_index_columns("e", "other", &responded(200, MAPPING)),
        Ok(vec![column("_id", "keyword", false, 1)])
    );
}

#[test]
fn a_mapping_that_cannot_be_had_says_why() {
    let failures = [
        (
            HttpEvent::Failed("down".to_string()),
            "e mapping request failed: down",
        ),
        (
            responded(404, MAPPING),
            "e mapping returned HTTP 404 Not Found",
        ),
        (
            responded(200, "<html>"),
            "e mapping JSON failed: error decoding response body",
        ),
        (
            HttpEvent::Unreadable("cut".to_string()),
            "e mapping JSON failed: cut",
        ),
        (HttpEvent::Aborted("no runtime".to_string()), "no runtime"),
    ];
    for (event, message) in failures {
        assert_eq!(
            load_index_columns("e", "logs", &event),
            Err(message.to_string())
        );
    }
}

#[test]
fn a_json_body_is_read_only_on_success() {
    assert!(BodyForm::Json.is_read(200));
    assert!(!BodyForm::Json.is_read(404));
    assert!(BodyForm::Text.is_read(404));
}

#[test]
fn a_prefix_is_put_before_every_name() {
    let properties = json(r#"{"a":{"properties":{"b":{"type":"long"}}},"c":{"type":"text"}}"#);
    let members = properties.as_object().unwrap();
    let mut columns = Vec::new();
    flatten_properties("p", members, &mut columns);
    assert_eq!(
        columns,
        vec![
            column("p.a", "object", true, 1),
            column("p.a.b", "long", true, 2),
            column("p.c", "text", true, 3),
        ]
    );
}

#[test]
fn an_empty_name_shows_only_below_a_prefix() {
    let properties = json(r#"{"":{"properties":{"x":{"type":"long"}}}}"#);
    let members = properties.as_object().unwrap();
    let mut plain = Vec::new();
    flatten_properties("", members, &mut plain);
    assert_eq!(plain[1], column("x", "long", true, 2));
    let mut below = Vec::new();
    flatten_properties("p", members, &mut below);
    assert_eq!(below[1], column("p..x", "long", true, 2));
}

#[test]
fn entries_describe_their_index() {
    let index =
        json(r#"{"index":"logs","health":"green","docs.count":"12","store.size":"1kb","x":1}"#);
    let entry = index_object("e", "logs", &index, &responded(500, ""));
    let names: Vec<&str> = entry
        .as_object()
        .unwrap()
        .iter()
        .map(|member| member.0.as_str())
        .collect();
    assert_eq!(
        names,
        vec![
            "schema", "name", "kind", "columns", "indexes", "primaryKey", "foreignKeys", "health",
            "status", "documentCount", "storeSize"
        ]
    );
    assert_eq!(entry.get("schema").unwrap().as_str(), Some("default"));
    assert_eq!(entry.get("name").unwrap().as_str(), Some("logs"));
    assert_eq!(entry.get("kind").unwrap().as_str(), Some("index"));
    assert_eq!(
        entry.get("columns").unwrap().as_array().unwrap()[..],
        [
            column("_id", "keyword", false, 1),
            column("_source", "object", true, 2)
        ]
    );
    assert_eq!(entry.get("indexes"), Some(&Json::Array(vec![])));
    assert_eq!(
        entry.get("primaryKey").unwrap().as_array().unwrap()[0],
        Json::Object(vec![
            ("name".to_string(), Json::String("_id".to_string())),
            ("keyType".to_string(), Json::String("primary".to_string())),
        ])
    );
    assert_eq!(entry.get("foreignKeys"), Some(&Json::Array(vec![])));
    assert_eq!(entry.get("health").unwrap().as_str(), Some("green"));
    assert_eq!(entry.get("status"), Some(&Json::Null));
    assert_eq!(entry.get("documentCount").unwrap().as_str(), Some("12"));
    assert_eq!(entry.get("storeSize").unwrap().as_str(), Some("1kb"));
}

#[test]
fn indices_without_a_name_are_left_out() {
    let indices = listed_indices(r#"[{"index":"a"},{"index":5},7,{"index":"b"}]"#);
    let names: Vec<&str> = indices.iter().map(|index| index.0.as_str()).collect();
    assert_eq!(names, vec!["a", "b"]);
    assert!(listed_indices(r#"{"index":"a"}"#).is_empty());
    assert!(listed_indices("nope").is_empty());
    assert!(named_indices(&vec![Json::Null]).is_empty());
}

#[test]
fn the_catalogue_has_one_schema() {
    let catalogue = catalogue_json(vec![Json::Bool(true)]);
    let schemas = catalogue.get("schemas").unwrap().as_array().unwrap();
    assert_eq!(schemas.len(), 1);
    assert_eq!(schemas[0].get("name").unwrap().as_str(), Some("default"));
    assert_eq!(
        schemas[0].get("objects"),
        Some(&Json::Array(vec![Json::Bool(true)]))
    );
}
