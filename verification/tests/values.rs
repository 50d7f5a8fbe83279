use opensearch_connector::json::{json_of, parse, parse_or_null, Json};

#[test]
fn parses_every_kind_of_value() {
    let json = parse(r#"{"z":null,"a":[true,-1,1e3,"x"],"m":{}}"#).unwrap();
    assert_eq!(
        json,
        Json::Object(vec![
            (
                "a".to_string(),
                Json::Array(vec![
                    Json::Bool(true),
                    Json::Number("-1".to_string()),
                    Json::Number("1000.0".to_string()),
                    Json::String("x".to_string()),
                ])
            ),
            ("m".to_string(), Json::Object(vec![])),
            ("z".to_string(), Json::Null),
        ])
    );
    assert_eq!(json.clone(), json);
}

#[test]
fn a_name_given_twice_is_kept_once() {
    let json = parse(r#"{"a":1,"a":2}"#).unwrap();
    assert_eq!(
        json,
        Json::Object(vec![("a".to_string(), Json::Number("2".to_string()))])
    );
}

#[test]
fn other_texts_are_not_json() {
    assert_eq!(parse("{"), None);
    assert_eq!(parse(""), None);
    assert_eq!(parse("1 2"), None);
    assert_eq!(parse_or_null("nope"), Json::Null);
    assert_eq!(parse_or_null("7"), Json::Number("7".to_string()));
}

#[test]
fn values_of_the_json_library_are_taken_over() {
    let value = serde_json::Value::Array(vec![
        serde_json::Value::Null,
        serde_json::Value::from(2.5),
        serde_json::Value::from("t"),
    ]);
    assert_eq!(
        json_of(value),
        Json::Array(vec![
            Json::Null,
            Json::Number("2.5".to_string()),
            Json::String("t".to_string()),
        ])
    );
}

#[test]
fn members_are_read_by_name() {
    let json = parse(r#"{"a":{"b":[1]},"s":"t","f":false}"#).unwrap();
    assert_eq!(json.get("s").unwrap().as_str(), Some("t"));
    assert_eq!(json.get("f").unwrap().as_bool(), Some(false));
    assert_eq!(json.get("a").unwrap().get("b").unwrap().as_array().unwrap().len(), 1);
    assert_eq!(json.get("a").unwrap().as_object().unwrap().len(), 1);
    assert_eq!(json.get("x"), None);
    assert_eq!(json.get("s").unwrap().get("a"), None);
    assert_eq!(json.as_str(), None);
    assert_eq!(json.as_bool(), None);
    assert_eq!(json.as_array(), None);
    assert_eq!(Json::Null.as_object(), None);
}
