use opensearch_connector::json::Json;
use opensearch_connector::output::{
    response_to_output, rows_from_json, rows_to_output, sql_response_to_output,
};

fn text(value: &str) -> Json {
    Json::String(value.to_string())
}

fn number(value: &str) -> Json {
    Json::Number(value.to_string())
}

#[test]
fn parses_elasticsearch_sql_response() {
    let (columns, rows, truncated) = sql_response_to_output(
        r#"{"columns":[{"name":"name"},{"name":"count"}],"rows":[["a",2]]}"#,
        10,
    );
    assert_eq!(columns, vec!["name", "count"]);
    assert_eq!(rows, vec![vec![text("a"), number("2")]]);
    assert!(!truncated);
}

#[test]
fn parses_opensearch_sql_response() {
    let (columns, rows, truncated) = sql_response_to_output(
        r#"{"schema":[{"name":"name"}],"datarows":[["a"],["b"]]}"#,
        1,
    );
    assert_eq!(columns, vec!["name"]);
    assert_eq!(rows, vec![vec![text("a")]]);
    assert!(truncated);
}

#[test]
fn columns_take_their_rows_from_datarows_too() {
    let (columns, rows, truncated) = sql_response_to_output(
        r#"{"columns":[{"column":"a"},{"name":7,"column":"b"},{}],"datarows":[[1,2,3],"x"]}"#,
        2,
    );
    assert_eq!(columns, vec!["a", "value", "value"]);
    assert_eq!(
        rows,
        vec![vec![number("1"), number("2"), number("3")], vec![text("x")]]
    );
    assert!(!truncated);
}

#[test]
fn columns_come_before_a_schema() {
    let (columns, rows, _) = sql_response_to_output(
        r#"{"columns":[{"name":"a"}],"schema":[{"name":"b"}],"rows":[[1]],"datarows":[[2]]}"#,
        5,
    );
    assert_eq!(columns, vec!["a"]);
    assert_eq!(rows, vec![vec![number("1")]]);
}

#[test]
fn schema_ignores_rows() {
    let (columns, rows, truncated) =
        sql_response_to_output(r#"{"schema":[{"column":"b"}],"rows":[[1]]}"#, 5);
    assert_eq!(columns, vec!["value"]);
    assert!(rows.is_empty());
    assert!(!truncated);
}

#[test]
fn hits_become_rows_with_the_columns_of_all_hits() {
    let (columns, rows, truncated) = sql_response_to_output(
        r#"{"hits":{"hits":[{"_id":"1","a":1},5,{"_id":"2","b":null,"c":[true]}]}}"#,
        2,
    );
    assert_eq!(columns, vec!["_id", "a", "b", "c"]);
    assert_eq!(
        rows,
        vec![
            vec![text("1"), number("1"), Json::Null, Json::Null],
            vec![number("5")],
        ]
    );
    assert!(truncated);
}

#[test]
fn a_response_without_hits_is_its_own_row() {
    let (columns, rows, truncated) = sql_response_to_output(r#"{"b":1.5,"a":"x"}"#, 10);
    assert_eq!(columns, vec!["a", "b"]);
    assert_eq!(rows, vec![vec![text("x"), number("1.5")]]);
    assert!(!truncated);
}

#[test]
fn text_that_is_not_json_is_a_null_row() {
    let (columns, rows, truncated) = sql_response_to_output("not json", 10);
    assert_eq!(columns, vec!["value"]);
    assert_eq!(rows, vec![vec![Json::Null]]);
    assert!(!truncated);
}

#[test]
fn a_cap_of_nothing_cuts_everything() {
    let (columns, rows, truncated) = sql_response_to_output("[1,2]", 0);
    assert_eq!(columns, vec!["value"]);
    assert!(rows.is_empty());
    assert!(truncated);
}

#[test]
fn no_hits_are_no_rows() {
    let (columns, rows, truncated) = sql_response_to_output(r#"{"hits":{"hits":[]}}"#, 3);
    assert_eq!(columns, vec!["value"]);
    assert!(rows.is_empty());
    assert!(!truncated);
}

#[test]
fn a_larger_cap_only_adds_rows() {
    let rows = || vec![number("1"), number("2"), Json::Array(vec![number("3")])];
    let names = || vec!["n".to_string()];
    let (_, small, small_cut) = rows_to_output(names(), rows(), 2);
    let (_, large, large_cut) = rows_to_output(names(), rows(), 3);
    assert_eq!(small[..], large[..2]);
    assert_eq!(large[2], vec![number("3")]);
    assert!(small_cut);
    assert!(!large_cut);
}

#[test]
fn hits_without_a_list_are_members() {
    let value = Json::Object(vec![("hits".to_string(), number("3"))]);
    let (columns, rows, truncated) = rows_from_json(value.clone(), 1);
    assert_eq!(columns, vec!["hits"]);
    assert_eq!(rows, vec![vec![number("3")]]);
    assert!(!truncated);
    assert_eq!(response_to_output(value, 1).0, vec!["hits"]);
}
