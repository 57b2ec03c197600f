use openproject::activities::{activity_page_result, activity_selection, with_hierarchy};
use openproject::client::{
    collection_start, collection_step, error_detail, next_step, page_path, response_value,
    retry_limit, retry_wait, Endpoint, NextStep, SendOutcome,
};
use openproject::compact::compact;
use openproject::error::ErrorKind;
use openproject::json::{JsonNumber, pointer, JsonValue};


fn to_serde(value: &JsonValue) -> serde_json::Value {
    match value {
        JsonValue::Null => serde_json::Value::Null,
        JsonValue::Bool(b) => serde_json::Value::Bool(*b),
        JsonValue::Number(JsonNumber::Unsigned(n)) => serde_json::Value::from(*n),
        JsonValue::Number(JsonNumber::Negative(n)) => serde_json::Value::from(*n),
        JsonValue::Number(JsonNumber::Other(t)) => serde_json::Value::Number(t.parse().unwrap()),
        JsonValue::String(s) => serde_json::Value::String(s.clone()),
        JsonValue::Array(items) => serde_json::Value::Array(items.iter().map(to_serde).collect()),
        JsonValue::Object(es) => {
            serde_json::Value::Object(es.iter().map(|(k, v)| (k.clone(), to_serde(v))).collect())
        }
    }
}

fn to_json_text(value: &JsonValue) -> String {
    to_serde(value).to_string()
}

fn convert(value: serde_json::Value) -> JsonValue {
    match value {
        serde_json::Value::Null => JsonValue::Null,
        serde_json::Value::Bool(b) => JsonValue::Bool(b),
        serde_json::Value::Number(n) => JsonValue::Number(match (n.as_u64(), n.as_i64()) {
            (Some(u), _) => JsonNumber::Unsigned(u),
            (None, Some(i)) => JsonNumber::Negative(i),
            (None, None) => JsonNumber::Other(n.to_string()),
        }),
        serde_json::Value::String(s) => JsonValue::String(s),
        serde_json::Value::Array(items) => JsonValue::Array(items.into_iter().map(convert).collect()),
        serde_json::Value::Object(map) => {
            JsonValue::Object(map.into_iter().map(|(k, v)| (k, convert(v))).collect())
        }
    }
}

fn json(text: &str) -> JsonValue {
    convert(serde_json::from_str(text).unwrap())
}

fn canon(value: &JsonValue) -> serde_json::Value {
    serde_json::from_str(&to_json_text(value)).unwrap()
}

#[test]
fn endpoint_keeps_the_canonical_host_and_api_base() {
    let endpoint = Endpoint::new(" https://op.example.com/team/ ").unwrap();
    assert_eq!(endpoint.host, "https://op.example.com/team");
    assert_eq!(endpoint.base, "https://op.example.com/team/api/v3");
}

#[test]
fn request_paths_are_placed_under_the_api() {
    let endpoint = Endpoint::new("https://op.example.com").unwrap();
    assert_eq!(
        endpoint.url("/work_packages/1").unwrap(),
        "https://op.example.com/api/v3/work_packages/1"
    );
    assert_eq!(
        endpoint.url("//projects").unwrap(),
        "https://op.example.com/api/v3/projects"
    );
    assert_eq!(
        endpoint.url("/api/v3/users/me").unwrap(),
        "https://op.example.com/api/v3/users/me"
    );
    assert_eq!(endpoint.url("/api/v3").unwrap(), "https://op.example.com/api/v3");
}

#[test]
fn absolute_urls_must_share_the_origin() {
    let endpoint = Endpoint::new("https://op.example.com").unwrap();
    assert_eq!(
        endpoint.url("https://op.example.com:443/api/v3/projects?offset=2").unwrap(),
        "https://op.example.com:443/api/v3/projects?offset=2"
    );
    let error = endpoint.url("https://evil.example.com/api/v3/projects").unwrap_err();
    assert_eq!(error.kind, ErrorKind::CrossHostUrl);
    assert_eq!(error.message(), "refusing to send credentials to a different host");
    assert_eq!(
        endpoint.url("http://op.example.com/api/v3").unwrap_err().kind,
        ErrorKind::CrossHostUrl
    );
    assert_eq!(endpoint.url("https://").unwrap_err().kind, ErrorKind::UrlParse);
}

#[test]
fn reads_are_retried_twice_and_writes_never() {
    assert_eq!(retry_limit(true), 2);
    assert_eq!(retry_limit(false), 0);
}

#[test]
fn retry_decisions_follow_the_status_and_attempt() {
    let busy = SendOutcome::Response(503, Some("30".to_owned()));
    assert_eq!(next_step(0, 2, &busy), NextStep::Retry(10));
    assert_eq!(next_step(1, 2, &SendOutcome::Response(429, None)), NextStep::Retry(1));
    assert_eq!(
        next_step(0, 2, &SendOutcome::Response(429, Some("3".to_owned()))),
        NextStep::Retry(3)
    );
    assert_eq!(next_step(2, 2, &busy), NextStep::Finish);
    assert_eq!(next_step(0, 2, &SendOutcome::Response(404, None)), NextStep::Finish);
    assert_eq!(next_step(0, 0, &busy), NextStep::Finish);
    assert_eq!(next_step(0, 2, &SendOutcome::Failed), NextStep::Retry(1));
    assert_eq!(next_step(1, 2, &SendOutcome::Failed), NextStep::Retry(2));
    assert_eq!(next_step(2, 2, &SendOutcome::Failed), NextStep::Fail);
}

#[test]
fn retry_after_is_read_with_a_default_and_a_cap() {
    assert_eq!(retry_wait(&None), 1);
    assert_eq!(retry_wait(&Some("soon".to_owned())), 1);
    assert_eq!(retry_wait(&Some("4".to_owned())), 4);
    assert_eq!(retry_wait(&Some("600".to_owned())), 10);
}

#[test]
fn failed_responses_report_the_server_message() {
    let error = response_value(404, r#"{"message":"Not found","errorIdentifier":"urn:x"}"#).unwrap_err();
    assert_eq!(error.kind, ErrorKind::Http);
    assert_eq!(error.message(), "OpenProject HTTP 404: Not found");
    let error = response_value(422, r#"{"errorIdentifier":"urn:invalid"}"#).unwrap_err();
    assert_eq!(error.message(), "OpenProject HTTP 422: urn:invalid");
    let error = response_value(500, "gateway down").unwrap_err();
    assert_eq!(error.message(), "OpenProject HTTP 500: gateway down");
    assert_eq!(error_detail(r#"{"message":5,"errorIdentifier":"x"}"#), r#"{"message":5,"errorIdentifier":"x"}"#);
}

#[test]
fn successful_responses_are_parsed() {
    assert_eq!(response_value(204, "  \n").unwrap(), json("{}"));
    assert_eq!(response_value(200, r#"{"id":7}"#).unwrap(), json(r#"{"id":7}"#));
    let error = response_value(200, "{").unwrap_err();
    assert_eq!(error.kind, ErrorKind::InvalidResponseJson);
    assert!(error.message().starts_with("OpenProject returned invalid JSON: "));
}

#[test]
fn pages_add_their_size_and_offset() {
    assert_eq!(page_path("/projects", 25, 3), "/projects?pageSize=25&offset=3");
    assert_eq!(
        page_path("/relations?filters=x", 100, 1),
        "/relations?filters=x&pageSize=100&offset=1"
    );
    assert_eq!(collection_start("/statuses"), "/statuses?pageSize=100");
}

#[test]
fn collection_pages_give_elements_and_next_link() {
    let page = json(
        r#"{"_embedded":{"elements":[{"id":1},{"id":2}]},"_links":{"nextByOffset":{"href":"/api/v3/statuses?offset=2"}}}"#,
    );
    let (items, next) = collection_step(&page);
    assert_eq!(items, vec![json(r#"{"id":1}"#), json(r#"{"id":2}"#)]);
    assert_eq!(next.as_deref(), Some("/api/v3/statuses?offset=2"));
    let (items, next) = collection_step(&json(r#"{"total":0}"#));
    assert!(items.is_empty());
    assert!(next.is_none());
}

#[test]
fn compact_removes_nulls_at_every_depth() {
    let value = json(r#"{"a":null,"b":[1,null,{"c":null,"d":"x"}],"e":{"f":null}}"#);
    let once = compact(value);
    assert_eq!(once, json(r#"{"b":[1,{"d":"x"}],"e":{}}"#));
    let twice = compact(json(r#"{"b":[1,{"d":"x"}],"e":{}}"#));
    assert_eq!(twice, once);
}

#[test]
fn activity_pages_of_whole_collections_are_cut_locally() {
    let page = json(
        r#"{"_type":"Collection","_embedded":{"elements":[{"id":1},{"id":2},{"id":3},{"id":4},{"id":5}]}}"#,
    );
    let selected = activity_selection(&page, 2, 2);
    assert_eq!(selected, vec![json(r#"{"id":3}"#), json(r#"{"id":4}"#)]);
    let details = vec![json(r#"{"id":3,"comment":{"raw":"c"}}"#), json(r#"{"id":4}"#)];
    let result = activity_page_result(page, details, 2, 2);
    assert_eq!(
        canon(&result),
        canon(&json(
            r#"{"_type":"Collection","_embedded":{"elements":[{"id":3,"comment":{"raw":"c"}},{"id":4}]},"total":5,"count":2,"offset":2,"pageSize":2}"#
        ))
    );
}

#[test]
fn activity_pages_the_server_paged_are_kept() {
    let page = json(r#"{"pageSize":1,"_embedded":{"elements":[{"id":9}]}}"#);
    assert_eq!(activity_selection(&page, 5, 1), vec![json(r#"{"id":9}"#)]);
    let result = activity_page_result(page, vec![json(r#"{"id":9,"x":1}"#)], 5, 1);
    assert_eq!(canon(&result), canon(&json(r#"{"pageSize":1,"_embedded":{"elements":[{"id":9,"x":1}]}}"#)));
    assert!(activity_selection(&json(r#"{"_embedded":{"elements":[{"id":1}]}}"#), 3, 10).is_empty());
}

#[test]
fn relation_pages_gain_the_hierarchy_when_there_is_one() {
    let page = json(r#"{"total":0}"#);
    assert_eq!(with_hierarchy(json(r#"{"total":0}"#), Vec::new()), page);
    let with = with_hierarchy(page, vec![json(r#"{"type":"partof"}"#)]);
    assert_eq!(canon(&with), canon(&json(r#"{"total":0,"hierarchy":[{"type":"partof"}]}"#)));
}

#[test]
fn pointer_follows_object_keys() {
    let value = json(r#"{"a":{"b":{"c":3}}}"#);
    assert_eq!(pointer(&value, &vec!["a", "b", "c"]), Some(&json("3")));
    assert_eq!(pointer(&value, &vec!["a", "x"]), None);
}
