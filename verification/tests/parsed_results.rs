use openproject::activities::{activity_selection, iso_duration, iso_duration_from_match};
use openproject::cli::{prompt_confirmation, purge_lines, uninstall_lines};
use openproject::client::{absolute_url, body_from_parsed, detail_from_parsed, response_value, Endpoint};
use openproject::config::{canonical_host, host_from_serialized, host_path};
use openproject::error::ErrorKind;
use openproject::json::{JsonNumber, JsonValue};
use openproject::outside::UrlParts;
use openproject::projects::{normalize, project_relevance, relevance_score};
use openproject::credentials::{CredentialFile, DeleteAction, FileCredentialStore};
use openproject::release::{repository, scp_repository, url_repository};
use openproject::requests::{check_log_date, log_date_from_check};
use openproject::workpackages::{due_before_filter, relation_path_from, task_list_path};

fn parts(scheme: &str, host: Option<&str>, port: Option<u16>, path: &str) -> UrlParts {
    UrlParts {
        scheme: scheme.to_owned(),
        host: host.map(str::to_owned),
        port,
        path: path.to_owned(),
    }
}

fn object(entries: Vec<(&str, JsonValue)>) -> JsonValue {
    JsonValue::Object(entries.into_iter().map(|(k, v)| (k.to_owned(), v)).collect())
}

#[test]
fn an_empty_answer_keeps_the_saved_token() {
    assert!(!prompt_confirmation(""));
    assert!(prompt_confirmation("yes"));
    assert!(!prompt_confirmation("no"));
}

#[test]
fn host_paths_lose_trailing_slashes_and_need_http() {
    assert_eq!(host_path(Ok(parts("https", Some("op.example.com"), Some(443), "/op//"))).unwrap(), "/op");
    assert_eq!(
        host_path(Ok(parts("ftp", Some("op.example.com"), Some(21), "/"))).unwrap_err().kind,
        ErrorKind::InvalidHostUrl
    );
    assert_eq!(
        host_path(Ok(parts("https", None, None, "/"))).unwrap_err().kind,
        ErrorKind::InvalidHostUrl
    );
    let error = host_path(Err("relative URL without a base".to_owned())).unwrap_err();
    assert_eq!(error.kind, ErrorKind::InvalidHostUrl);
    assert_eq!(error.args, vec!["relative URL without a base".to_owned()]);
    assert_eq!(host_from_serialized(Some("https://op.example.com/".to_owned())).unwrap(), "https://op.example.com");
    assert_eq!(host_from_serialized(None).unwrap_err().kind, ErrorKind::InvalidHostUrl);
    assert_eq!(canonical_host(" https://op.example.com/a/?q=1#x ").unwrap(), "https://op.example.com/a");
}

#[test]
fn repositories_from_parsed_remotes() {
    let (base, host) = url_repository(Ok(parts("ssh", Some("github.com"), Some(22), "/me/tool.git/"))).unwrap();
    assert_eq!(base, "https://github.com/me/tool");
    assert_eq!(host, "github.com");
    assert_eq!(
        url_repository(Ok(parts("file", None, None, "/srv/repo.git"))).unwrap_err().kind,
        ErrorKind::RemoteWithoutHost
    );
    assert_eq!(url_repository(Err("bad".to_owned())).unwrap_err().kind, ErrorKind::UrlParse);
    let (base, host) = scp_repository(Some(Some(("gitlab.com".to_owned(), "me/tool.git".to_owned())))).unwrap();
    assert_eq!(base, "https://gitlab.com/me/tool");
    assert_eq!(host, "gitlab.com");
    assert_eq!(scp_repository(Some(None)).unwrap_err().kind, ErrorKind::UnsupportedRemote);
    assert_eq!(scp_repository(None).unwrap_err().kind, ErrorKind::InvalidPattern);
    assert_eq!(repository("git@github.com:me/tool.git").unwrap().0, "https://github.com/me/tool");
}

#[test]
fn parsed_absolute_urls_must_share_the_origin() {
    let host = || Ok(parts("https", Some("op.example.com"), Some(443), "/"));
    let same = Ok(parts("https", Some("op.example.com"), Some(443), "/api/v3/x"));
    assert_eq!(absolute_url("https://op.example.com/api/v3/x", same, host()).unwrap(), "https://op.example.com/api/v3/x");
    let other = Ok(parts("https", Some("evil.example.com"), Some(443), "/"));
    assert_eq!(absolute_url("https://evil.example.com/", other, host()).unwrap_err().kind, ErrorKind::CrossHostUrl);
    let port = Ok(parts("https", Some("op.example.com"), Some(8443), "/"));
    assert_eq!(absolute_url("https://op.example.com:8443/", port, host()).unwrap_err().kind, ErrorKind::CrossHostUrl);
    assert_eq!(absolute_url("https://[", Err("invalid".to_owned()), host()).unwrap_err().kind, ErrorKind::UrlParse);
    let endpoint = Endpoint::new("https://op.example.com").unwrap();
    assert_eq!(endpoint.url("https://evil.example.com/x").unwrap_err().kind, ErrorKind::CrossHostUrl);
}

#[test]
fn response_details_and_bodies_from_parsed_text() {
    let body = object(vec![("message", JsonValue::String("Not allowed".to_owned()))]);
    assert_eq!(detail_from_parsed("{...}", Ok(body)), "Not allowed");
    let body = object(vec![("errorIdentifier", JsonValue::String("urn:x".to_owned()))]);
    assert_eq!(detail_from_parsed("{...}", Ok(body)), "urn:x");
    let body = object(vec![("message", JsonValue::Number(JsonNumber::Unsigned(3)))]);
    assert_eq!(detail_from_parsed("raw", Ok(body)), "raw");
    assert_eq!(detail_from_parsed("raw text", Err("expected value".to_owned())), "raw text");
    assert_eq!(body_from_parsed(Ok(JsonValue::Null)).unwrap(), JsonValue::Null);
    let error = body_from_parsed(Err("EOF".to_owned())).unwrap_err();
    assert_eq!(error.kind, ErrorKind::InvalidResponseJson);
    assert_eq!(error.args, vec!["EOF".to_owned()]);
    assert_eq!(
        response_value(403, r#"{"message":"Denied"}"#).unwrap_err().args,
        vec!["403".to_owned(), "Denied".to_owned()]
    );
}

#[test]
fn dates_and_durations_from_outside_results() {
    assert!(log_date_from_check(None).is_ok());
    let error = log_date_from_check(Some("input contains invalid characters".to_owned())).unwrap_err();
    assert_eq!(error.kind, ErrorKind::InvalidDate);
    assert!(check_log_date("2024-02-29").is_ok());
    assert_eq!(check_log_date("2023-02-29").unwrap_err().kind, ErrorKind::InvalidDate);
    let filter = due_before_filter("2024-05-01", None).unwrap();
    assert_eq!(
        filter,
        object(vec![(
            "dueDate",
            object(vec![
                ("operator", JsonValue::String("<=d".to_owned())),
                ("values", JsonValue::Array(vec![JsonValue::String("2024-05-01".to_owned())])),
            ])
        )])
    );
    assert_eq!(due_before_filter("x", Some("bad".to_owned())).unwrap_err().kind, ErrorKind::InvalidDueBefore);
    assert_eq!(iso_duration_from_match("PT1H".to_owned(), Some(true)).unwrap(), Some("PT1H".to_owned()));
    assert_eq!(iso_duration_from_match("PT".to_owned(), Some(true)).unwrap(), None);
    assert_eq!(iso_duration_from_match("1.5".to_owned(), Some(false)).unwrap(), None);
    assert_eq!(iso_duration_from_match("P".to_owned(), None).unwrap_err().kind, ErrorKind::InvalidPattern);
    assert_eq!(iso_duration("pt2h30m").unwrap(), Some("PT2H30M".to_owned()));
}

#[test]
fn listing_paths_from_json_texts() {
    assert_eq!(task_list_path(13, None, None), "/projects/13/work_packages");
    assert_eq!(
        task_list_path(13, Some("[1]".to_owned()), Some(r#"[["id","asc"]]"#.to_owned())),
        "/projects/13/work_packages?filters=%5B1%5D&sortBy=%5B%5B%22id%22%2C%22asc%22%5D%5D"
    );
    assert_eq!(
        task_list_path(13, None, Some("[]".to_owned())),
        "/projects/13/work_packages?sortBy=%5B%5D"
    );
    assert_eq!(relation_path_from("{}"), "/relations?filters=%7B%7D");
}

#[test]
fn purge_lines_use_the_given_quoted_texts() {
    let lines = purge_lines("\"removed\"", "\"/cfg\"", "not_empty", &vec![]);
    assert_eq!(
        lines,
        vec![
            "Global config: \"removed\"".to_owned(),
            "Global config directory retained because it is not empty: \"/cfg\"".to_owned(),
            "Stored credentials: none removed".to_owned(),
        ]
    );
    let lines = uninstall_lines(
        "/bin/openproject",
        "removed",
        &Some((
            "missing".to_owned(),
            "/cfg \"dir\"".to_owned(),
            "not_empty".to_owned(),
            vec!["file".to_owned(), "native".to_owned()],
        )),
    );
    assert_eq!(
        lines,
        vec![
            "Removed /bin/openproject".to_owned(),
            "Global config: \"missing\"".to_owned(),
            "Global config directory retained because it is not empty: \"/cfg \\\"dir\\\"\"".to_owned(),
            "Stored credentials removed from: file, native".to_owned(),
        ]
    );
}

#[test]
fn activity_offsets_past_the_collection_give_an_empty_page() {
    let elements: Vec<JsonValue> = (1..=3)
        .map(|n| object(vec![("id", JsonValue::Number(JsonNumber::Unsigned(n)))]))
        .collect();
    let page = object(vec![("_embedded", object(vec![("elements", JsonValue::Array(elements))]))]);
    assert!(activity_selection(&page, u32::MAX, 1000).is_empty());
    assert!(activity_selection(&page, 5_000_000, 1000).is_empty());
    assert_eq!(activity_selection(&page, 2, 2).len(), 1);
}

#[test]
fn normalized_names_and_relevance() {
    let n = normalize("  Hello, WORLD -- 42!! ");
    assert_eq!(n, "hello world 42");
    assert!(n.chars().all(|c| c.is_ascii_lowercase() || c.is_ascii_digit() || c == ' '));
    assert!(!n.contains("  ") && !n.starts_with(' ') && !n.ends_with(' '));
    for (a, b) in [("openproject-cli", "OpenProject"), ("my tool suite", "tool suite")] {
        assert_eq!(project_relevance(a, b), project_relevance(b, a));
    }
    assert_eq!(project_relevance("same", "SAME"), None);
    assert!(project_relevance("openproject-cli", "OpenProject").unwrap() >= 110);
}

#[test]
fn deleting_a_credential_keeps_the_file_version() {
    let store = FileCredentialStore::at("https://one.example.com", "credentials.json".to_owned());
    let mut file = CredentialFile {
        version: 2,
        credentials: vec![
            ("https://one.example.com".to_owned(), "t1".to_owned()),
            ("https://two.example.com".to_owned(), "t2".to_owned()),
        ],
    };
    assert_eq!(store.delete_from(&mut file), DeleteAction::Rewrite);
    assert_eq!(file.version, 2);
    assert_eq!(file.token_for("https://two.example.com").as_deref(), Some("t2"));
}

#[test]
fn wide_relevance_scores_are_symmetric() {
    assert_eq!(relevance_score("Acme Billing Portal", "acme-billing"), relevance_score("acme-billing", "Acme Billing Portal"));
    assert_eq!(relevance_score("openproject", "OpenProject CLI"), Some(211));
    assert_eq!(relevance_score("", "anything"), None);
}
