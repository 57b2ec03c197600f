use openproject::activities::time_entry_activity_values;
use openproject::config::{
    canonical_host, config_from_maps, credential_scope, parse_config, resolve_host, Config, Settings,
};
use openproject::credentials::{CredentialStore, CredentialStoreKind};
use openproject::cli::error_payload;
use openproject::error::CliError;
use openproject::json::{JsonNumber, entries_get, JsonValue};
use openproject::projects::{normalize, project_candidates, project_relevance, ProjectEvidence};
use openproject::workpackages::{custom_field_operations, work_package_path, TaskFilters};
use std::collections::HashMap;

fn convert(value: serde_json::Value) -> JsonValue {
    match value {
        serde_json::Value::Null => JsonValue::Null,
        serde_json::Value::Bool(b) => JsonValue::Bool(b),
        serde_json::Value::Number(n) => JsonValue::Number(match (n.as_u64(), n.as_i64()) {
            (Some(u), _) => JsonNumber::Unsigned(u),
            (None, Some(i)) => JsonNumber::Negative(i),
            (None, None) => JsonNumber::Other(n.to_string()),
        }),
        serde_json::Value::String(s) => JsonValue::String(s),
        serde_json::Value::Array(items) => JsonValue::Array(items.into_iter().map(convert).collect()),
        serde_json::Value::Object(map) => {
            JsonValue::Object(map.into_iter().map(|(k, v)| (k, convert(v))).collect())
        }
    }
}

fn json(text: &str) -> JsonValue {
    convert(serde_json::from_str(text).unwrap())
}

fn object(text: &str) -> Settings {
    match json(text) {
        JsonValue::Object(entries) => entries,
        other => panic!("expected an object, got {other:?}"),
    }
}

fn strings(values: &[&str]) -> Vec<String> {
    values.iter().map(|value| value.to_string()).collect()
}

struct MemoryCredentialStore {
    token: Option<String>,
}

impl MemoryCredentialStore {
    fn empty() -> Self {
        Self { token: None }
    }
}

impl CredentialStore for MemoryCredentialStore {
    fn name(&self) -> &'static str {
        "memory"
    }

    fn load(&self) -> Result<Option<String>, CliError> {
        Ok(self.token.clone())
    }

    fn save(&mut self, token: &str) -> Result<(), CliError> {
        self.token = Some(token.to_owned());
        Ok(())
    }

    fn delete(&mut self) -> Result<bool, CliError> {
        Ok(self.token.take().is_some())
    }
}

fn no_filters() -> TaskFilters {
    TaskFilters {
        all: false,
        query: None,
        due_before: None,
        updated_since: None,
        sort: Vec::new(),
    }
}

#[test]
fn reads_time_entry_activities_from_form_schema() {
    let form = json(
        r#"{
            "_embedded": {
                "schema": {
                    "activity": {
                        "_embedded": {
                            "allowedValues": [{
                                "id": 18,
                                "name": "Development",
                                "_links": {"self": {"href": "/api/v3/time_entries/activities/18"}}
                            }]
                        }
                    }
                }
            }
        }"#,
    );

    assert_eq!(
        time_entry_activity_values(&form).unwrap(),
        vec![json(
            r#"{"id": 18, "name": "Development", "href": "/api/v3/time_entries/activities/18"}"#
        )]
    );
}

#[test]
fn task_list_uses_server_side_filters_and_pagination() {
    let args = TaskFilters {
        query: Some("approval".to_owned()),
        ..no_filters()
    };
    let path = work_package_path(13, &args, Some(7), &vec![], &vec![], &vec![]).unwrap();
    let filters = url::form_urlencoded::parse(path.split_once('?').unwrap().1.as_bytes())
        .find_map(|(key, value)| if key == "filters" { Some(value.into_owned()) } else { None })
        .unwrap();
    assert!(filters.contains("\"status\":{\"operator\":\"o\""));
    assert!(filters.contains("\"assignee\":{\"operator\":\"=\""));
    assert!(filters.contains("approval"));
}

#[test]
fn task_list_supports_advanced_filters_and_sorting() {
    let args = TaskFilters {
        all: false,
        query: None,
        due_before: Some("2026-09-30".to_owned()),
        updated_since: Some("7d".to_owned()),
        sort: strings(&["priority:desc", "updated-at:desc"]),
    };

    let path = work_package_path(13, &args, None, &vec![5], &vec![2], &vec![9]).unwrap();
    let parameters = url::form_urlencoded::parse(path.split_once('?').unwrap().1.as_bytes())
        .into_owned()
        .collect::<HashMap<String, String>>();
    let filters: serde_json::Value = serde_json::from_str(&parameters["filters"]).unwrap();
    let sort_by: serde_json::Value = serde_json::from_str(&parameters["sortBy"]).unwrap();

    let expected_status: serde_json::Value =
        serde_json::from_str(r#"{"status":{"operator":"=","values":[5]}}"#).unwrap();
    let expected_due: serde_json::Value =
        serde_json::from_str(r#"{"dueDate":{"operator":"<=d","values":["2026-09-30"]}}"#).unwrap();
    let expected_updated: serde_json::Value =
        serde_json::from_str(r#"{"updatedAt":{"operator":">t-","values":[7]}}"#).unwrap();
    let expected_sort: serde_json::Value =
        serde_json::from_str(r#"[["priority", "desc"], ["updatedAt", "desc"]]"#).unwrap();
    assert_eq!(filters[0], expected_status);
    assert!(filters.as_array().unwrap().contains(&expected_due));
    assert!(filters.as_array().unwrap().contains(&expected_updated));
    assert_eq!(sort_by, expected_sort);
}

#[test]
fn custom_field_operations_keep_scalar_and_link_values_separate() {
    let (properties, links) = custom_field_operations(
        &strings(&["customField1=true", "customField2=Acme"]),
        &strings(&["customField3=/api/v3/users/14"]),
        &strings(&["customField4"]),
        &strings(&["customField5"]),
    )
    .unwrap();

    assert_eq!(entries_get(&properties, "customField1"), Some(&JsonValue::Bool(true)));
    assert_eq!(
        entries_get(&properties, "customField2"),
        Some(&JsonValue::String("Acme".to_owned()))
    );
    assert!(entries_get(&properties, "customField4").unwrap().is_null());
    assert_eq!(
        entries_get(&links, "customField3"),
        Some(&json(r#"{"href":"/api/v3/users/14"}"#))
    );
    assert!(entries_get(&links, "customField5").unwrap().is_null());
}

#[test]
fn duplicate_custom_field_operations_are_rejected() {
    let error = custom_field_operations(
        &strings(&["customField1=value"]),
        &vec![],
        &strings(&["customField1"]),
        &vec![],
    )
    .unwrap_err();

    assert!(error.message().contains("supplied more than once"));
}

#[test]
fn project_candidates_include_readme_and_manifest_names() {
    let evidence = ProjectEvidence {
        root_name: Some("openproject-project-candidates".to_owned()),
        cwd_name: None,
        readme: Some("# Readme Project\n".to_owned()),
        cargo_toml: Some("[package]\nname = \"cargo-project\"\n".to_owned()),
        pyproject_toml: None,
        package_json: Some(r#"{"name":"node-project"}"#.to_owned()),
        composer_json: None,
    };

    let candidates = project_candidates(&evidence);

    assert!(candidates.iter().any(|value| value == "Readme Project"));
    assert!(candidates.iter().any(|value| value == "cargo-project"));
    assert!(candidates.iter().any(|value| value == "node-project"));
}

#[test]
fn project_relevance_suggests_related_names_but_not_generic_words() {
    assert!(project_relevance("customer-portal-app", "Customer Portal").is_some());
    assert!(project_relevance("billing", "Billing Service").is_some());
    assert!(project_relevance("api-client", "API Service").is_none());
}

#[test]
fn project_config_overrides_global_host() {
    let global = object(r#"{"host":"https://global.example.com"}"#);
    let project = object(r#"{"host":"https://project.example.com","project_id":13}"#);
    let config = config_from_maps(&global, "global.json", &project, ".openproject.json").unwrap();
    assert_eq!(
        config,
        Config {
            host: Some("https://project.example.com".into()),
            project: Some("13".into()),
            credential_store: None,
        }
    );
}

#[test]
fn global_config_rejects_project_settings() {
    let global = object(r#"{"host":"https://global.example.com","project_id":13}"#);
    let error = config_from_maps(&global, "global.json", &Vec::new(), ".openproject.json").unwrap_err();
    assert!(error.message().contains("project_id"));
    assert!(error.message().contains("global.json"));
}

#[test]
fn project_id_takes_precedence_over_project_alias() {
    let project = object(r#"{"project_id":13,"project":"legacy"}"#);
    let config = config_from_maps(&Vec::new(), "global.json", &project, ".openproject.json").unwrap();
    assert_eq!(config.project.as_deref(), Some("13"));
}

#[test]
fn host_precedence_is_cli_then_environment_then_config() {
    let config = Config {
        host: Some("https://config.example.com".into()),
        project: None,
        credential_store: None,
    };
    assert_eq!(
        resolve_host(
            Some("https://cli.example.com"),
            Some("https://env.example.com".into()),
            &config,
        )
        .unwrap(),
        "https://cli.example.com"
    );
    assert_eq!(
        resolve_host(None, Some("https://env.example.com".into()), &config).unwrap(),
        "https://env.example.com"
    );
    assert_eq!(resolve_host(None, None, &config).unwrap(), "https://config.example.com");
}

#[test]
fn invalid_configured_host_is_reported_before_token_lookup() {
    let config = Config {
        host: Some("not a URL".into()),
        project: None,
        credential_store: None,
    };

    let error = resolve_host(None, None, &config).unwrap_err();

    assert!(error
        .message()
        .contains("OpenProject URL must be an absolute http(s) URL"));
}

#[test]
fn canonical_host_removes_trailing_slashes_and_query_data() {
    assert_eq!(
        canonical_host("https://openproject.example.com/team/?ignored=value#fragment").unwrap(),
        "https://openproject.example.com/team"
    );
}

#[test]
fn credential_scopes_are_isolated_by_host() {
    assert_ne!(
        credential_scope("https://one.example.com").unwrap(),
        credential_scope("https://two.example.com").unwrap()
    );
}

#[test]
fn credential_store_can_save_and_load_a_token() {
    let mut store = MemoryCredentialStore::empty();
    store.save("stored-token").unwrap();
    assert_eq!(store.load().unwrap().as_deref(), Some("stored-token"));
}

#[test]
fn credential_store_can_delete_a_token() {
    let mut store = MemoryCredentialStore::empty();
    store.save("stored-token").unwrap();
    assert!(store.delete().unwrap());
    assert_eq!(store.load().unwrap(), None);
    assert!(!store.delete().unwrap());
}

#[test]
fn config_accepts_the_selected_store_but_project_config_cannot_set_it() {
    let global = object(r#"{"host":"https://example.com","credential_store":"file"}"#);
    let config = config_from_maps(&global, "global.json", &Vec::new(), ".openproject.json").unwrap();
    assert_eq!(config.credential_store, Some(CredentialStoreKind::File));
    let project = object(r#"{"credential_store":"file"}"#);
    assert!(config_from_maps(&Vec::new(), "global.json", &project, ".openproject.json").is_err());
}

#[test]
fn malformed_config_reports_its_path() {
    let error = parse_config("{", "broken.json").unwrap_err();
    assert!(error.message().contains("invalid JSON in broken.json"));
}

#[test]
fn json_errors_have_a_stable_agent_friendly_shape() {
    let error = anyhow::Error::msg("configuration failed").context("cannot start");
    let message = format!("{error:#}");
    assert_eq!(
        error_payload(&message),
        json(r#"{"error":{"message":"cannot start: configuration failed"}}"#)
    );
}

#[test]
fn normalizes_project_names() {
    assert_eq!(normalize("My_Project!"), "my project");
}
