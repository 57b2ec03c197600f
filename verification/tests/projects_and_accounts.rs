use openproject::cli::{
    auth_status_text, auth_status_value, bind_preview, bind_report, display_lines, git_output, git_root, login_host,
    login_output_check, login_store_order, login_token_check, prompt_confirmation, startup,
    token_kept, uninstall_lines, uninstall_preview_lines, CommandKind, Startup,
};
use openproject::config::{
    credential_store_setting, host_setting, project_setting,
    bind_settings, global_config_path, global_config_update, join, project_config_path, Settings,
};
use openproject::credentials::{
    credential_kinds, logout_store, preferred_store, resolve_credential, resolve_token, store_for,
    CredentialBackend, CredentialFile, CredentialStoreKind, DeleteAction, FileCredentialStore,
    NativeCredentialStore, StoreAttempt,
};
use openproject::error::{CliError, ErrorKind};
use openproject::json::{JsonNumber, entries_get, JsonValue};
use openproject::projects::{
    add_project_candidate, manifest_name, normalize, project_lookup, readme_heading,
    related_projects, resolve_item, resolve_items, resolve_user, select_directory_project,
    select_named_item, select_named_project, ProjectLookup, UserRef,
};
use openproject::release::{
    commit_link, installer_url, latest_release_version, purge_credential_host, purge_plan_value,
    purge_report, purge_stores, release_repository, requested_release_version, ReleaseRequest,
};


fn to_serde(value: &JsonValue) -> serde_json::Value {
    match value {
        JsonValue::Null => serde_json::Value::Null,
        JsonValue::Bool(b) => serde_json::Value::Bool(*b),
        JsonValue::Number(JsonNumber::Unsigned(n)) => serde_json::Value::from(*n),
        JsonValue::Number(JsonNumber::Negative(n)) => serde_json::Value::from(*n),
        JsonValue::Number(JsonNumber::Other(t)) => serde_json::Value::Number(t.parse().unwrap()),
        JsonValue::String(s) => serde_json::Value::String(s.clone()),
        JsonValue::Array(items) => serde_json::Value::Array(items.iter().map(to_serde).collect()),
        JsonValue::Object(es) => {
            serde_json::Value::Object(es.iter().map(|(k, v)| (k.clone(), to_serde(v))).collect())
        }
    }
}

fn to_json_text(value: &JsonValue) -> String {
    to_serde(value).to_string()
}

fn convert(value: serde_json::Value) -> JsonValue {
    match value {
        serde_json::Value::Null => JsonValue::Null,
        serde_json::Value::Bool(b) => JsonValue::Bool(b),
        serde_json::Value::Number(n) => JsonValue::Number(match (n.as_u64(), n.as_i64()) {
            (Some(u), _) => JsonNumber::Unsigned(u),
            (None, Some(i)) => JsonNumber::Negative(i),
            (None, None) => JsonNumber::Other(n.to_string()),
        }),
        serde_json::Value::String(s) => JsonValue::String(s),
        serde_json::Value::Array(items) => JsonValue::Array(items.into_iter().map(convert).collect()),
        serde_json::Value::Object(map) => {
            JsonValue::Object(map.into_iter().map(|(k, v)| (k, convert(v))).collect())
        }
    }
}

fn json(text: &str) -> JsonValue {
    convert(serde_json::from_str(text).unwrap())
}

fn same(value: &JsonValue, text: &str) -> bool {
    let left: serde_json::Value = serde_json::from_str(&to_json_text(value)).unwrap();
    left == serde_json::from_str::<serde_json::Value>(text).unwrap()
}

fn strings(values: &[&str]) -> Vec<String> {
    values.iter().map(|value| value.to_string()).collect()
}

#[test]
fn normalizing_twice_changes_nothing() {
    for name in ["My_Project!", "  Billing--Service 2 ", "ÄÖ-app", ""] {
        assert_eq!(normalize(&normalize(name)), normalize(name));
    }
    assert_eq!(normalize("  Billing--Service 2 "), "billing service 2");
}

#[test]
fn candidates_are_trimmed_and_unique_by_normalized_name() {
    let mut candidates = Vec::new();
    add_project_candidate(&mut candidates, "  My-App ");
    add_project_candidate(&mut candidates, "my app");
    add_project_candidate(&mut candidates, "!!!");
    add_project_candidate(&mut candidates, "Other");
    assert_eq!(candidates, strings(&["My-App", "Other"]));
}

#[test]
fn manifests_and_readmes_name_projects() {
    let cargo = "[workspace]\nname = \"no\"\n[package]\nversion = \"1\"\n name = 'cargo-project' \n";
    assert_eq!(manifest_name(cargo, "package").as_deref(), Some("cargo-project"));
    assert_eq!(manifest_name(cargo, "project"), None);
    assert_eq!(readme_heading("intro\r\n  # Title here\n# Second").as_deref(), Some("Title here"));
    assert_eq!(readme_heading("## Sub\n"), None);
}

#[test]
fn named_projects_match_name_or_identifier_exactly() {
    let projects = vec![
        json(r#"{"id":1,"name":"Customer Portal","identifier":"portal"}"#),
        json(r#"{"id":2,"name":"Billing","identifier":"billing-service"}"#),
    ];
    assert!(same(&select_named_project(&projects, "customer_portal").unwrap(), r#"{"id":1,"name":"Customer Portal","identifier":"portal"}"#));
    assert!(same(&select_named_project(&projects, "Billing Service").unwrap(), r#"{"id":2,"name":"Billing","identifier":"billing-service"}"#));
    let error = select_named_project(&projects, "Payroll").unwrap_err();
    assert_eq!(error.message(), "no OpenProject project exactly matches \"Payroll\"");
    assert!(matches!(project_lookup(Some("12"), None), ProjectLookup::ById(12)));
    assert!(matches!(project_lookup(None, Some(&"Billing".to_owned())), ProjectLookup::ByName(_)));
    assert!(matches!(project_lookup(None, None), ProjectLookup::ByDirectory));
}

#[test]
fn directories_resolve_by_evidence_or_suggest_related_projects() {
    let projects = vec![
        json(r#"{"id":1,"name":"Customer Portal","identifier":"portal"}"#),
        json(r#"{"id":2,"name":"Billing Service","identifier":"billing"}"#),
    ];
    let found = select_directory_project(&projects, &strings(&["billing"])).unwrap();
    assert!(same(&found, r#"{"id":2,"name":"Billing Service","identifier":"billing"}"#));
    let error = select_directory_project(&projects, &strings(&["customer-portal-app"])).unwrap_err();
    assert_eq!(error.kind, ErrorKind::RelatedProjectsOnly);
    assert_eq!(
        error.message(),
        "no exact project match for this directory; related projects: Customer Portal (portal, ID 1). Select one with --project or .openproject.json"
    );
    let error = select_directory_project(&projects, &strings(&["zzz"])).unwrap_err();
    assert_eq!(error.kind, ErrorKind::UnresolvedDirectory);
    let related = related_projects(&projects, &strings(&["customer-portal-app", "billing-service-api"]));
    assert_eq!(related.len(), 2);
}

#[test]
fn items_resolve_numbers_directly_and_names_by_lookup() {
    let statuses = vec![json(r#"{"id":1,"name":"New"}"#), json(r#"{"id":7,"name":"In progress"}"#)];
    assert_eq!(resolve_item("42", None, "status").unwrap(), 42);
    assert_eq!(resolve_item("in-progress", Some(&statuses), "status").unwrap(), 7);
    assert_eq!(select_named_item(&statuses, "Closed", "status").unwrap_err().message(), "no status exactly matches \"Closed\"");
    assert_eq!(resolve_items(&strings(&["3", "new"]), Some(&statuses), "status").unwrap(), vec![3, 1]);
    assert_eq!(resolve_items(&strings(&["3", "4"]), None, "status").unwrap(), vec![3, 4]);
    let twins = vec![json(r#"{"id":1,"name":"Dup"}"#), json(r#"{"id":2,"name":"dup"}"#)];
    assert_eq!(
        resolve_items(&strings(&["dup"]), Some(&twins), "type").unwrap_err().message(),
        "multiple type values match \"dup\"; use a numeric ID"
    );
}

#[test]
fn users_are_me_or_numbers() {
    assert_eq!(resolve_user("ME").unwrap(), UserRef::Me);
    assert_eq!(resolve_user("17").unwrap(), UserRef::Id(17));
    assert_eq!(resolve_user("bob").unwrap_err().message(), "user must be a numeric ID or 'me'");
}

#[test]
fn file_credentials_are_host_scoped_and_replaceable_in_memory() {
    let one = FileCredentialStore::at("https://one.example.com/", "credentials.json".to_owned());
    let two = FileCredentialStore::at("https://two.example.com", "credentials.json".to_owned());
    let mut file = CredentialFile::empty();
    one.save_into(&mut file, "one");
    two.save_into(&mut file, "two");
    one.save_into(&mut file, "new-one");
    assert_eq!(one.load_from(&file).as_deref(), Some("new-one"));
    assert_eq!(two.load_from(&file).as_deref(), Some("two"));
    assert_eq!(one.delete_from(&mut file), DeleteAction::Rewrite);
    assert_eq!(one.load_from(&file), None);
    assert_eq!(one.delete_from(&mut file), DeleteAction::Unchanged);
    assert_eq!(two.delete_from(&mut file), DeleteAction::RemoveFile);
    assert!(file.is_empty());
}

#[test]
fn credentials_come_from_the_environment_first() {
    let resolved = resolve_credential(Some("env".to_owned()), Some(Some("file".to_owned())), None, vec![]).unwrap();
    assert_eq!((resolved.token.as_str(), resolved.source), ("env", "environment"));
    let resolved = resolve_credential(None, Some(Some("  tok \n".to_owned())), None, vec![]).unwrap();
    assert_eq!((resolved.token.as_str(), resolved.source), ("tok", "token_file"));
    assert_eq!(resolve_token(None, Some(Some(" \n".to_owned())), None, vec![]).unwrap_err().kind, ErrorKind::TokenFileEmpty);
    assert_eq!(resolve_token(None, Some(None), None, vec![]).unwrap_err().kind, ErrorKind::TokenFileUnreadable);
}

#[test]
fn persistent_stores_are_consulted_in_order() {
    assert_eq!(credential_kinds(None), vec![CredentialStoreKind::Native, CredentialStoreKind::File]);
    assert_eq!(credential_kinds(Some(CredentialStoreKind::File)), vec![CredentialStoreKind::File]);
    let attempts = vec![
        (CredentialStoreKind::Native, StoreAttempt::Missing),
        (CredentialStoreKind::File, StoreAttempt::Found("saved".to_owned())),
    ];
    let resolved = resolve_credential(None, None, None, attempts).unwrap();
    assert_eq!((resolved.token.as_str(), resolved.source), ("saved", "file"));
    let attempts = vec![
        (CredentialStoreKind::Native, StoreAttempt::Failed),
        (CredentialStoreKind::File, StoreAttempt::Missing),
    ];
    let error = resolve_credential(None, None, Some(CredentialStoreKind::Native), attempts).unwrap_err();
    assert_eq!(error.kind, ErrorKind::ConfiguredCredentialUnreadable);
    let attempts = vec![(CredentialStoreKind::Native, StoreAttempt::Failed), (CredentialStoreKind::File, StoreAttempt::Missing)];
    let error = resolve_credential(None, None, None, attempts).unwrap_err();
    assert!(error.message().starts_with("No OpenProject credential found."));
}

#[test]
fn stores_are_designated_per_host() {
    match store_for(CredentialStoreKind::Native, "https://one.example.com/", None).unwrap() {
        CredentialBackend::Native(NativeCredentialStore { scope }) => assert_eq!(scope, "https%3A%2F%2Fone.example.com"),
        CredentialBackend::File(_) => panic!("expected the system store"),
    }
    assert_eq!(
        store_for(CredentialStoreKind::File, "https://one.example.com", None).err().map(|e: CliError| e.kind),
        Some(ErrorKind::NoCredentialDirectory)
    );
    match store_for(CredentialStoreKind::File, "https://one.example.com", Some("/home/me/.config".to_owned())).unwrap() {
        CredentialBackend::File(store) => {
            assert_eq!(store.path, "/home/me/.config/openproject/credentials.json");
            assert_eq!(store.host, "https://one.example.com");
        }
        CredentialBackend::Native(_) => panic!("expected the file store"),
    }
    assert_eq!(preferred_store(true, false, true), CredentialStoreKind::File);
    assert_eq!(preferred_store(false, true, false), CredentialStoreKind::File);
    assert_eq!(preferred_store(false, true, true), CredentialStoreKind::Native);
    assert_eq!(logout_store(None).unwrap_err().message(), "no persistent credential store is configured");
}

#[test]
fn configuration_files_are_placed_and_updated() {
    assert_eq!(project_config_path(Some("/repo".to_owned()), "/repo/sub"), "/repo/.openproject.json");
    assert_eq!(project_config_path(None, "/tmp/x/"), "/tmp/x/.openproject.json");
    assert_eq!(global_config_path(Some("/home/me/.config".to_owned())).as_deref(), Some("/home/me/.config/openproject/config.json"));
    assert_eq!(join("", "a"), "a");
    let settings: Settings = match json(r#"{"host":"https://old.example.com","credential_store":"native"}"#) {
        JsonValue::Object(entries) => entries,
        _ => unreachable!(),
    };
    let updated = global_config_update(settings, "config.json", "https://new.example.com", None).unwrap();
    assert!(same(&JsonValue::Object(updated), r#"{"host":"https://new.example.com"}"#));
    let bound = bind_settings(vec![("project".to_owned(), JsonValue::String("legacy".to_owned()))], ".openproject.json", 13).unwrap();
    assert_eq!(entries_get(&bound, "project_id"), Some(&json("13")));
    assert_eq!(entries_get(&bound, "project"), None);
    let error = bind_settings(vec![("credential_store".to_owned(), JsonValue::String("file".to_owned()))], ".openproject.json", 13).unwrap_err();
    assert_eq!(error.message(), "unsupported setting \"credential_store\" in .openproject.json");
}

#[test]
fn commit_links_follow_the_forge() {
    let link = commit_link("abcdef1234", "abcdef12", "git@github.com:org/repo.git").unwrap();
    assert!(same(
        &link,
        r#"{"commit":"abcdef1234","shortCommit":"abcdef12","repository":"https://github.com/org/repo","url":"https://github.com/org/repo/commit/abcdef1234","html":"<a href=\"https://github.com/org/repo/commit/abcdef1234\"><code>abcdef12</code></a>"}"#
    ));
    let link = commit_link("c1", "c1", "https://gitlab.example.com/group/sub/repo.git.git/").unwrap();
    assert!(same(&link, r#"{"commit":"c1","shortCommit":"c1","repository":"https://gitlab.example.com/group/sub/repo","url":"https://gitlab.example.com/group/sub/repo/-/commit/c1","html":"<a href=\"https://gitlab.example.com/group/sub/repo/-/commit/c1\"><code>c1</code></a>"}"#));
    let link = commit_link("c2", "c2", "ssh://git@bitbucket.org/team/repo.git").unwrap();
    assert!(same(&link, r#"{"commit":"c2","shortCommit":"c2","repository":"https://bitbucket.org/team/repo","url":"https://bitbucket.org/team/repo/commits/c2","html":"<a href=\"https://bitbucket.org/team/repo/commits/c2\"><code>c2</code></a>"}"#));
    let error = commit_link("c", "c", "git@example.org:team/repo.git").unwrap_err();
    assert_eq!(error.message(), "cannot determine commit route for Git host \"example.org\"");
    assert_eq!(commit_link("c", "c", "not a remote").unwrap_err().kind, ErrorKind::UnsupportedRemote);
    assert_eq!(commit_link("c", "c", "file:///srv/repo.git").unwrap_err().kind, ErrorKind::RemoteWithoutHost);
}

#[test]
fn releases_and_installers_have_their_locations() {
    assert_eq!(release_repository(None), "yungts97/openproject-skill");
    assert_eq!(release_repository(Some("/me/fork/".to_owned())), "me/fork");
    assert_eq!(installer_url("me/fork", false), "https://raw.githubusercontent.com/me/fork/main/scripts/install.sh");
    assert_eq!(installer_url("/me/fork/", true), "https://raw.githubusercontent.com/me/fork/main/scripts/install.ps1");
    assert_eq!(requested_release_version("LaTeSt"), ReleaseRequest::Latest);
    assert_eq!(requested_release_version("vv0.2.0"), ReleaseRequest::Exact("0.2.0".to_owned()));
}

#[test]
fn latest_release_comes_from_the_redirect() {
    let url = "https://github.com/o/r/releases/latest";
    let version = latest_release_version(url, "302 Found", true, Some(Some("https://github.com/o/r/releases/tag/v0.3.1".to_owned())));
    assert_eq!(version.unwrap(), "0.3.1");
    let error = latest_release_version(url, "200 OK", false, None).unwrap_err();
    assert_eq!(error.message(), "latest release check expected a redirect from https://github.com/o/r/releases/latest, got 200 OK");
    assert_eq!(latest_release_version(url, "302", true, None).unwrap_err().kind, ErrorKind::ReleaseNoLocation);
    assert_eq!(latest_release_version(url, "302", true, Some(Some("https://github.com/".to_owned()))).unwrap_err().kind, ErrorKind::ReleaseNoVersion);
    assert_eq!(latest_release_version(url, "302", true, Some(Some("::".to_owned()))).unwrap_err().kind, ErrorKind::ReleaseLocationInvalid);
}

#[test]
fn purges_choose_the_host_and_stores() {
    assert_eq!(purge_credential_host(Some("https://a.example.com/"), Some("https://b.example.com".to_owned()), None).unwrap().as_deref(), Some("https://a.example.com"));
    assert_eq!(purge_credential_host(None, None, Some("https://c.example.com".to_owned())).unwrap().as_deref(), Some("https://c.example.com"));
    assert_eq!(purge_credential_host(None, None, None).unwrap(), None);
    assert_eq!(purge_credential_host(Some("ftp://x"), None, None).unwrap_err().kind, ErrorKind::InvalidHostUrl);
    assert_eq!(purge_stores(false), vec![CredentialStoreKind::File]);
    assert_eq!(purge_stores(true), vec![CredentialStoreKind::Native, CredentialStoreKind::File]);
    assert!(same(&purge_plan_value("/c/config.json", "/c", &None), r#"{"configPath":"/c/config.json","configDirectory":"/c","credentialHost":null}"#));
    let report = purge_report("/c/config.json", "removed", "/c", "not_empty", &Some("https://a".to_owned()), &strings(&["protected credential file"]));
    assert!(same(&report, r#"{"configPath":"/c/config.json","configStatus":"removed","configDirectory":"/c","configDirectoryStatus":"not_empty","credentialHost":"https://a","credentialStoresRemoved":["protected credential file"]}"#));
}

#[test]
fn uninstall_reports_read_as_before() {
    let lines = uninstall_preview_lines("/bin/openproject", &Some(("/c/config.json".to_owned(), "/c".to_owned(), None)));
    assert_eq!(
        lines,
        strings(&[
            "Would remove /bin/openproject",
            "Would remove global config /c/config.json",
            "Would remove global config directory /c if it is empty",
            "No configured host found; stored credentials would be preserved",
        ])
    );
    let lines = uninstall_lines(
        "/bin/openproject",
        "removed",
        &Some(("not_found".to_owned(), "/c".to_owned(), "not_empty".to_owned(), strings(&["a", "b"]))),
    );
    assert_eq!(
        lines,
        strings(&[
            "Removed /bin/openproject",
            "Global config: \"not_found\"",
            "Global config directory retained because it is not empty: \"/c\"",
            "Stored credentials removed from: a, b",
        ])
    );
}

#[test]
fn only_api_commands_need_a_token() {
    assert_eq!(startup(CommandKind::Upgrade), Startup::Direct);
    assert_eq!(startup(CommandKind::Uninstall), Startup::Direct);
    assert_eq!(startup(CommandKind::CommitLink), Startup::Direct);
    assert_eq!(startup(CommandKind::AuthLogin), Startup::Config);
    assert_eq!(startup(CommandKind::AuthLogout), Startup::Host);
    assert_eq!(startup(CommandKind::Api), Startup::Client);
}

#[test]
fn login_checks_its_inputs() {
    assert!(!prompt_confirmation(""));
    assert!(prompt_confirmation("y"));
    assert!(prompt_confirmation("YES"));
    assert!(!prompt_confirmation("Yes"));
    assert!(!prompt_confirmation("n"));
    assert_eq!(login_host("").unwrap_err().kind, ErrorKind::LoginHostRequired);
    assert_eq!(login_host("https://openproject.example.com/").unwrap_err().message(), "replace the example URL with your real OpenProject server");
    assert_eq!(login_host("https://op.example.com/").unwrap(), "https://op.example.com");
    assert_eq!(login_token_check("  ").unwrap_err().message(), "an OpenProject API token is required");
    assert_eq!(login_output_check(true).unwrap_err().message(), "auth login cannot be used with --json");
    assert_eq!(login_store_order(CredentialStoreKind::Native), vec![CredentialStoreKind::Native, CredentialStoreKind::File]);
    assert!(token_kept(true, &Some("t".to_owned()), "t"));
    assert!(!token_kept(true, &Some("u".to_owned()), "t"));
    assert!(!token_kept(false, &Some("t".to_owned()), "t"));
}

#[test]
fn authentication_reports_show_the_source() {
    let user = json(r#"{"id":5,"login":"jdoe"}"#);
    assert!(same(
        &auth_status_value("https://op", Some("token_file"), Some(&user)),
        r#"{"host":"https://op","authenticated":true,"credential_source":"token_file","user":{"id":5,"name":"jdoe"}}"#
    ));
    assert!(same(
        &auth_status_value("https://op", None, None),
        r#"{"host":"https://op","authenticated":false,"credential_source":null,"user":null}"#
    ));
    assert_eq!(
        auth_status_text("https://op", Some("token_file"), false),
        "OpenProject authentication\n\nHost:       https://op\nCredential: available\nStorage:    token file\nStatus:     authentication failed"
    );
}

#[test]
fn git_output_is_trimmed() {
    assert_eq!(git_output(true, "/repo\n", "").unwrap(), "/repo");
    let error = git_output(false, "", "fatal: not a git repository\n").unwrap_err();
    assert_eq!(error.message(), "fatal: not a git repository");
    assert_eq!(git_root(Err(error)), None);
    assert_eq!(git_root(Ok("/repo".to_owned())).as_deref(), Some("/repo"));
}

#[test]
fn text_output_lists_items() {
    let lines = display_lines(&json(r#"[{"id":3,"subject":"Fix"},{"name":"Unnumbered"},{"id":4}]"#)).unwrap();
    assert_eq!(lines, strings(&["#3 Fix", "Unnumbered", "#4 (untitled)"]));
    let lines = display_lines(&json(r#"{"items":[{"id":1,"subject":"A"}],"next":"/api/v3/x?offset=2"}"#)).unwrap();
    assert_eq!(lines, strings(&["#1 A", "More results: /api/v3/x?offset=2"]));
    assert_eq!(display_lines(&json(r#"{"id":1,"subject":"One"}"#)).unwrap(), strings(&["#1 One"]));
    assert_eq!(display_lines(&json(r#"{"host":"h"}"#)), None);
}

#[test]
fn saved_settings_read_back() {
    let settings: Settings = match json(r#"{"credential_store":"file"}"#) {
        JsonValue::Object(entries) => entries,
        _ => unreachable!(),
    };
    let saved = global_config_update(settings, "config.json", "https://op.example.com", Some(CredentialStoreKind::Native)).unwrap();
    assert_eq!(host_setting(&saved, "config.json").unwrap().as_deref(), Some("https://op.example.com"));
    assert_eq!(credential_store_setting(&saved, "config.json").unwrap(), Some(CredentialStoreKind::Native));
    let logged_out = global_config_update(saved, "config.json", "https://op.example.com", None).unwrap();
    assert_eq!(credential_store_setting(&logged_out, "config.json").unwrap(), None);
    let bound = bind_settings(Vec::new(), ".openproject.json", 42).unwrap();
    assert_eq!(project_setting(&bound, ".openproject.json").unwrap().as_deref(), Some("42"));
}

fn demo_project() -> JsonValue {
    JsonValue::Object(vec![
        ("id".to_string(), JsonValue::Number(JsonNumber::Unsigned(7))),
        ("name".to_string(), JsonValue::String("Demo".to_string())),
    ])
}

#[test]
fn bind_reports_name_the_project_file_and_id() {
    let preview = bind_preview(demo_project(), "/repo/.openproject.json", 7);
    assert_eq!(
        to_json_text(&preview),
        r#"{"bind":"/repo/.openproject.json","dryRun":true,"project":{"id":7,"name":"Demo"},"projectId":7}"#
    );
    let report = bind_report(demo_project(), "/repo/.openproject.json");
    assert_eq!(
        to_json_text(&report),
        r#"{"bound":"/repo/.openproject.json","project":{"id":7,"name":"Demo"}}"#
    );
}

#[test]
fn forgetting_one_host_keeps_the_others() {
    let mut file = CredentialFile::empty();
    file.store("https://a.example.com", "ta");
    file.store("https://b.example.com", "tb");
    file.store("https://c.example.com", "tc");
    assert!(file.forget("https://b.example.com"));
    assert_eq!(file.token_for("https://a.example.com").as_deref(), Some("ta"));
    assert_eq!(file.token_for("https://b.example.com"), None);
    assert_eq!(file.token_for("https://c.example.com").as_deref(), Some("tc"));
    assert!(!file.forget("https://b.example.com"));
}

#[test]
fn an_environment_token_wins_whatever_else_is_set() {
    let attempts = vec![(CredentialStoreKind::Native, StoreAttempt::Found("stored".to_owned()))];
    let resolved = resolve_credential(Some("env".to_owned()), None, None, attempts).unwrap();
    assert_eq!(resolved.token, "env");
    assert_eq!(resolved.source, "environment");
    let attempts = vec![(CredentialStoreKind::Native, StoreAttempt::Found("stored".to_owned()))];
    let resolved = resolve_credential(None, Some(Some("filed".to_owned())), None, attempts).unwrap();
    assert_eq!(resolved.token, "filed");
    assert_eq!(resolved.source, "token_file");
}
