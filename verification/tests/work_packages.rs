use openproject::activities::{
    iso_duration, project_link, resolve_time_entry_activity, time_entry_activities,
    time_entry_activity_values, time_entry_form_payload,
};
use openproject::config::Settings;
use openproject::error::ErrorKind;
use openproject::json::{JsonNumber, entries_get, JsonValue};
use openproject::requests::{
    check_log_date, check_update, comment_payload, create_payload, log_time_payload,
    project_collection_path, relation_payload, request_body, request_preview, update_payload,
    version_collection_path, CreateFields, ProjectCollection, UpdateFields,
};
use openproject::summaries::{hierarchy_relations, item_label, page_elements, task_summary};
use openproject::workpackages::{
    custom_field_key, custom_field_operations, relation_path, sort_criteria, updated_since_days,
    work_package_path, TaskFilters,
};


fn to_serde(value: &JsonValue) -> serde_json::Value {
    match value {
        JsonValue::Null => serde_json::Value::Null,
        JsonValue::Bool(b) => serde_json::Value::Bool(*b),
        JsonValue::Number(JsonNumber::Unsigned(n)) => serde_json::Value::from(*n),
        JsonValue::Number(JsonNumber::Negative(n)) => serde_json::Value::from(*n),
        JsonValue::Number(JsonNumber::Other(t)) => serde_json::Value::Number(t.parse().unwrap()),
        JsonValue::String(s) => serde_json::Value::String(s.clone()),
        JsonValue::Array(items) => serde_json::Value::Array(items.iter().map(to_serde).collect()),
        JsonValue::Object(es) => {
            serde_json::Value::Object(es.iter().map(|(k, v)| (k.clone(), to_serde(v))).collect())
        }
    }
}

fn to_json_text(value: &JsonValue) -> String {
    to_serde(value).to_string()
}

fn convert(value: serde_json::Value) -> JsonValue {
    match value {
        serde_json::Value::Null => JsonValue::Null,
        serde_json::Value::Bool(b) => JsonValue::Bool(b),
        serde_json::Value::Number(n) => JsonValue::Number(match (n.as_u64(), n.as_i64()) {
            (Some(u), _) => JsonNumber::Unsigned(u),
            (None, Some(i)) => JsonNumber::Negative(i),
            (None, None) => JsonNumber::Other(n.to_string()),
        }),
        serde_json::Value::String(s) => JsonValue::String(s),
        serde_json::Value::Array(items) => JsonValue::Array(items.into_iter().map(convert).collect()),
        serde_json::Value::Object(map) => {
            JsonValue::Object(map.into_iter().map(|(k, v)| (k, convert(v))).collect())
        }
    }
}

fn json(text: &str) -> JsonValue {
    convert(serde_json::from_str(text).unwrap())
}

fn canon(value: &JsonValue) -> serde_json::Value {
    serde_json::from_str(&to_json_text(value)).unwrap()
}

fn same(value: &JsonValue, text: &str) -> bool {
    canon(value) == serde_json::from_str::<serde_json::Value>(text).unwrap()
}

fn strings(values: &[&str]) -> Vec<String> {
    values.iter().map(|value| value.to_string()).collect()
}

fn no_update() -> UpdateFields {
    UpdateFields {
        subject: None,
        description: None,
        status: None,
        assignee: None,
        priority: None,
        responsible: None,
        parent: None,
        version: None,
        percent: None,
        start_date: None,
        due_date: None,
        estimate: None,
        clear_description: false,
        clear_assignee: false,
        clear_responsible: false,
        clear_parent: false,
        clear_version: false,
        clear_start_date: false,
        clear_due_date: false,
        clear_estimate: false,
    }
}

#[test]
fn custom_field_keys_need_a_positive_number() {
    assert_eq!(custom_field_key("customField12").unwrap(), "customField12");
    for bad in ["customField0", "customField", "customField+1", "cf1", "customField99999999999999999999"] {
        let error = custom_field_key(bad).unwrap_err();
        assert_eq!(error.kind, ErrorKind::InvalidCustomFieldKey);
    }
}

#[test]
fn custom_field_assignments_are_checked() {
    let error = custom_field_operations(&strings(&["customField1"]), &vec![], &vec![], &vec![]).unwrap_err();
    assert_eq!(error.message(), "custom fields must use customFieldN=JSON");
    let error = custom_field_operations(&vec![], &strings(&["customField2"]), &vec![], &vec![]).unwrap_err();
    assert_eq!(error.kind, ErrorKind::LinkedCustomFieldFormat);
    let error =
        custom_field_operations(&vec![], &strings(&["customField2=/users/3"]), &vec![], &vec![]).unwrap_err();
    assert_eq!(error.message(), "linked custom field hrefs must start with /api/v3/");
    let error = custom_field_operations(
        &vec![],
        &strings(&["customField2=/api/v3/users/3"]),
        &vec![],
        &strings(&["customField2"]),
    )
    .unwrap_err();
    assert_eq!(error.message(), "custom field customField2 was supplied more than once");
}

#[test]
fn custom_field_values_are_json_when_they_parse() {
    let (properties, links) = custom_field_operations(
        &strings(&["customField1={\"a\":[1,2]}", "customField2=1.25", "customField3=a=b"]),
        &vec![],
        &vec![],
        &vec![],
    )
    .unwrap();
    assert!(same(entries_get(&properties, "customField1").unwrap(), r#"{"a":[1,2]}"#));
    assert!(same(entries_get(&properties, "customField2").unwrap(), "1.25"));
    assert!(same(entries_get(&properties, "customField3").unwrap(), r#""a=b""#));
    assert!(links.is_empty());
}

#[test]
fn updated_since_accepts_days_with_an_optional_d() {
    assert_eq!(updated_since_days("7d").unwrap(), 7);
    assert_eq!(updated_since_days("14").unwrap(), 14);
    assert_eq!(updated_since_days("0d").unwrap_err().message(), "--updated-since must be at least one day");
    let error = updated_since_days("7dd").unwrap_err();
    assert_eq!(
        error.message(),
        "--updated-since must be a positive day count such as 7 or 7d: invalid digit found in string"
    );
}

#[test]
fn sort_criteria_name_api_fields() {
    let criteria = sort_criteria(&strings(&["Start_Date:DESC", "id"])).unwrap();
    assert!(same(&criteria[0], r#"["startDate","desc"]"#));
    assert!(same(&criteria[1], r#"["id","asc"]"#));
    let error = sort_criteria(&strings(&["id", "colour"])).unwrap_err();
    assert!(error.message().starts_with("unsupported sort field \"colour\"; use id, type"));
    assert_eq!(sort_criteria(&strings(&["id:up"])).unwrap_err().kind, ErrorKind::InvalidSortDirection);
}

#[test]
fn task_listing_without_filters_has_no_query() {
    let filters = TaskFilters { all: true, query: None, due_before: None, updated_since: None, sort: vec![] };
    assert_eq!(
        work_package_path(13, &filters, None, &vec![], &vec![], &vec![]).unwrap(),
        "/projects/13/work_packages"
    );
    let open_only = TaskFilters { all: false, ..filters };
    assert_eq!(
        work_package_path(13, &open_only, None, &vec![], &vec![], &vec![]).unwrap(),
        "/projects/13/work_packages?filters=%5B%7B%22status%22%3A%7B%22operator%22%3A%22o%22%2C%22values%22%3A%5B%5D%7D%7D%5D"
    );
}

#[test]
fn task_listing_rejects_a_bad_due_date() {
    let filters = TaskFilters {
        all: true,
        query: None,
        due_before: Some("2026-13-40".to_owned()),
        updated_since: None,
        sort: vec![],
    };
    let error = work_package_path(13, &filters, None, &vec![], &vec![], &vec![]).unwrap_err();
    assert_eq!(error.kind, ErrorKind::InvalidDueBefore);
    assert!(error.message().starts_with("--due-before must be YYYY-MM-DD: "));
}

#[test]
fn relation_paths_filter_on_the_work_package() {
    assert_eq!(
        relation_path(5).unwrap(),
        "/relations?filters=%5B%7B%22involved%22%3A%7B%22operator%22%3A%22%3D%22%2C%22values%22%3A%5B5%5D%7D%7D%5D"
    );
}

#[test]
fn hierarchy_relations_come_from_the_links() {
    let task = json(
        r#"{"_links":{"self":{"href":"/api/v3/work_packages/2"},"parent":{"href":"/api/v3/work_packages/1"},"children":[{"href":"/api/v3/work_packages/3"}]}}"#,
    );
    let relations = hierarchy_relations(&task);
    assert_eq!(relations.len(), 2);
    assert!(same(
        &relations[0],
        r#"{"_type":"HierarchyRelation","name":"part of","type":"partof","reverseType":"includes","_links":{"from":{"href":"/api/v3/work_packages/2"},"to":{"href":"/api/v3/work_packages/1"}}}"#
    ));
    assert!(same(
        &relations[1],
        r#"{"_type":"HierarchyRelation","name":"includes","type":"includes","reverseType":"partof","_links":{"from":{"href":"/api/v3/work_packages/2"},"to":{"href":"/api/v3/work_packages/3"}}}"#
    ));
    let orphan = json(r#"{"_links":{"self":{"href":"/x"},"parent":{"href":""}}}"#);
    assert!(hierarchy_relations(&orphan).is_empty());
    assert!(hierarchy_relations(&json(r#"{"_links":{}}"#)).is_empty());
}

#[test]
fn task_summaries_pick_the_listed_fields() {
    let task = json(
        r#"{"id":42,"subject":"Fix login","percentageDone":50,"_links":{"status":{"title":"New"},"type":{"title":"Bug"},"assignee":{"href":"/u/1"}}}"#,
    );
    let summary = task_summary(&task, "https://op.example.com");
    assert!(same(
        &summary,
        r#"{"id":42,"subject":"Fix login","status":"New","type":"Bug","assignee":null,"percentageDone":50,"spentTime":null,"startDate":null,"dueDate":null,"url":"https://op.example.com/work_packages/42"}"#
    ));
    let page = json(r#"{"total":1,"count":1,"_embedded":{"elements":[{"subject":"No id"}]}}"#);
    let listed = page_elements(&page, "https://op.example.com");
    assert!(same(
        &listed,
        r#"{"items":[{"id":null,"subject":"No id","status":null,"type":null,"assignee":null,"percentageDone":null,"spentTime":null,"startDate":null,"dueDate":null,"url":null}],"total":1,"count":1,"offset":null,"pageSize":null,"next":null}"#
    ));
}

#[test]
fn item_labels_take_the_first_present_member() {
    assert_eq!(item_label(&json(r#"{"name":"Alpha","title":"T"}"#)).map(String::as_str), Some("Alpha"));
    assert_eq!(item_label(&json(r#"{"subject":null,"name":"Alpha"}"#)), None);
    assert_eq!(item_label(&json(r#"{"comment":{"raw":"Looks good"}}"#)).map(String::as_str), Some("Looks good"));
    assert_eq!(
        item_label(&json(r#"{"_links":{"self":{"title":"Self"}}}"#)).map(String::as_str),
        Some("Self")
    );
}

#[test]
fn activities_fall_back_to_links_and_ids_in_hrefs() {
    let form = json(
        r#"{"_embedded":{"schema":{"activity":{"_links":{"allowedValues":[{"href":"/api/v3/time_entries/activities/7?x=1","title":"Design"}]}}}}}"#,
    );
    let values = time_entry_activity_values(&form).unwrap();
    assert!(same(&values[0], r#"{"id":7,"name":"Design","href":"/api/v3/time_entries/activities/7?x=1"}"#));
    let missing = json(r#"{"_embedded":{"schema":{}}}"#);
    assert_eq!(time_entry_activity_values(&missing).unwrap_err().kind, ErrorKind::NoActivitySchema);
    let nameless = json(r#"{"_embedded":{"schema":{"activity":{"_embedded":{"allowedValues":[{"href":"/a/1"}]}}}}}"#);
    assert_eq!(time_entry_activity_values(&nameless).unwrap_err().kind, ErrorKind::ActivityWithoutName);
}

#[test]
fn time_entry_activities_are_chosen_by_id_or_name() {
    let activities = vec![
        json(r#"{"id":18,"name":"Development","href":"/a/18"}"#),
        json(r#"{"id":19,"name":"Design Work","href":"/a/19"}"#),
    ];
    assert_eq!(resolve_time_entry_activity(&activities, "18").unwrap(), "/a/18");
    assert_eq!(resolve_time_entry_activity(&activities, "design-work").unwrap(), "/a/19");
    let error = resolve_time_entry_activity(&activities, "Testing").unwrap_err();
    assert_eq!(error.message(), "no available time-entry activity exactly matches \"Testing\"");
    let unnumbered = vec![
        json(r#"{"id":null,"name":"A","href":"/a/1"}"#),
        json(r#"{"id":null,"name":"B","href":"/a/2"}"#),
    ];
    assert_eq!(resolve_time_entry_activity(&unnumbered, "A").unwrap_err().kind, ErrorKind::AmbiguousActivity);
}

#[test]
fn time_entry_form_links_the_work_package() {
    let task = json(r#"{"_links":{"project":{"href":"/api/v3/projects/4"}}}"#);
    let project = project_link(&task).unwrap();
    assert!(same(
        &time_entry_form_payload(9, &project),
        r#"{"_links":{"entity":{"href":"/api/v3/work_packages/9"},"workPackage":{"href":"/api/v3/work_packages/9"},"project":{"href":"/api/v3/projects/4"}}}"#
    ));
    assert_eq!(project_link(&json("{}")).unwrap_err().kind, ErrorKind::NoProjectLink);
    assert!(same(&time_entry_activities(9, vec![]), r#"{"taskId":9,"activities":[]}"#));
}

#[test]
fn iso_durations_pass_through_upper_cased() {
    assert_eq!(iso_duration("pt1h30m").unwrap().as_deref(), Some("PT1H30M"));
    assert_eq!(iso_duration("P2D").unwrap().as_deref(), Some("P2D"));
    assert_eq!(iso_duration("P").unwrap(), None);
    assert_eq!(iso_duration("pt").unwrap(), None);
    assert_eq!(iso_duration("1.5").unwrap(), None);
}

#[test]
fn create_payloads_link_references_and_drop_nulls() {
    let fields = CreateFields {
        project_id: 3,
        type_id: 1,
        subject: "Write docs".to_owned(),
        description: Some("Details".to_owned()),
        assignee: Some(7),
        priority: None,
        responsible: None,
        parent: Some(11),
        version: None,
        start_date: None,
        due_date: Some("2026-01-31".to_owned()),
        estimate: Some("PT2H".to_owned()),
    };
    let (custom, links) = custom_field_operations(
        &strings(&["customField4=5"]),
        &strings(&["customField5=/api/v3/users/2"]),
        &vec![],
        &vec![],
    )
    .unwrap();
    let body = request_body(create_payload(&fields, custom, &links), false);
    assert!(same(
        &body,
        r#"{"customField4":5,"subject":"Write docs","description":{"format":"markdown","raw":"Details"},"dueDate":"2026-01-31","estimatedTime":"PT2H","_links":{"project":{"href":"/api/v3/projects/3"},"type":{"href":"/api/v3/types/1"},"assignee":{"href":"/api/v3/users/7"},"parent":{"href":"/api/v3/work_packages/11"},"customField5":{"href":"/api/v3/users/2"}}}"#
    ));
}

#[test]
fn updates_must_change_something_without_conflicts() {
    let none: Settings = Vec::new();
    assert_eq!(check_update(&no_update(), &none, &none).unwrap_err().message(), "no update fields were supplied");
    let conflicting = UpdateFields { assignee: Some(3), clear_assignee: true, ..no_update() };
    assert_eq!(check_update(&conflicting, &none, &none).unwrap_err().kind, ErrorKind::ConflictingClear);
    let clearing = UpdateFields { clear_description: true, ..no_update() };
    assert!(check_update(&clearing, &none, &none).is_ok());
    let (custom, links) = custom_field_operations(&vec![], &vec![], &strings(&["customField2"]), &vec![]).unwrap();
    assert!(check_update(&no_update(), &custom, &links).is_ok());
}

#[test]
fn update_payloads_keep_cleared_values_as_null() {
    let fields = UpdateFields {
        subject: Some("New".to_owned()),
        status: Some(4),
        percent: Some(30),
        clear_assignee: true,
        clear_due_date: true,
        estimate: Some("1".to_owned()),
        ..no_update()
    };
    let current = json(r#"{"lockVersion":6}"#);
    let body = request_body(update_payload(&fields, Some("PT1H0M".to_owned()), &current, Vec::new(), &Vec::new()), true);
    assert!(same(
        &body,
        r#"{"lockVersion":6,"subject":"New","percentageDone":30,"dueDate":null,"estimatedTime":"PT1H0M","_links":{"status":{"href":"/api/v3/statuses/4"},"assignee":null}}"#
    ));
}

#[test]
fn small_payloads_have_their_fixed_shape() {
    assert!(same(&comment_payload("Done"), r#"{"comment":{"format":"markdown","raw":"Done"}}"#));
    assert!(same(
        &relation_payload("blocks", &None, Some(2), 8),
        r#"{"type":"blocks","description":null,"lag":2,"_links":{"to":{"href":"/api/v3/work_packages/8"}}}"#
    ));
    let entry = log_time_payload(9, "PT1H", "2026-02-01", &Some("Pairing".to_owned()), "/api/v3/projects/1", &None);
    assert!(same(
        &request_body(entry, false),
        r#"{"hours":"PT1H","spentOn":"2026-02-01","comment":{"format":"plain","raw":"Pairing"},"_links":{"workPackage":{"href":"/api/v3/work_packages/9"},"project":{"href":"/api/v3/projects/1"}}}"#
    ));
    assert!(check_log_date("2026-02-30").is_err());
    assert!(check_log_date("2026-02-28").is_ok());
}

#[test]
fn dry_runs_report_the_request() {
    let preview = request_preview("DELETE", "/relations/3", None);
    assert!(same(&preview, r#"{"dryRun":true,"method":"DELETE","path":"/relations/3"}"#));
    let preview = request_preview("POST", "/work_packages", Some(json(r#"{"subject":"x"}"#)));
    assert!(same(&preview, r#"{"dryRun":true,"method":"POST","path":"/work_packages","payload":{"subject":"x"}}"#));
}

#[test]
fn project_collections_and_versions_have_their_paths() {
    assert_eq!(project_collection_path(4, ProjectCollection::Users), "/projects/4/available_assignees");
    assert_eq!(project_collection_path(4, ProjectCollection::Types), "/projects/4/types");
    assert_eq!(
        version_collection_path(&json(r#"{"_links":{"project":{"href":"/api/v3/projects/4"}}}"#)),
        "/api/v3/projects/4/versions"
    );
    assert_eq!(version_collection_path(&json("{}")), "/versions");
}
