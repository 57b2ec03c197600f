//! The bodies and paths of the client's write requests: creating and updating
//! work packages, comments, time entries and relations, and their dry-run
//! previews.

use vstd::prelude::*;

use crate::activities::{href_json, href_member, work_package_href, work_package_link};
use crate::compact::{compact, compacted};
use crate::config::Settings;
use crate::error::{outcome, CliError, ErrorKind, Failure};
use crate::json::{
    at_path, entries_insert, key_absent_before, law_lookup_after_insert, lemma_key_index_is,
    lemma_model_entries, lookup, member, model_entries, object1, object2, object_insert, push_entry,
    Json, JsonValue, Num,
};
use crate::outside::{date_parse_error, naive_date_check};
use crate::summaries::{link_href, link_href_of, opt_json, opt_str_json};
use crate::text::{decimal, decimal_chars, push_chars, push_str, string_of};

verus! {

pub type Entries = Seq<(Seq<char>, Json)>;

/// `es` with every entry of `more` inserted in turn (`Map::extend`).
pub open spec fn entries_extend(es: Entries, more: Entries) -> Entries
    decreases more.len(),
{
    if more.len() == 0 {
        es
    } else {
        entries_insert(entries_extend(es, more.drop_last()), more.last().0, more.last().1)
    }
}

/// Inserts every entry of `more` in turn.
pub fn extend_entries(es: &mut Settings, more: &Settings)
    ensures
        model_entries(final(es)@) == entries_extend(model_entries(old(es)@), model_entries(more@)),
{
    let ghost m = model_entries(more@);
    proof {
        lemma_model_entries(more@);
    }
    let mut i: usize = 0;
    assert(m.take(0) =~= Seq::<(Seq<char>, Json)>::empty());
    while i < more.len()
        invariant
            i <= more.len(),
            m == model_entries(more@),
            m.len() == more.len(),
            forall|k: int| 0 <= k < more.len() ==> #[trigger] m[k] == (more@[k].0@, more@[k].1.model()),
            model_entries(es@) == entries_extend(model_entries(old(es)@), m.take(i as int)),
        decreases more.len() - i,
    {
        assert(m.take(i + 1).drop_last() =~= m.take(i as int));
        object_insert(es, more[i].0.clone(), more[i].1.copy());
        i = i + 1;
    }
    assert(m.take(more.len() as int) =~= m);
}

/// `{"href": prefix + n}`.
pub open spec fn api_link(prefix: Seq<char>, n: u64) -> Json {
    href_json(prefix + decimal(n as nat))
}

/// `es` with `key` set to the link of `n`, when there is an `n`.
pub open spec fn opt_link(es: Entries, key: Seq<char>, prefix: Seq<char>, n: Option<u64>) -> Entries {
    match n {
        Some(n) => entries_insert(es, key, api_link(prefix, n)),
        None => es,
    }
}

/// `es` with `key` set to `j`, when there is one.
pub open spec fn set_opt(es: Entries, key: Seq<char>, j: Option<Json>) -> Entries {
    match j {
        Some(j) => entries_insert(es, key, j),
        None => es,
    }
}

/// `es` with `key` set to null when `clear`.
pub open spec fn clear_if(es: Entries, key: Seq<char>, clear: bool) -> Entries {
    if clear {
        entries_insert(es, key, Json::Null)
    } else {
        es
    }
}

/// A formatted text: `{"format", "raw"}`.
pub open spec fn formatted_json(format: Seq<char>, raw: Seq<char>) -> Json {
    Json::Object(seq![("format"@, Json::Str(format)), ("raw"@, Json::Str(raw))])
}

pub open spec fn ostr(o: Option<String>) -> Option<Seq<char>> {
    crate::outside::opt_view(o)
}

/// `prefix` followed by the decimal `n`.
pub fn numbered(prefix: &str, n: u64) -> (r: String)
    ensures
        r@ == prefix@ + decimal(n as nat),
{
    let mut v: Vec<char> = Vec::new();
    push_str(&mut v, prefix);
    push_chars(&mut v, &decimal_chars(n));
    string_of(&v)
}

/// `prefix`, the decimal `n`, then `suffix`: a request path.
pub fn numbered_path(prefix: &str, n: u64, suffix: &str) -> (r: String)
    ensures
        r@ == prefix@ + decimal(n as nat) + suffix@,
{
    let mut v: Vec<char> = Vec::new();
    push_str(&mut v, prefix);
    push_chars(&mut v, &decimal_chars(n));
    push_str(&mut v, suffix);
    string_of(&v)
}

/// `{"href": prefix + n}`.
pub fn api_link_value(prefix: &str, n: u64) -> (r: JsonValue)
    ensures
        r.model() == api_link(prefix@, n),
{
    href_member(numbered(prefix, n))
}

fn insert_link(es: &mut Settings, key: &str, prefix: &str, n: Option<u64>)
    ensures
        model_entries(final(es)@) == opt_link(model_entries(old(es)@), key@, prefix@, n),
{
    if let Some(n) = n {
        object_insert(es, key.to_owned(), api_link_value(prefix, n));
    }
}

fn insert_opt(es: &mut Settings, key: &str, v: Option<JsonValue>)
    ensures
        model_entries(final(es)@) == set_opt(
            model_entries(old(es)@),
            key@,
            match v {
                Some(x) => Some(x.model()),
                None => None,
            },
        ),
{
    if let Some(x) = v {
        object_insert(es, key.to_owned(), x);
    }
}

fn insert_clear(es: &mut Settings, key: &str, clear: bool)
    ensures
        model_entries(final(es)@) == clear_if(model_entries(old(es)@), key@, clear),
{
    if clear {
        object_insert(es, key.to_owned(), JsonValue::Null);
    }
}

/// A formatted text: `{"format", "raw"}`.
pub fn formatted(format: &str, raw: String) -> (r: JsonValue)
    ensures
        r.model() == formatted_json(format@, raw@),
{
    object2("format", JsonValue::text(format), "raw", JsonValue::String(raw))
}

fn opt_text(o: &Option<String>) -> (r: JsonValue)
    ensures
        r.model() == opt_str_json(ostr(*o)),
{
    match o {
        Some(s) => JsonValue::String(s.clone()),
        None => JsonValue::Null,
    }
}

/// What a new work package gets, with its references already resolved to IDs.
pub struct CreateFields {
    pub project_id: u64,
    pub type_id: u64,
    pub subject: String,
    pub description: Option<String>,
    pub assignee: Option<u64>,
    pub priority: Option<u64>,
    pub responsible: Option<u64>,
    pub parent: Option<u64>,
    pub version: Option<u64>,
    pub start_date: Option<String>,
    pub due_date: Option<String>,
    /// The estimate as an ISO-8601 duration.
    pub estimate: Option<String>,
}

/// The links of a new work package: project, type, then the optional
/// references, then the linked custom fields.
pub open spec fn create_links_of(f: CreateFields, custom_links: Entries) -> Entries {
    let l0 = entries_insert(
        entries_insert(Seq::empty(), "project"@, api_link("/api/v3/projects/"@, f.project_id)),
        "type"@,
        api_link("/api/v3/types/"@, f.type_id),
    );
    let l1 = opt_link(l0, "assignee"@, "/api/v3/users/"@, f.assignee);
    let l2 = opt_link(l1, "priority"@, "/api/v3/priorities/"@, f.priority);
    let l3 = opt_link(l2, "responsible"@, "/api/v3/users/"@, f.responsible);
    let l4 = opt_link(l3, "parent"@, "/api/v3/work_packages/"@, f.parent);
    let l5 = opt_link(l4, "version"@, "/api/v3/versions/"@, f.version);
    entries_extend(l5, custom_links)
}

/// The body of a work package creation: the scalar custom fields, subject,
/// Markdown description, dates, estimate (null where absent) and links.
pub open spec fn create_payload_of(f: CreateFields, custom_fields: Entries, custom_links: Entries) -> Json {
    let p1 = entries_insert(custom_fields, "subject"@, Json::Str(f.subject@));
    let p2 = entries_insert(
        p1,
        "description"@,
        match ostr(f.description) {
            Some(d) => formatted_json("markdown"@, d),
            None => Json::Null,
        },
    );
    let p3 = entries_insert(p2, "startDate"@, opt_str_json(ostr(f.start_date)));
    let p4 = entries_insert(p3, "dueDate"@, opt_str_json(ostr(f.due_date)));
    let p5 = entries_insert(p4, "estimatedTime"@, opt_str_json(ostr(f.estimate)));
    Json::Object(entries_insert(p5, "_links"@, Json::Object(create_links_of(f, custom_links))))
}

/// The body of a work package creation (before nulls are removed).
pub fn create_payload(f: &CreateFields, custom_fields: Settings, custom_links: &Settings) -> (r: JsonValue)
    ensures
        r.model() == create_payload_of(*f, model_entries(custom_fields@), model_entries(custom_links@)),
{
    let mut links: Settings = Vec::new();
    proof {
        lemma_model_entries(links@);
    }
    object_insert(&mut links, "project".to_owned(), api_link_value("/api/v3/projects/", f.project_id));
    object_insert(&mut links, "type".to_owned(), api_link_value("/api/v3/types/", f.type_id));
    insert_link(&mut links, "assignee", "/api/v3/users/", f.assignee);
    insert_link(&mut links, "priority", "/api/v3/priorities/", f.priority);
    insert_link(&mut links, "responsible", "/api/v3/users/", f.responsible);
    insert_link(&mut links, "parent", "/api/v3/work_packages/", f.parent);
    insert_link(&mut links, "version", "/api/v3/versions/", f.version);
    extend_entries(&mut links, custom_links);
    let mut p = custom_fields;
    object_insert(&mut p, "subject".to_owned(), JsonValue::String(f.subject.clone()));
    let description = match &f.description {
        Some(d) => formatted("markdown", d.clone()),
        None => JsonValue::Null,
    };
    object_insert(&mut p, "description".to_owned(), description);
    object_insert(&mut p, "startDate".to_owned(), opt_text(&f.start_date));
    object_insert(&mut p, "dueDate".to_owned(), opt_text(&f.due_date));
    object_insert(&mut p, "estimatedTime".to_owned(), opt_text(&f.estimate));
    object_insert(&mut p, "_links".to_owned(), JsonValue::Object(links));
    JsonValue::Object(p)
}

/// What an update may change, with its references already resolved to IDs.
/// `estimate` is the text as given; the clear flags remove a value.
pub struct UpdateFields {
    pub subject: Option<String>,
    pub description: Option<String>,
    pub status: Option<u64>,
    pub assignee: Option<u64>,
    pub priority: Option<u64>,
    pub responsible: Option<u64>,
    pub parent: Option<u64>,
    pub version: Option<u64>,
    pub percent: Option<u8>,
    pub start_date: Option<String>,
    pub due_date: Option<String>,
    pub estimate: Option<String>,
    pub clear_description: bool,
    pub clear_assignee: bool,
    pub clear_responsible: bool,
    pub clear_parent: bool,
    pub clear_version: bool,
    pub clear_start_date: bool,
    pub clear_due_date: bool,
    pub clear_estimate: bool,
}

/// Whether an update changes nothing at all.
pub open spec fn update_is_empty(f: UpdateFields, no_custom_fields: bool, no_custom_links: bool) -> bool {
    &&& f.subject is None && f.description is None && f.status is None && f.assignee is None
    &&& f.priority is None && f.responsible is None && f.parent is None && f.version is None
    &&& f.percent is None && f.start_date is None && f.due_date is None && f.estimate is None
    &&& no_custom_fields && no_custom_links
    &&& !f.clear_description && !f.clear_assignee && !f.clear_responsible && !f.clear_parent
    &&& !f.clear_version && !f.clear_start_date && !f.clear_due_date && !f.clear_estimate
}

/// Whether a value and the option that clears it are both given.
pub open spec fn update_conflicts(f: UpdateFields) -> bool {
    ||| f.assignee is Some && f.clear_assignee
    ||| f.description is Some && f.clear_description
    ||| f.responsible is Some && f.clear_responsible
    ||| f.parent is Some && f.clear_parent
    ||| f.version is Some && f.clear_version
    ||| f.start_date is Some && f.clear_start_date
    ||| f.due_date is Some && f.clear_due_date
    ||| f.estimate is Some && f.clear_estimate
}

/// Refuses an update that changes nothing, then one that both sets and clears a value.
pub fn check_update(f: &UpdateFields, custom_fields: &Settings, custom_links: &Settings) -> (r: Result<(), CliError>)
    ensures
        outcome(r, |u: ()| u) == if update_is_empty(*f, custom_fields.len() == 0, custom_links.len() == 0) {
            Err((ErrorKind::NoUpdateFields, Seq::<Seq<char>>::empty()))
        } else if update_conflicts(*f) {
            Err((ErrorKind::ConflictingClear, Seq::<Seq<char>>::empty()))
        } else {
            Ok(())
        },
{
    if f.subject.is_none() && f.description.is_none() && f.status.is_none() && f.assignee.is_none()
        && f.priority.is_none() && f.responsible.is_none() && f.parent.is_none()
        && f.version.is_none() && f.percent.is_none() && f.start_date.is_none()
        && f.due_date.is_none() && f.estimate.is_none() && custom_fields.len() == 0
        && custom_links.len() == 0 && !f.clear_description && !f.clear_assignee
        && !f.clear_responsible && !f.clear_parent && !f.clear_version && !f.clear_start_date
        && !f.clear_due_date && !f.clear_estimate {
        return Err(CliError::new(ErrorKind::NoUpdateFields));
    }
    if f.assignee.is_some() && f.clear_assignee || f.description.is_some() && f.clear_description
        || f.responsible.is_some() && f.clear_responsible || f.parent.is_some() && f.clear_parent
        || f.version.is_some() && f.clear_version || f.start_date.is_some() && f.clear_start_date
        || f.due_date.is_some() && f.clear_due_date || f.estimate.is_some() && f.clear_estimate {
        return Err(CliError::new(ErrorKind::ConflictingClear));
    }
    Ok(())
}

/// The links an update sets or clears, then the linked custom fields.
pub open spec fn update_links_of(f: UpdateFields, custom_links: Entries) -> Entries {
    let l1 = opt_link(Seq::empty(), "status"@, "/api/v3/statuses/"@, f.status);
    let l2 = clear_if(opt_link(l1, "assignee"@, "/api/v3/users/"@, f.assignee), "assignee"@, f.clear_assignee);
    let l3 = opt_link(l2, "priority"@, "/api/v3/priorities/"@, f.priority);
    let l4 = clear_if(
        opt_link(l3, "responsible"@, "/api/v3/users/"@, f.responsible),
        "responsible"@,
        f.clear_responsible,
    );
    let l5 = clear_if(opt_link(l4, "parent"@, "/api/v3/work_packages/"@, f.parent), "parent"@, f.clear_parent);
    let l6 = clear_if(opt_link(l5, "version"@, "/api/v3/versions/"@, f.version), "version"@, f.clear_version);
    entries_extend(l6, custom_links)
}

/// The body of an update: the scalar custom fields, the current `lockVersion`
/// (null when absent), the links, and each value given or cleared (null);
/// `estimate` is the given estimate as an ISO-8601 duration.
pub open spec fn update_payload_of(
    f: UpdateFields,
    estimate: Option<Seq<char>>,
    lock_version: Json,
    custom_fields: Entries,
    custom_links: Entries,
) -> Json {
    let p1 = entries_insert(custom_fields, "lockVersion"@, lock_version);
    let p2 = entries_insert(p1, "_links"@, Json::Object(update_links_of(f, custom_links)));
    let p3 = set_opt(
        p2,
        "subject"@,
        match ostr(f.subject) {
            Some(s) => Some(Json::Str(s)),
            None => None,
        },
    );
    let p4 = clear_if(
        set_opt(
            p3,
            "description"@,
            match ostr(f.description) {
                Some(d) => Some(formatted_json("markdown"@, d)),
                None => None,
            },
        ),
        "description"@,
        f.clear_description,
    );
    let p5 = set_opt(
        p4,
        "percentageDone"@,
        match f.percent {
            Some(p) => Some(Json::Number(Num::Unsigned(p as u64))),
            None => None,
        },
    );
    let p6 = clear_if(
        set_opt(
            p5,
            "startDate"@,
            match ostr(f.start_date) {
                Some(d) => Some(Json::Str(d)),
                None => None,
            },
        ),
        "startDate"@,
        f.clear_start_date,
    );
    let p7 = clear_if(
        set_opt(
            p6,
            "dueDate"@,
            match ostr(f.due_date) {
                Some(d) => Some(Json::Str(d)),
                None => None,
            },
        ),
        "dueDate"@,
        f.clear_due_date,
    );
    let p8 = clear_if(
        set_opt(
            p7,
            "estimatedTime"@,
            match estimate {
                Some(d) => Some(Json::Str(d)),
                None => None,
            },
        ),
        "estimatedTime"@,
        f.clear_estimate,
    );
    Json::Object(p8)
}

fn some_text(o: &Option<String>) -> (r: Option<JsonValue>)
    ensures
        match r {
            Some(x) => ostr(*o) matches Some(s) && x.model() == Json::Str(s),
            None => o is None,
        },
{
    match o {
        Some(s) => Some(JsonValue::String(s.clone())),
        None => None,
    }
}

/// The links of an update request.
pub fn update_links(f: &UpdateFields, custom_links: &Settings) -> (r: Settings)
    ensures
        model_entries(r@) == update_links_of(*f, model_entries(custom_links@)),
{
    let mut links: Settings = Vec::new();
    proof {
        lemma_model_entries(links@);
    }
    insert_link(&mut links, "status", "/api/v3/statuses/", f.status);
    insert_link(&mut links, "assignee", "/api/v3/users/", f.assignee);
    insert_clear(&mut links, "assignee", f.clear_assignee);
    insert_link(&mut links, "priority", "/api/v3/priorities/", f.priority);
    insert_link(&mut links, "responsible", "/api/v3/users/", f.responsible);
    insert_clear(&mut links, "responsible", f.clear_responsible);
    insert_link(&mut links, "parent", "/api/v3/work_packages/", f.parent);
    insert_clear(&mut links, "parent", f.clear_parent);
    insert_link(&mut links, "version", "/api/v3/versions/", f.version);
    insert_clear(&mut links, "version", f.clear_version);
    extend_entries(&mut links, custom_links);
    links
}

/// The body of an update request.
pub fn update_payload(
    f: &UpdateFields,
    estimate: Option<String>,
    current: &JsonValue,
    custom_fields: Settings,
    custom_links: &Settings,
) -> (r: JsonValue)
    ensures
        r.model() == update_payload_of(
            *f,
            ostr(estimate),
            opt_json(crate::json::member(current.model(), "lockVersion"@)),
            model_entries(custom_fields@),
            model_entries(custom_links@),
        ),
{
    let links = update_links(f, custom_links);
    let mut p = custom_fields;
    object_insert(&mut p, "lockVersion".to_owned(), crate::json::or_null(current.get("lockVersion")));
    object_insert(&mut p, "_links".to_owned(), JsonValue::Object(links));
    let ghost p2 = model_entries(p@);
    insert_opt(&mut p, "subject", some_text(&f.subject));
    let description = match &f.description {
        Some(d) => Some(formatted("markdown", d.clone())),
        None => None,
    };
    insert_opt(&mut p, "description", description);
    insert_clear(&mut p, "description", f.clear_description);
    let ghost p4 = model_entries(p@);
    let percent = match f.percent {
        Some(x) => Some(JsonValue::unsigned(x as u64)),
        None => None,
    };
    insert_opt(&mut p, "percentageDone", percent);
    insert_opt(&mut p, "startDate", some_text(&f.start_date));
    insert_clear(&mut p, "startDate", f.clear_start_date);
    let ghost p6 = model_entries(p@);
    insert_opt(&mut p, "dueDate", some_text(&f.due_date));
    insert_clear(&mut p, "dueDate", f.clear_due_date);
    insert_opt(&mut p, "estimatedTime", some_text(&estimate));
    insert_clear(&mut p, "estimatedTime", f.clear_estimate);
    JsonValue::Object(p)
}

/// The body of a comment: Markdown text.
pub fn comment_payload(message: &str) -> (r: JsonValue)
    ensures
        r.model() == Json::Object(seq![("comment"@, formatted_json("markdown"@, message@))]),
{
    object1("comment", formatted("markdown", message.to_owned()))
}

/// The body of a relation from one work package to another (members in key order).
pub open spec fn relation_payload_of(kind: Seq<char>, description: Option<Seq<char>>, lag: Option<u64>, to: u64) -> Json {
    Json::Object(
        seq![
            ("_links"@, Json::Object(seq![("to"@, href_json(work_package_href(to)))])),
            ("description"@, opt_str_json(description)),
            ("lag"@, match lag {
                Some(n) => Json::Number(Num::Unsigned(n)),
                None => Json::Null,
            }),
            ("type"@, Json::Str(kind)),
        ],
    )
}

/// The body of a new relation.
pub fn relation_payload(kind: &str, description: &Option<String>, lag: Option<u64>, to: u64) -> (r: JsonValue)
    ensures
        r.model() == relation_payload_of(kind@, ostr(*description), lag, to),
{
    let mut es: Settings = Vec::new();
    proof {
        lemma_model_entries(es@);
    }
    push_entry(&mut es, "_links", object1("to", href_member(work_package_link(to))));
    push_entry(&mut es, "description", opt_text(description));
    push_entry(
        &mut es,
        "lag",
        match lag {
            Some(n) => JsonValue::unsigned(n),
            None => JsonValue::Null,
        },
    );
    push_entry(&mut es, "type", JsonValue::text(kind));
    assert(model_entries(es@) =~= relation_payload_of(kind@, ostr(*description), lag, to)->Object_0);
    JsonValue::Object(es)
}

/// A time entry's date is accepted when the date parser reported nothing; else
/// the parser's message is the failure's detail.
pub open spec fn log_date_of(check: Option<Seq<char>>) -> Result<(), Failure> {
    match check {
        None => Ok(()),
        Some(detail) => Err((ErrorKind::InvalidDate, seq![detail])),
    }
}

/// Whether a time entry's date is accepted, given what the date parser reported.
pub fn log_date_from_check(check: Option<String>) -> (r: Result<(), CliError>)
    ensures
        outcome(r, |u: ()| u) == log_date_of(crate::outside::opt_view(check)),
{
    match check {
        None => Ok(()),
        Some(detail) => Err(CliError::with(ErrorKind::InvalidDate, detail)),
    }
}

/// The date of a time entry must be `YYYY-MM-DD`.
pub fn check_log_date(date: &str) -> (r: Result<(), CliError>)
    ensures
        outcome(r, |u: ()| u) == log_date_of(date_parse_error(date@, "%Y-%m-%d"@)),
{
    log_date_from_check(naive_date_check(date, "%Y-%m-%d"))
}

/// The body of a time entry (members in key order): its links, the plain-text
/// comment, the hours as an ISO-8601 duration and the day.
pub open spec fn log_time_payload_of(
    task_id: u64,
    hours: Seq<char>,
    date: Seq<char>,
    comment: Option<Seq<char>>,
    project: Seq<char>,
    activity: Option<Seq<char>>,
) -> Json {
    Json::Object(
        seq![
            ("_links"@, Json::Object(
                seq![
                    ("activity"@, match activity {
                        Some(h) => href_json(h),
                        None => Json::Null,
                    }),
                    ("project"@, href_json(project)),
                    ("workPackage"@, href_json(work_package_href(task_id))),
                ],
            )),
            ("comment"@, match comment {
                Some(c) => formatted_json("plain"@, c),
                None => Json::Null,
            }),
            ("hours"@, Json::Str(hours)),
            ("spentOn"@, Json::Str(date)),
        ],
    )
}

/// The body of a time entry (before nulls are removed).
pub fn log_time_payload(
    task_id: u64,
    hours: &str,
    date: &str,
    comment: &Option<String>,
    project: &str,
    activity: &Option<String>,
) -> (r: JsonValue)
    ensures
        r.model() == log_time_payload_of(task_id, hours@, date@, ostr(*comment), project@, ostr(*activity)),
{
    let mut links: Settings = Vec::new();
    proof {
        lemma_model_entries(links@);
    }
    push_entry(
        &mut links,
        "activity",
        match activity {
            Some(h) => href_member(h.clone()),
            None => JsonValue::Null,
        },
    );
    push_entry(&mut links, "project", href_member(project.to_owned()));
    push_entry(&mut links, "workPackage", href_member(work_package_link(task_id)));
    let mut es: Settings = Vec::new();
    proof {
        lemma_model_entries(es@);
    }
    let ghost lm = model_entries(links@);
    push_entry(&mut es, "_links", JsonValue::Object(links));
    push_entry(
        &mut es,
        "comment",
        match comment {
            Some(c) => formatted("plain", c.clone()),
            None => JsonValue::Null,
        },
    );
    push_entry(&mut es, "hours", JsonValue::text(hours));
    push_entry(&mut es, "spentOn", JsonValue::text(date));
    proof {
        let want = log_time_payload_of(task_id, hours@, date@, ostr(*comment), project@, ostr(*activity));
        assert(lm =~= want->Object_0[0].1->Object_0);
        assert(model_entries(es@) =~= want->Object_0);
    }
    JsonValue::Object(es)
}

/// The body actually sent: with nulls removed unless the request sends its
/// nulls on purpose (an update clears values with them).
pub fn request_body(body: JsonValue, keep_nulls: bool) -> (r: JsonValue)
    ensures
        r.model() == if keep_nulls {
            body.model()
        } else {
            compacted(body.model())
        },
{
    if keep_nulls {
        body
    } else {
        compact(body)
    }
}

/// What a dry run reports instead of sending a request (members in key order).
pub open spec fn preview_of(method: Seq<char>, path: Seq<char>, payload: Option<Json>) -> Json {
    match payload {
        Some(p) => Json::Object(
            seq![
                ("dryRun"@, Json::Bool(true)),
                ("method"@, Json::Str(method)),
                ("path"@, Json::Str(path)),
                ("payload"@, p),
            ],
        ),
        None => Json::Object(
            seq![("dryRun"@, Json::Bool(true)), ("method"@, Json::Str(method)), ("path"@, Json::Str(path))],
        ),
    }
}

/// The report of a dry run: the method, path and body it would have sent.
pub fn request_preview(method: &str, path: &str, payload: Option<JsonValue>) -> (r: JsonValue)
    ensures
        r.model() == preview_of(
            method@,
            path@,
            match payload {
                Some(p) => Some(p.model()),
                None => None,
            },
        ),
{
    let mut es: Settings = Vec::new();
    proof {
        lemma_model_entries(es@);
    }
    push_entry(&mut es, "dryRun", JsonValue::Bool(true));
    push_entry(&mut es, "method", JsonValue::text(method));
    push_entry(&mut es, "path", JsonValue::text(path));
    let ghost pm = match &payload {
        Some(p) => Some(p.model()),
        None => None,
    };
    match payload {
        Some(p) => {
            push_entry(&mut es, "payload", p);
        },
        None => {},
    }
    assert(model_entries(es@) =~= preview_of(method@, path@, pm)->Object_0);
    JsonValue::Object(es)
}

/// The project collections listed per project.
#[derive(Debug, Clone, Copy, PartialEq, Eq, Structural)]
pub enum ProjectCollection {
    Types,
    Users,
    Versions,
    Categories,
}

pub open spec fn collection_suffix(c: ProjectCollection) -> Seq<char> {
    match c {
        ProjectCollection::Types => "types"@,
        ProjectCollection::Users => "available_assignees"@,
        ProjectCollection::Versions => "versions"@,
        ProjectCollection::Categories => "categories"@,
    }
}

/// The path of one of a project's collections.
pub fn project_collection_path(project_id: u64, c: ProjectCollection) -> (r: String)
    ensures
        r@ == "/projects/"@ + decimal(project_id as nat) + "/"@ + collection_suffix(c),
{
    let suffix = match c {
        ProjectCollection::Types => "/types",
        ProjectCollection::Users => "/available_assignees",
        ProjectCollection::Versions => "/versions",
        ProjectCollection::Categories => "/categories",
    };
    proof {
        reveal_strlit("/");
        reveal_strlit("/types");
        reveal_strlit("types");
        reveal_strlit("/available_assignees");
        reveal_strlit("available_assignees");
        reveal_strlit("/versions");
        reveal_strlit("versions");
        reveal_strlit("/categories");
        reveal_strlit("categories");
    }
    let r = numbered_path("/projects/", project_id, suffix);
    assert(r@ =~= "/projects/"@ + decimal(project_id as nat) + "/"@ + collection_suffix(c));
    r
}

/// The versions collection an update resolves a version name in: the work
/// package's project's, else all versions.
pub open spec fn version_collection_of(current: Json) -> Seq<char> {
    match link_href_of(current, "project"@) {
        Some(p) => p + "/versions"@,
        None => "/versions"@,
    }
}

/// The versions collection for an update of `current`.
pub fn version_collection_path(current: &JsonValue) -> (r: String)
    ensures
        r@ == version_collection_of(current.model()),
{
    match link_href(current, "project") {
        Some(p) => {
            let mut v: Vec<char> = Vec::new();
            push_str(&mut v, p.as_str());
            push_str(&mut v, "/versions");
            string_of(&v)
        },
        None => "/versions".to_owned(),
    }
}

/// The member names that payload laws tell apart.
proof fn lemma_member_names_differ()
    ensures
        "project"@ != "type"@, "project"@ != "assignee"@, "project"@ != "priority"@, "project"@ != "responsible"@,
        "project"@ != "parent"@, "project"@ != "version"@, "type"@ != "assignee"@, "type"@ != "priority"@,
        "type"@ != "responsible"@, "type"@ != "parent"@, "type"@ != "version"@, "assignee"@ != "priority"@,
        "assignee"@ != "responsible"@, "assignee"@ != "parent"@, "assignee"@ != "version"@,
        "priority"@ != "responsible"@, "priority"@ != "parent"@, "priority"@ != "version"@,
        "responsible"@ != "parent"@, "responsible"@ != "version"@, "parent"@ != "version"@,
        "subject"@ != "description"@, "subject"@ != "startDate"@, "subject"@ != "dueDate"@,
        "subject"@ != "estimatedTime"@, "subject"@ != "_links"@, "description"@ != "startDate"@,
        "description"@ != "dueDate"@, "description"@ != "estimatedTime"@, "description"@ != "_links"@,
        "startDate"@ != "dueDate"@, "startDate"@ != "estimatedTime"@, "startDate"@ != "_links"@,
        "dueDate"@ != "estimatedTime"@, "dueDate"@ != "_links"@, "estimatedTime"@ != "_links"@,
{
    reveal_strlit("project");
    reveal_strlit("type");
    reveal_strlit("assignee");
    reveal_strlit("priority");
    reveal_strlit("responsible");
    reveal_strlit("parent");
    reveal_strlit("version");
    reveal_strlit("subject");
    reveal_strlit("description");
    reveal_strlit("startDate");
    reveal_strlit("dueDate");
    reveal_strlit("estimatedTime");
    reveal_strlit("_links");
    assert("project"@[0] != "priority"@[1]);
    assert("project"@[0] == 'p' && "type"@[0] == 't' && "assignee"@[0] == 'a' && "priority"@[0] == 'p');
    assert("responsible"@[0] == 'r' && "parent"@[0] == 'p' && "version"@[0] == 'v');
    assert("project"@[1] == 'r' && "priority"@[1] == 'r' && "parent"@[1] == 'a');
    assert("project"@[2] == 'o' && "priority"@[2] == 'i');
    assert("subject"@[0] == 's' && "description"@[0] == 'd' && "startDate"@[0] == 's' && "dueDate"@[0] == 'd');
    assert("estimatedTime"@[0] == 'e' && "_links"@[0] == '_' && "subject"@[1] == 'u' && "startDate"@[1] == 't');
    assert("description"@[1] == 'e' && "dueDate"@[1] == 'u');
}

proof fn lemma_lookup_insert_all(es: Entries, key: Seq<char>, value: Json)
    ensures
        forall|k: Seq<char>| #[trigger] lookup(entries_insert(es, key, value), k) == if k == key {
            Some(value)
        } else {
            lookup(es, k)
        },
{
    assert forall|k: Seq<char>| #[trigger] lookup(entries_insert(es, key, value), k) == if k == key {
        Some(value)
    } else {
        lookup(es, k)
    } by {
        law_lookup_after_insert(es, key, value, k);
    }
}

proof fn lemma_lookup_opt_link(es: Entries, key: Seq<char>, prefix: Seq<char>, n: Option<u64>)
    ensures
        forall|k: Seq<char>| #[trigger] lookup(opt_link(es, key, prefix, n), k) == if k == key && n is Some {
            Some(api_link(prefix, n->Some_0))
        } else {
            lookup(es, k)
        },
{
    if let Some(m) = n {
        lemma_lookup_insert_all(es, key, api_link(prefix, m));
    }
}

proof fn lemma_lookup_extend(es: Entries, more: Entries, k: Seq<char>)
    requires
        forall|i: int| 0 <= i < more.len() ==> more[i].0 != k,
    ensures
        lookup(entries_extend(es, more), k) == lookup(es, k),
    decreases more.len(),
{
    if more.len() > 0 {
        lemma_lookup_extend(es, more.drop_last(), k);
        law_lookup_after_insert(entries_extend(es, more.drop_last()), more.last().0, more.last().1, k);
    }
}

/// A new work package's body carries what was given, each under its own name:
/// the subject, the Markdown description, the dates and the estimate (null where
/// absent), and in `_links` the project, the type, and the assignee,
/// priority, accountable user, parent and version where given (absent
/// otherwise), each as `{"href": ...}` to its API resource. Linked custom fields
/// are assumed to use their own names.
pub proof fn law_create_payload_fields(f: CreateFields, custom_fields: Entries, custom_links: Entries)
    requires
        forall|i: int| 0 <= i < custom_links.len() ==> {
            let k = #[trigger] custom_links[i].0;
            k != "project"@ && k != "type"@ && k != "assignee"@ && k != "priority"@ && k != "responsible"@
                && k != "parent"@ && k != "version"@
        },
    ensures
        ({
            let p = create_payload_of(f, custom_fields, custom_links);
            &&& member(p, "subject"@) == Some(Json::Str(f.subject@))
            &&& member(p, "description"@) == Some(match ostr(f.description) {
                Some(d) => Json::Object(seq![("format"@, Json::Str("markdown"@)), ("raw"@, Json::Str(d))]),
                None => Json::Null,
            })
            &&& member(p, "startDate"@) == Some(match ostr(f.start_date) {
                Some(d) => Json::Str(d),
                None => Json::Null,
            })
            &&& member(p, "dueDate"@) == Some(match ostr(f.due_date) {
                Some(d) => Json::Str(d),
                None => Json::Null,
            })
            &&& member(p, "estimatedTime"@) == Some(match ostr(f.estimate) {
                Some(d) => Json::Str(d),
                None => Json::Null,
            })
            &&& member(p, "_links"@) matches Some(Json::Object(ls)) && {
                &&& lookup(ls, "project"@) == Some(Json::Object(seq![("href"@, Json::Str("/api/v3/projects/"@ + decimal(f.project_id as nat)))]))
                &&& lookup(ls, "type"@) == Some(Json::Object(seq![("href"@, Json::Str("/api/v3/types/"@ + decimal(f.type_id as nat)))]))
                &&& lookup(ls, "assignee"@) == match f.assignee {
                    Some(a) => Some(Json::Object(seq![("href"@, Json::Str("/api/v3/users/"@ + decimal(a as nat)))])),
                    None => None,
                }
                &&& lookup(ls, "priority"@) == match f.priority {
                    Some(a) => Some(Json::Object(seq![("href"@, Json::Str("/api/v3/priorities/"@ + decimal(a as nat)))])),
                    None => None,
                }
                &&& lookup(ls, "responsible"@) == match f.responsible {
                    Some(a) => Some(Json::Object(seq![("href"@, Json::Str("/api/v3/users/"@ + decimal(a as nat)))])),
                    None => None,
                }
                &&& lookup(ls, "parent"@) == match f.parent {
                    Some(a) => Some(Json::Object(seq![("href"@, Json::Str("/api/v3/work_packages/"@ + decimal(a as nat)))])),
                    None => None,
                }
                &&& lookup(ls, "version"@) == match f.version {
                    Some(a) => Some(Json::Object(seq![("href"@, Json::Str("/api/v3/versions/"@ + decimal(a as nat)))])),
                    None => None,
                }
            }
        }),
{
    lemma_member_names_differ();
    let l00 = entries_insert(Seq::empty(), "project"@, api_link("/api/v3/projects/"@, f.project_id));
    let l0 = entries_insert(l00, "type"@, api_link("/api/v3/types/"@, f.type_id));
    let l1 = opt_link(l0, "assignee"@, "/api/v3/users/"@, f.assignee);
    let l2 = opt_link(l1, "priority"@, "/api/v3/priorities/"@, f.priority);
    let l3 = opt_link(l2, "responsible"@, "/api/v3/users/"@, f.responsible);
    let l4 = opt_link(l3, "parent"@, "/api/v3/work_packages/"@, f.parent);
    let l5 = opt_link(l4, "version"@, "/api/v3/versions/"@, f.version);
    lemma_lookup_insert_all(Seq::empty(), "project"@, api_link("/api/v3/projects/"@, f.project_id));
    lemma_lookup_insert_all(l00, "type"@, api_link("/api/v3/types/"@, f.type_id));
    lemma_lookup_opt_link(l0, "assignee"@, "/api/v3/users/"@, f.assignee);
    lemma_lookup_opt_link(l1, "priority"@, "/api/v3/priorities/"@, f.priority);
    lemma_lookup_opt_link(l2, "responsible"@, "/api/v3/users/"@, f.responsible);
    lemma_lookup_opt_link(l3, "parent"@, "/api/v3/work_packages/"@, f.parent);
    lemma_lookup_opt_link(l4, "version"@, "/api/v3/versions/"@, f.version);
    assert(lookup(Seq::<(Seq<char>, Json)>::empty(), "project"@) is None);
    lemma_lookup_extend(l5, custom_links, "project"@);
    lemma_lookup_extend(l5, custom_links, "type"@);
    lemma_lookup_extend(l5, custom_links, "assignee"@);
    lemma_lookup_extend(l5, custom_links, "priority"@);
    lemma_lookup_extend(l5, custom_links, "responsible"@);
    lemma_lookup_extend(l5, custom_links, "parent"@);
    lemma_lookup_extend(l5, custom_links, "version"@);
    assert(create_links_of(f, custom_links) == entries_extend(l5, custom_links));
    let p1 = entries_insert(custom_fields, "subject"@, Json::Str(f.subject@));
    let p2 = entries_insert(
        p1,
        "description"@,
        match ostr(f.description) {
            Some(d) => formatted_json("markdown"@, d),
            None => Json::Null,
        },
    );
    let p3 = entries_insert(p2, "startDate"@, opt_str_json(ostr(f.start_date)));
    let p4 = entries_insert(p3, "dueDate"@, opt_str_json(ostr(f.due_date)));
    let p5 = entries_insert(p4, "estimatedTime"@, opt_str_json(ostr(f.estimate)));
    lemma_lookup_insert_all(custom_fields, "subject"@, Json::Str(f.subject@));
    lemma_lookup_insert_all(
        p1,
        "description"@,
        match ostr(f.description) {
            Some(d) => formatted_json("markdown"@, d),
            None => Json::Null,
        },
    );
    lemma_lookup_insert_all(p2, "startDate"@, opt_str_json(ostr(f.start_date)));
    lemma_lookup_insert_all(p3, "dueDate"@, opt_str_json(ostr(f.due_date)));
    lemma_lookup_insert_all(p4, "estimatedTime"@, opt_str_json(ostr(f.estimate)));
    lemma_lookup_insert_all(p5, "_links"@, Json::Object(create_links_of(f, custom_links)));
}

/// A member of an object with distinct names reads back its value.
proof fn lemma_lookup_at(es: Entries, i: int)
    requires
        0 <= i < es.len(),
        forall|j: int| 0 <= j < i ==> #[trigger] es[j].0 != es[i].0,
    ensures
        lookup(es, es[i].0) == Some(es[i].1),
{
    assert(key_absent_before(es, es[i].0, i));
    lemma_key_index_is(es, es[i].0, i);
}

proof fn lemma_entry_names_differ()
    ensures
        "_links"@ != "comment"@, "_links"@ != "hours"@, "_links"@ != "spentOn"@, "comment"@ != "hours"@,
        "comment"@ != "spentOn"@, "hours"@ != "spentOn"@, "activity"@ != "project"@,
        "activity"@ != "workPackage"@, "project"@ != "workPackage"@, "_links"@ != "description"@,
        "_links"@ != "lag"@, "_links"@ != "type"@, "description"@ != "lag"@, "description"@ != "type"@,
        "lag"@ != "type"@,
{
    reveal_strlit("_links");
    reveal_strlit("comment");
    reveal_strlit("hours");
    reveal_strlit("spentOn");
    reveal_strlit("activity");
    reveal_strlit("project");
    reveal_strlit("workPackage");
    reveal_strlit("description");
    reveal_strlit("lag");
    reveal_strlit("type");
    assert("_links"@[0] == '_' && "comment"@[0] == 'c' && "hours"@[0] == 'h' && "spentOn"@[0] == 's');
    assert("activity"@[0] == 'a' && "project"@[0] == 'p' && "workPackage"@[0] == 'w');
    assert("description"@[0] == 'd' && "lag"@[0] == 'l' && "type"@[0] == 't');
}

/// A time entry's body carries the hours and the day as given, the comment as
/// plain text (null without one), and in `_links` the work package's API
/// resource, the project link, and the chosen activity's link (null without
/// one).
pub proof fn law_log_time_payload_fields(
    task_id: u64,
    hours: Seq<char>,
    date: Seq<char>,
    comment: Option<Seq<char>>,
    project: Seq<char>,
    activity: Option<Seq<char>>,
)
    ensures
        ({
            let p = log_time_payload_of(task_id, hours, date, comment, project, activity);
            &&& member(p, "hours"@) == Some(Json::Str(hours))
            &&& member(p, "spentOn"@) == Some(Json::Str(date))
            &&& member(p, "comment"@) == Some(match comment {
                Some(c) => Json::Object(seq![("format"@, Json::Str("plain"@)), ("raw"@, Json::Str(c))]),
                None => Json::Null,
            })
            &&& at_path(p, seq!["_links"@, "activity"@]) == Some(match activity {
                Some(h) => Json::Object(seq![("href"@, Json::Str(h))]),
                None => Json::Null,
            })
            &&& at_path(p, seq!["_links"@, "project"@]) == Some(Json::Object(seq![("href"@, Json::Str(project))]))
            &&& at_path(p, seq!["_links"@, "workPackage"@]) == Some(
                Json::Object(seq![("href"@, Json::Str("/api/v3/work_packages/"@ + decimal(task_id as nat)))]),
            )
        }),
{
    lemma_entry_names_differ();
    reveal_with_fuel(at_path, 3);
    let p = log_time_payload_of(task_id, hours, date, comment, project, activity);
    let es = p->Object_0;
    let ls = es[0].1->Object_0;
    assert(es[0].0 == "_links"@ && es[1].0 == "comment"@ && es[2].0 == "hours"@ && es[3].0 == "spentOn"@);
    assert(ls[0].0 == "activity"@ && ls[1].0 == "project"@ && ls[2].0 == "workPackage"@);
    lemma_lookup_at(es, 0);
    lemma_lookup_at(es, 1);
    lemma_lookup_at(es, 2);
    lemma_lookup_at(es, 3);
    lemma_lookup_at(ls, 0);
    lemma_lookup_at(ls, 1);
    lemma_lookup_at(ls, 2);
    assert(seq!["_links"@, "activity"@].drop_first() =~= seq!["activity"@]);
    assert(seq!["_links"@, "project"@].drop_first() =~= seq!["project"@]);
    assert(seq!["_links"@, "workPackage"@].drop_first() =~= seq!["workPackage"@]);
    assert(seq!["activity"@].drop_first() =~= Seq::<Seq<char>>::empty());
    assert(seq!["project"@].drop_first() =~= Seq::<Seq<char>>::empty());
    assert(seq!["workPackage"@].drop_first() =~= Seq::<Seq<char>>::empty());
}

/// A relation's body links the target work package's API resource and carries
/// the type, description and lag as given (null where absent).
pub proof fn law_relation_payload_fields(kind: Seq<char>, description: Option<Seq<char>>, lag: Option<u64>, to: u64)
    ensures
        ({
            let p = relation_payload_of(kind, description, lag, to);
            &&& member(p, "type"@) == Some(Json::Str(kind))
            &&& member(p, "description"@) == Some(match description {
                Some(d) => Json::Str(d),
                None => Json::Null,
            })
            &&& member(p, "lag"@) == Some(match lag {
                Some(n) => Json::Number(Num::Unsigned(n)),
                None => Json::Null,
            })
            &&& at_path(p, seq!["_links"@, "to"@]) == Some(
                Json::Object(seq![("href"@, Json::Str("/api/v3/work_packages/"@ + decimal(to as nat)))]),
            )
        }),
{
    lemma_entry_names_differ();
    reveal_with_fuel(at_path, 3);
    let p = relation_payload_of(kind, description, lag, to);
    let es = p->Object_0;
    let ls = es[0].1->Object_0;
    assert(es[0].0 == "_links"@ && es[1].0 == "description"@ && es[2].0 == "lag"@ && es[3].0 == "type"@);
    assert(ls[0].0 == "to"@);
    lemma_lookup_at(es, 0);
    lemma_lookup_at(es, 1);
    lemma_lookup_at(es, 2);
    lemma_lookup_at(es, 3);
    lemma_lookup_at(ls, 0);
    assert(seq!["_links"@, "to"@].drop_first() =~= seq!["to"@]);
    assert(seq!["to"@].drop_first() =~= Seq::<Seq<char>>::empty());
}

proof fn lemma_lookup_set_opt(es: Entries, key: Seq<char>, j: Option<Json>)
    ensures
        forall|k: Seq<char>| #[trigger] lookup(set_opt(es, key, j), k) == if k == key && j is Some {
            j
        } else {
            lookup(es, k)
        },
{
    if let Some(v) = j {
        lemma_lookup_insert_all(es, key, v);
    }
}

proof fn lemma_lookup_clear_if(es: Entries, key: Seq<char>, clear: bool)
    ensures
        forall|k: Seq<char>| #[trigger] lookup(clear_if(es, key, clear), k) == if k == key && clear {
            Some(Json::Null)
        } else {
            lookup(es, k)
        },
{
    if clear {
        lemma_lookup_insert_all(es, key, Json::Null);
    }
}

proof fn lemma_update_names_differ()
    ensures
        "status"@ != "assignee"@, "status"@ != "priority"@, "status"@ != "responsible"@, "status"@ != "parent"@,
        "status"@ != "version"@, "lockVersion"@ != "_links"@, "lockVersion"@ != "subject"@,
        "lockVersion"@ != "description"@, "lockVersion"@ != "percentageDone"@, "lockVersion"@ != "startDate"@,
        "lockVersion"@ != "dueDate"@, "lockVersion"@ != "estimatedTime"@, "percentageDone"@ != "_links"@,
        "percentageDone"@ != "subject"@, "percentageDone"@ != "description"@, "percentageDone"@ != "startDate"@,
        "percentageDone"@ != "dueDate"@, "percentageDone"@ != "estimatedTime"@,
{
    reveal_strlit("status");
    reveal_strlit("assignee");
    reveal_strlit("priority");
    reveal_strlit("responsible");
    reveal_strlit("parent");
    reveal_strlit("version");
    reveal_strlit("lockVersion");
    reveal_strlit("_links");
    reveal_strlit("subject");
    reveal_strlit("description");
    reveal_strlit("percentageDone");
    reveal_strlit("startDate");
    reveal_strlit("dueDate");
    reveal_strlit("estimatedTime");
    assert("status"@[0] == 's' && "assignee"@[0] == 'a' && "priority"@[0] == 'p' && "responsible"@[0] == 'r');
    assert("parent"@[0] == 'p' && "version"@[0] == 'v' && "lockVersion"@[0] == 'l' && "_links"@[0] == '_');
    assert("subject"@[0] == 's' && "description"@[0] == 'd' && "percentageDone"@[0] == 'p' && "startDate"@[0] == 's');
    assert("dueDate"@[0] == 'd' && "estimatedTime"@[0] == 'e');
}

/// An update's body carries the current `lockVersion`; in `_links`, the
/// status, priority and (unless cleared) assignee, accountable user, parent
/// and version links where given, a cleared link as null, and nothing for a
/// link neither given nor cleared; and the subject, description (Markdown),
/// percentage done, dates and estimate where given, each cleared one as null.
/// Custom fields are assumed to use their own names.
pub proof fn law_update_payload_fields(
    f: UpdateFields,
    estimate: Option<Seq<char>>,
    lock_version: Json,
    custom_fields: Entries,
    custom_links: Entries,
)
    requires
        forall|i: int| 0 <= i < custom_links.len() ==> {
            let k = #[trigger] custom_links[i].0;
            k != "status"@ && k != "assignee"@ && k != "priority"@ && k != "responsible"@ && k != "parent"@
                && k != "version"@
        },
        forall|i: int| 0 <= i < custom_fields.len() ==> {
            let k = #[trigger] custom_fields[i].0;
            k != "subject"@ && k != "description"@ && k != "percentageDone"@ && k != "startDate"@
                && k != "dueDate"@ && k != "estimatedTime"@
        },
    ensures
        ({
            let p = update_payload_of(f, estimate, lock_version, custom_fields, custom_links);
            &&& member(p, "lockVersion"@) == Some(lock_version)
            &&& member(p, "subject"@) == match ostr(f.subject) {
                Some(t) => Some(Json::Str(t)),
                None => None,
            }
            &&& member(p, "description"@) == if f.clear_description {
                Some(Json::Null)
            } else {
                match ostr(f.description) {
                    Some(d) => Some(Json::Object(seq![("format"@, Json::Str("markdown"@)), ("raw"@, Json::Str(d))])),
                    None => None,
                }
            }
            &&& member(p, "percentageDone"@) == match f.percent {
                Some(n) => Some(Json::Number(Num::Unsigned(n as u64))),
                None => None,
            }
            &&& member(p, "startDate"@) == if f.clear_start_date {
                Some(Json::Null)
            } else {
                match ostr(f.start_date) {
                    Some(d) => Some(Json::Str(d)),
                    None => None,
                }
            }
            &&& member(p, "dueDate"@) == if f.clear_due_date {
                Some(Json::Null)
            } else {
                match ostr(f.due_date) {
                    Some(d) => Some(Json::Str(d)),
                    None => None,
                }
            }
            &&& member(p, "estimatedTime"@) == if f.clear_estimate {
                Some(Json::Null)
            } else {
                match estimate {
                    Some(d) => Some(Json::Str(d)),
                    None => None,
                }
            }
            &&& member(p, "_links"@) matches Some(Json::Object(ls)) && {
                &&& lookup(ls, "status"@) == match f.status {
                    Some(a) => Some(Json::Object(seq![("href"@, Json::Str("/api/v3/statuses/"@ + decimal(a as nat)))])),
                    None => None,
                }
                &&& lookup(ls, "priority"@) == match f.priority {
                    Some(a) => Some(Json::Object(seq![("href"@, Json::Str("/api/v3/priorities/"@ + decimal(a as nat)))])),
                    None => None,
                }
                &&& lookup(ls, "assignee"@) == if f.clear_assignee {
                    Some(Json::Null)
                } else {
                    match f.assignee {
                        Some(a) => Some(Json::Object(seq![("href"@, Json::Str("/api/v3/users/"@ + decimal(a as nat)))])),
                        None => None,
                    }
                }
                &&& lookup(ls, "responsible"@) == if f.clear_responsible {
                    Some(Json::Null)
                } else {
                    match f.responsible {
                        Some(a) => Some(Json::Object(seq![("href"@, Json::Str("/api/v3/users/"@ + decimal(a as nat)))])),
                        None => None,
                    }
                }
                &&& lookup(ls, "parent"@) == if f.clear_parent {
                    Some(Json::Null)
                } else {
                    match f.parent {
                        Some(a) => Some(Json::Object(seq![("href"@, Json::Str("/api/v3/work_packages/"@ + decimal(a as nat)))])),
                        None => None,
                    }
                }
                &&& lookup(ls, "version"@) == if f.clear_version {
                    Some(Json::Null)
                } else {
                    match f.version {
                        Some(a) => Some(Json::Object(seq![("href"@, Json::Str("/api/v3/versions/"@ + decimal(a as nat)))])),
                        None => None,
                    }
                }
            }
        }),{
    lemma_update_links(f, custom_links);
    lemma_update_scalars(f, estimate, lock_version, custom_fields, custom_links);
}

proof fn lemma_update_links(f: UpdateFields, custom_links: Entries)
    requires
        forall|i: int| 0 <= i < custom_links.len() ==> {
            let k = #[trigger] custom_links[i].0;
            k != "status"@ && k != "assignee"@ && k != "priority"@ && k != "responsible"@ && k != "parent"@
                && k != "version"@
        },
    ensures
        ({
            let ls = update_links_of(f, custom_links);
            {
                &&& lookup(ls, "status"@) == match f.status {
                    Some(a) => Some(Json::Object(seq![("href"@, Json::Str("/api/v3/statuses/"@ + decimal(a as nat)))])),
                    None => None,
                }
                &&& lookup(ls, "priority"@) == match f.priority {
                    Some(a) => Some(Json::Object(seq![("href"@, Json::Str("/api/v3/priorities/"@ + decimal(a as nat)))])),
                    None => None,
                }
                &&& lookup(ls, "assignee"@) == if f.clear_assignee {
                    Some(Json::Null)
                } else {
                    match f.assignee {
                        Some(a) => Some(Json::Object(seq![("href"@, Json::Str("/api/v3/users/"@ + decimal(a as nat)))])),
                        None => None,
                    }
                }
                &&& lookup(ls, "responsible"@) == if f.clear_responsible {
                    Some(Json::Null)
                } else {
                    match f.responsible {
                        Some(a) => Some(Json::Object(seq![("href"@, Json::Str("/api/v3/users/"@ + decimal(a as nat)))])),
                        None => None,
                    }
                }
                &&& lookup(ls, "parent"@) == if f.clear_parent {
                    Some(Json::Null)
                } else {
                    match f.parent {
                        Some(a) => Some(Json::Object(seq![("href"@, Json::Str("/api/v3/work_packages/"@ + decimal(a as nat)))])),
                        None => None,
                    }
                }
                &&& lookup(ls, "version"@) == if f.clear_version {
                    Some(Json::Null)
                } else {
                    match f.version {
                        Some(a) => Some(Json::Object(seq![("href"@, Json::Str("/api/v3/versions/"@ + decimal(a as nat)))])),
                        None => None,
                    }
                }
            }
        }),

{
    lemma_member_names_differ();
    lemma_update_names_differ();
    let l1 = opt_link(Seq::empty(), "status"@, "/api/v3/statuses/"@, f.status);
    let l2a = opt_link(l1, "assignee"@, "/api/v3/users/"@, f.assignee);
    let l2 = clear_if(l2a, "assignee"@, f.clear_assignee);
    let l3 = opt_link(l2, "priority"@, "/api/v3/priorities/"@, f.priority);
    let l4a = opt_link(l3, "responsible"@, "/api/v3/users/"@, f.responsible);
    let l4 = clear_if(l4a, "responsible"@, f.clear_responsible);
    let l5a = opt_link(l4, "parent"@, "/api/v3/work_packages/"@, f.parent);
    let l5 = clear_if(l5a, "parent"@, f.clear_parent);
    let l6a = opt_link(l5, "version"@, "/api/v3/versions/"@, f.version);
    let l6 = clear_if(l6a, "version"@, f.clear_version);
    lemma_lookup_opt_link(Seq::empty(), "status"@, "/api/v3/statuses/"@, f.status);
    lemma_lookup_opt_link(l1, "assignee"@, "/api/v3/users/"@, f.assignee);
    lemma_lookup_clear_if(l2a, "assignee"@, f.clear_assignee);
    lemma_lookup_opt_link(l2, "priority"@, "/api/v3/priorities/"@, f.priority);
    lemma_lookup_opt_link(l3, "responsible"@, "/api/v3/users/"@, f.responsible);
    lemma_lookup_clear_if(l4a, "responsible"@, f.clear_responsible);
    lemma_lookup_opt_link(l4, "parent"@, "/api/v3/work_packages/"@, f.parent);
    lemma_lookup_clear_if(l5a, "parent"@, f.clear_parent);
    lemma_lookup_opt_link(l5, "version"@, "/api/v3/versions/"@, f.version);
    lemma_lookup_clear_if(l6a, "version"@, f.clear_version);
    assert(lookup(Seq::<(Seq<char>, Json)>::empty(), "status"@) is None);
    assert(lookup(Seq::<(Seq<char>, Json)>::empty(), "assignee"@) is None);
    assert(lookup(Seq::<(Seq<char>, Json)>::empty(), "priority"@) is None);
    assert(lookup(Seq::<(Seq<char>, Json)>::empty(), "responsible"@) is None);
    assert(lookup(Seq::<(Seq<char>, Json)>::empty(), "parent"@) is None);
    assert(lookup(Seq::<(Seq<char>, Json)>::empty(), "version"@) is None);
    lemma_lookup_extend(l6, custom_links, "status"@);
    lemma_lookup_extend(l6, custom_links, "assignee"@);
    lemma_lookup_extend(l6, custom_links, "priority"@);
    lemma_lookup_extend(l6, custom_links, "responsible"@);
    lemma_lookup_extend(l6, custom_links, "parent"@);
    lemma_lookup_extend(l6, custom_links, "version"@);
    assert(update_links_of(f, custom_links) == entries_extend(l6, custom_links));
}

proof fn lemma_update_scalars(
    f: UpdateFields,
    estimate: Option<Seq<char>>,
    lock_version: Json,
    custom_fields: Entries,
    custom_links: Entries,
)
    requires
        forall|i: int| 0 <= i < custom_fields.len() ==> {
            let k = #[trigger] custom_fields[i].0;
            k != "subject"@ && k != "description"@ && k != "percentageDone"@ && k != "startDate"@
                && k != "dueDate"@ && k != "estimatedTime"@
        },
    ensures
        ({
            let p = update_payload_of(f, estimate, lock_version, custom_fields, custom_links);
            &&& member(p, "lockVersion"@) == Some(lock_version)
            &&& member(p, "subject"@) == match ostr(f.subject) {
                Some(t) => Some(Json::Str(t)),
                None => None,
            }
            &&& member(p, "description"@) == if f.clear_description {
                Some(Json::Null)
            } else {
                match ostr(f.description) {
                    Some(d) => Some(Json::Object(seq![("format"@, Json::Str("markdown"@)), ("raw"@, Json::Str(d))])),
                    None => None,
                }
            }
            &&& member(p, "percentageDone"@) == match f.percent {
                Some(n) => Some(Json::Number(Num::Unsigned(n as u64))),
                None => None,
            }
            &&& member(p, "startDate"@) == if f.clear_start_date {
                Some(Json::Null)
            } else {
                match ostr(f.start_date) {
                    Some(d) => Some(Json::Str(d)),
                    None => None,
                }
            }
            &&& member(p, "dueDate"@) == if f.clear_due_date {
                Some(Json::Null)
            } else {
                match ostr(f.due_date) {
                    Some(d) => Some(Json::Str(d)),
                    None => None,
                }
            }
            &&& member(p, "estimatedTime"@) == if f.clear_estimate {
                Some(Json::Null)
            } else {
                match estimate {
                    Some(d) => Some(Json::Str(d)),
                    None => None,
                }
            }
            &&& member(p, "_links"@) == Some(Json::Object(update_links_of(f, custom_links)))
        }),
{
    lemma_member_names_differ();
    lemma_update_names_differ();
    let subj = match ostr(f.subject) {
        Some(t) => Some(Json::Str(t)),
        None => None,
    };
    let desc = match ostr(f.description) {
        Some(d) => Some(formatted_json("markdown"@, d)),
        None => None,
    };
    let pct = match f.percent {
        Some(n) => Some(Json::Number(Num::Unsigned(n as u64))),
        None => None,
    };
    let sd = match ostr(f.start_date) {
        Some(d) => Some(Json::Str(d)),
        None => None,
    };
    let dd = match ostr(f.due_date) {
        Some(d) => Some(Json::Str(d)),
        None => None,
    };
    let et = match estimate {
        Some(d) => Some(Json::Str(d)),
        None => None,
    };
    let p1 = entries_insert(custom_fields, "lockVersion"@, lock_version);
    let p2 = entries_insert(p1, "_links"@, Json::Object(update_links_of(f, custom_links)));
    let p3 = set_opt(p2, "subject"@, subj);
    let p4a = set_opt(p3, "description"@, desc);
    let p4 = clear_if(p4a, "description"@, f.clear_description);
    let p5 = set_opt(p4, "percentageDone"@, pct);
    let p6a = set_opt(p5, "startDate"@, sd);
    let p6 = clear_if(p6a, "startDate"@, f.clear_start_date);
    let p7a = set_opt(p6, "dueDate"@, dd);
    let p7 = clear_if(p7a, "dueDate"@, f.clear_due_date);
    let p8a = set_opt(p7, "estimatedTime"@, et);
    let p8 = clear_if(p8a, "estimatedTime"@, f.clear_estimate);
    assert(update_payload_of(f, estimate, lock_version, custom_fields, custom_links) == Json::Object(p8));
    lemma_lookup_insert_all(custom_fields, "lockVersion"@, lock_version);
    lemma_lookup_insert_all(p1, "_links"@, Json::Object(update_links_of(f, custom_links)));
    lemma_lookup_set_opt(p2, "subject"@, subj);
    lemma_lookup_set_opt(p3, "description"@, desc);
    lemma_lookup_clear_if(p4a, "description"@, f.clear_description);
    lemma_lookup_set_opt(p4, "percentageDone"@, pct);
    lemma_lookup_set_opt(p5, "startDate"@, sd);
    lemma_lookup_clear_if(p6a, "startDate"@, f.clear_start_date);
    lemma_lookup_set_opt(p6, "dueDate"@, dd);
    lemma_lookup_clear_if(p7a, "dueDate"@, f.clear_due_date);
    lemma_lookup_set_opt(p7, "estimatedTime"@, et);
    lemma_lookup_clear_if(p8a, "estimatedTime"@, f.clear_estimate);
    lemma_lookup_absent(custom_fields, "subject"@);
    lemma_lookup_absent(custom_fields, "description"@);
    lemma_lookup_absent(custom_fields, "percentageDone"@);
    lemma_lookup_absent(custom_fields, "startDate"@);
    lemma_lookup_absent(custom_fields, "dueDate"@);
    lemma_lookup_absent(custom_fields, "estimatedTime"@);
}

proof fn lemma_lookup_absent(es: Entries, k: Seq<char>)
    requires
        forall|i: int| 0 <= i < es.len() ==> #[trigger] es[i].0 != k,
    ensures
        lookup(es, k) is None,
{
    crate::json::lemma_key_index(es, k);
}

} // verus!
