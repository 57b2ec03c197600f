//! Time-entry activities, ISO-8601 durations, activity pages and relation pages.

use vstd::prelude::*;

use crate::error::{outcome, CliError, ErrorKind, Failure};
use crate::json::{
    array_of, at_path, entries_insert, key_views, lemma_model_entries, lemma_model_items,
    lemma_model_items_push, member, model_entries, model_items, object1, object_insert, pointer,
    push_entry, str_of, u64_of, Json, JsonValue, Num,
};
use crate::outside::{regex_is_match, regex_match};
use crate::projects::{normalized, normalize_chars};
use crate::summaries::{link_href, link_href_of};
use crate::text::{
    chars_eq, chars_of, decimal, decimal_chars, parse_unsigned, parse_unsigned_chars, push_chars,
    push_str, slice_chars, split_at_char, split_once, string_of, upper_seq, uppercase,
};

verus! {

/// The text after the last `/` (all of it when there is none).
pub open spec fn after_last_slash(s: Seq<char>) -> Seq<char>
    decreases s.len(),
{
    if s.len() == 0 {
        s
    } else if s.last() == '/' {
        Seq::empty()
    } else {
        after_last_slash(s.drop_last()).push(s.last())
    }
}

/// The text before the first `?` (all of it when there is none).
pub open spec fn before_query(s: Seq<char>) -> Seq<char> {
    match split_once(s, '?') {
        Some((a, _)) => a,
        None => s,
    }
}

/// The numeric last path segment of an activity link.
pub open spec fn href_id(href: Seq<char>) -> Option<u64> {
    match parse_unsigned(after_last_slash(before_query(href)), u64::MAX as nat) {
        Some(n) => Some(n as u64),
        None => None,
    }
}

/// One allowed activity as `{"href", "id", "name"}`.
pub open spec fn activity_of(v: Json) -> Result<Json, Failure> {
    let href = str_of(
        if at_path(v, seq!["_links"@, "self"@, "href"@]) is Some {
            at_path(v, seq!["_links"@, "self"@, "href"@])
        } else {
            member(v, "href"@)
        },
    );
    let name = str_of(
        if member(v, "name"@) is Some {
            member(v, "name"@)
        } else {
            member(v, "title"@)
        },
    );
    match href {
        None => Err((ErrorKind::ActivityWithoutLink, Seq::<Seq<char>>::empty())),
        Some(h) => match name {
            None => Err((ErrorKind::ActivityWithoutName, Seq::<Seq<char>>::empty())),
            Some(n) => {
                let id = match u64_of(member(v, "id"@)) {
                    Some(i) => Some(i),
                    None => href_id(h),
                };
                Ok(
                    Json::Object(
                        seq![
                            ("href"@, Json::Str(h)),
                            ("id"@, match id {
                                Some(i) => Json::Number(Num::Unsigned(i)),
                                None => Json::Null,
                            }),
                            ("name"@, Json::Str(n)),
                        ],
                    ),
                )
            },
        },
    }
}

pub open spec fn activities_of(values: Seq<Json>) -> Result<Seq<Json>, Failure>
    decreases values.len(),
{
    if values.len() == 0 {
        Ok(Seq::empty())
    } else {
        match activities_of(values.drop_last()) {
            Err(e) => Err(e),
            Ok(done) => match activity_of(values.last()) {
                Err(e) => Err(e),
                Ok(a) => Ok(done.push(a)),
            },
        }
    }
}

/// The allowed activities of a time-entry form: the activity schema's
/// `/_embedded/allowedValues`, else its `/_links/allowedValues`.
pub open spec fn form_activities_of(form: Json) -> Result<Seq<Json>, Failure> {
    match at_path(form, seq!["_embedded"@, "schema"@, "activity"@]) {
        None => Err((ErrorKind::NoActivitySchema, Seq::<Seq<char>>::empty())),
        Some(field) => {
            let values = array_of(
                if at_path(field, seq!["_embedded"@, "allowedValues"@]) is Some {
                    at_path(field, seq!["_embedded"@, "allowedValues"@])
                } else {
                    at_path(field, seq!["_links"@, "allowedValues"@])
                },
            );
            match values {
                None => Err((ErrorKind::NoAllowedActivities, Seq::<Seq<char>>::empty())),
                Some(vs) => activities_of(vs),
            }
        },
    }
}

/// The text after the last `/`.
pub fn last_path_segment(s: &Vec<char>) -> (r: Vec<char>)
    ensures
        r@ == after_last_slash(s@),
{
    let mut k: usize = s.len();
    assert(s@.take(k as int) =~= s@);
    assert(s@.skip(k as int) =~= Seq::<char>::empty());
    while k > 0 && s[k - 1] != '/'
        invariant
            k <= s.len(),
            after_last_slash(s@) == after_last_slash(s@.take(k as int)) + s@.skip(k as int),
        decreases k,
    {
        proof {
            let t = s@.take(k as int);
            assert(t.drop_last() =~= s@.take(k - 1));
            assert(s@.skip(k - 1) =~= seq![t.last()] + s@.skip(k as int));
            assert(after_last_slash(t) == after_last_slash(t.drop_last()).push(t.last()));
            assert(after_last_slash(t.drop_last()).push(t.last()) + s@.skip(k as int) =~= after_last_slash(
                s@.take(k - 1),
            ) + s@.skip(k - 1));
        }
        k = k - 1;
    }
    proof {
        if k == 0 {
            assert(s@.take(0) =~= Seq::<char>::empty());
            assert(s@.skip(0) =~= s@);
        } else {
            assert(s@.take(k as int).last() == '/');
        }
    }
    let r = slice_chars(s, k, s.len());
    assert(r@ =~= s@.skip(k as int));
    assert(after_last_slash(s@) =~= r@);
    r
}

/// The numeric last path segment of an activity link.
pub fn activity_href_id(href: &str) -> (r: Option<u64>)
    ensures
        r == href_id(href@),
{
    let h = chars_of(href);
    let path = match split_at_char(&h, '?') {
        Some((a, _)) => a,
        None => h,
    };
    assert(path@ == before_query(href@));
    parse_unsigned_chars(&last_path_segment(&path), u64::MAX)
}

/// One allowed activity as `{"href", "id", "name"}`.
pub fn activity_value(v: &JsonValue) -> (r: Result<JsonValue, CliError>)
    ensures
        outcome(r, |j: JsonValue| j.model()) == activity_of(v.model()),
{
    let sk = vec!["_links", "self", "href"];
    assert(key_views(sk@) =~= seq!["_links"@, "self"@, "href"@]);
    let href_node = match pointer(v, &sk) {
        Some(x) => Some(x),
        None => v.get("href"),
    };
    let href = match href_node {
        Some(x) => x.as_str(),
        None => None,
    };
    let name_node = match v.get("name") {
        Some(x) => Some(x),
        None => v.get("title"),
    };
    let name = match name_node {
        Some(x) => x.as_str(),
        None => None,
    };
    let h = match href {
        Some(h) => h,
        None => return Err(CliError::new(ErrorKind::ActivityWithoutLink)),
    };
    let n = match name {
        Some(n) => n,
        None => return Err(CliError::new(ErrorKind::ActivityWithoutName)),
    };
    let own = match v.get("id") {
        Some(x) => x.as_u64(),
        None => None,
    };
    let id = match own {
        Some(i) => Some(i),
        None => activity_href_id(h.as_str()),
    };
    let mut es: Vec<(String, JsonValue)> = Vec::new();
    proof {
        lemma_model_entries(es@);
    }
    push_entry(&mut es, "href", JsonValue::String(h.clone()));
    push_entry(
        &mut es,
        "id",
        match id {
            Some(i) => JsonValue::unsigned(i),
            None => JsonValue::Null,
        },
    );
    push_entry(&mut es, "name", JsonValue::String(n.clone()));
    proof {
        let want = activity_of(v.model());
        assert(want is Ok);
        assert(model_entries(es@) =~= want->Ok_0->Object_0);
    }
    Ok(JsonValue::Object(es))
}

/// The allowed activities of a time-entry form, each as `{"href", "id", "name"}`.
pub fn time_entry_activity_values(form: &JsonValue) -> (r: Result<Vec<JsonValue>, CliError>)
    ensures
        outcome(r, |v: Vec<JsonValue>| model_items(v@)) == form_activities_of(form.model()),
{
    let fk = vec!["_embedded", "schema", "activity"];
    assert(key_views(fk@) =~= seq!["_embedded"@, "schema"@, "activity"@]);
    let field = match pointer(form, &fk) {
        Some(f) => f,
        None => return Err(CliError::new(ErrorKind::NoActivitySchema)),
    };
    let k1 = vec!["_embedded", "allowedValues"];
    let k2 = vec!["_links", "allowedValues"];
    assert(key_views(k1@) =~= seq!["_embedded"@, "allowedValues"@]);
    assert(key_views(k2@) =~= seq!["_links"@, "allowedValues"@]);
    let node = match pointer(field, &k1) {
        Some(x) => Some(x),
        None => pointer(field, &k2),
    };
    let values = match node {
        Some(x) => match x.as_array() {
            Some(a) => a,
            None => return Err(CliError::new(ErrorKind::NoAllowedActivities)),
        },
        None => return Err(CliError::new(ErrorKind::NoAllowedActivities)),
    };
    let ghost vs = model_items(values@);
    proof {
        lemma_model_items(values@);
    }
    let mut out: Vec<JsonValue> = Vec::new();
    proof {
        lemma_model_items(out@);
    }
    let mut i: usize = 0;
    assert(vs.take(0) =~= Seq::<Json>::empty());
    assert(form_activities_of(form.model()) == activities_of(vs));
    while i < values.len()
        invariant
            i <= values.len(),
            form_activities_of(form.model()) == activities_of(vs),
            vs == model_items(values@),
            vs.len() == values.len(),
            forall|k: int| 0 <= k < values.len() ==> #[trigger] vs[k] == values@[k].model(),
            activities_of(vs.take(i as int)) == Ok::<Seq<Json>, Failure>(model_items(out@)),
        decreases values.len() - i,
    {
        assert(vs.take(i + 1).drop_last() =~= vs.take(i as int));
        assert(vs.take(i + 1).last() == values@[i as int].model());
        match activity_value(&values[i]) {
            Ok(a) => {
                proof {
                    lemma_model_items_push(out@, a);
                }
                out.push(a);
            },
            Err(e) => {
                proof {
                    assert(activities_of(vs.take(i + 1)) == Err::<Seq<Json>, Failure>(e@));
                    lemma_activities_stop(vs, i + 1);
                }
                return Err(e);
            },
        }
        i = i + 1;
    }
    assert(vs.take(values.len() as int) =~= vs);
    Ok(out)
}

/// Once one activity fails, the whole list fails the same way.
pub proof fn lemma_activities_stop(values: Seq<Json>, k: int)
    requires
        0 <= k <= values.len(),
        activities_of(values.take(k)) is Err,
    ensures
        activities_of(values) == activities_of(values.take(k)),
    decreases values.len() - k,
{
    if k == values.len() {
        assert(values.take(k) =~= values);
    } else {
        let shorter = values.drop_last();
        assert(shorter.take(k) =~= values.take(k));
        lemma_activities_stop(shorter, k);
    }
}

/// The project link of a work package.
pub open spec fn project_link_of(task: Json) -> Result<Seq<char>, Failure> {
    match link_href_of(task, "project"@) {
        Some(h) => Ok(h),
        None => Err((ErrorKind::NoProjectLink, Seq::<Seq<char>>::empty())),
    }
}

/// The project link (`/_links/project/href`) of a work package.
pub fn project_link(task: &JsonValue) -> (r: Result<String, CliError>)
    ensures
        outcome(r, |s: String| s@) == project_link_of(task.model()),
{
    match link_href(task, "project") {
        Some(h) => Ok(h.clone()),
        None => Err(CliError::new(ErrorKind::NoProjectLink)),
    }
}

/// The API path of a work package.
pub open spec fn work_package_href(task_id: u64) -> Seq<char> {
    "/api/v3/work_packages/"@ + decimal(task_id as nat)
}

/// `{"href": href}`.
pub open spec fn href_json(href: Seq<char>) -> Json {
    Json::Object(seq![("href"@, Json::Str(href))])
}

/// The body of the time-entry form request for a work package.
pub open spec fn time_entry_form_of(task_id: u64, project: Seq<char>) -> Json {
    Json::Object(
        seq![
            ("_links"@, Json::Object(
                seq![
                    ("entity"@, href_json(work_package_href(task_id))),
                    ("project"@, href_json(project)),
                    ("workPackage"@, href_json(work_package_href(task_id))),
                ],
            )),
        ],
    )
}

/// The API path of a work package.
pub fn work_package_link(task_id: u64) -> (r: String)
    ensures
        r@ == work_package_href(task_id),
{
    let mut v: Vec<char> = Vec::new();
    push_str(&mut v, "/api/v3/work_packages/");
    push_chars(&mut v, &decimal_chars(task_id));
    string_of(&v)
}

/// `{"href": href}`.
pub fn href_member(href: String) -> (r: JsonValue)
    ensures
        r.model() == href_json(href@),
{
    object1("href", JsonValue::String(href))
}

/// The body of the time-entry form request for a work package of a project.
pub fn time_entry_form_payload(task_id: u64, project: &str) -> (r: JsonValue)
    ensures
        r.model() == time_entry_form_of(task_id, project@),
{
    let mut links: Vec<(String, JsonValue)> = Vec::new();
    proof {
        lemma_model_entries(links@);
    }
    push_entry(&mut links, "entity", href_member(work_package_link(task_id)));
    push_entry(&mut links, "project", href_member(project.to_owned()));
    push_entry(&mut links, "workPackage", href_member(work_package_link(task_id)));
    assert(model_entries(links@) =~= seq![
        ("entity"@, href_json(work_package_href(task_id))),
        ("project"@, href_json(project@)),
        ("workPackage"@, href_json(work_package_href(task_id))),
    ]);
    let r = object1("_links", JsonValue::Object(links));
    assert(r.model() =~= time_entry_form_of(task_id, project@));
    r
}

/// The activities listing of a work package: `{"activities", "taskId"}`.
pub fn time_entry_activities(task_id: u64, activities: Vec<JsonValue>) -> (r: JsonValue)
    ensures
        r.model() == Json::Object(
            seq![("activities"@, Json::Array(model_items(activities@))), ("taskId"@, Json::Number(Num::Unsigned(task_id)))],
        ),
{
    crate::json::object2("activities", JsonValue::Array(activities), "taskId", JsonValue::unsigned(task_id))
}

/// Whether an activity is the one asked for: its numeric `id` equals the value
/// read as a number (two absent numbers are equal), or its name normalizes
/// like the value.
pub open spec fn activity_matches(a: Json, value: Seq<char>) -> bool {
    let wanted = match parse_unsigned(value, u64::MAX as nat) {
        Some(n) => Some(n as u64),
        None => None,
    };
    u64_of(member(a, "id"@)) == wanted || (str_of(member(a, "name"@)) matches Some(n) && normalized(n)
        == normalized(value))
}

/// The link of the one activity asked for.
pub open spec fn chosen_activity_of(activities: Seq<Json>, value: Seq<char>) -> Result<Seq<char>, Failure> {
    let m = activities.filter(|a: Json| activity_matches(a, value));
    if m.len() == 1 {
        match str_of(member(m[0], "href"@)) {
            Some(h) => Ok(h),
            None => Err((ErrorKind::ActivityWithoutLink, Seq::<Seq<char>>::empty())),
        }
    } else if m.len() == 0 {
        Err((ErrorKind::NoActivityMatch, seq![value]))
    } else {
        Err((ErrorKind::AmbiguousActivity, seq![value]))
    }
}

/// The link of the available time-entry activity named or numbered by `value`.
pub fn resolve_time_entry_activity(activities: &Vec<JsonValue>, value: &str) -> (r: Result<String, CliError>)
    ensures
        outcome(r, |s: String| s@) == chosen_activity_of(model_items(activities@), value@),
{
    let ghost ps = model_items(activities@);
    let ghost pred = |a: Json| activity_matches(a, value@);
    proof {
        lemma_model_items(activities@);
    }
    let wanted = parse_unsigned_chars(&chars_of(value), u64::MAX);
    let n = normalize_chars(&chars_of(value));
    let mut count: usize = 0;
    let mut first: usize = 0;
    let mut i: usize = 0;
    assert(ps.take(0).filter(pred) =~= Seq::<Json>::empty());
    while i < activities.len()
        invariant
            i <= activities.len(),
            ps == model_items(activities@),
            ps.len() == activities.len(),
            forall|k: int| 0 <= k < activities.len() ==> #[trigger] ps[k] == activities@[k].model(),
            n@ == normalized(value@),
            wanted == match parse_unsigned(value@, u64::MAX as nat) {
                Some(x) => Some(x as u64),
                None => None,
            },
            pred == (|a: Json| activity_matches(a, value@)),
            count == ps.take(i as int).filter(pred).len(),
            count <= i,
            count > 0 ==> first < i && ps.take(i as int).filter(pred)[0] == ps[first as int],
        decreases activities.len() - i,
    {
        assert(ps.take(i + 1).drop_last() =~= ps.take(i as int));
        proof {
            reveal_with_fuel(Seq::filter, 1);
        }
        let a = &activities[i];
        let own = match a.get("id") {
            Some(x) => x.as_u64(),
            None => None,
        };
        let by_id = own == wanted;
        let by_name = match a.get("name") {
            Some(x) => match x.as_str() {
                Some(s) => chars_eq(&normalize_chars(&chars_of(s.as_str())), &n),
                None => false,
            },
            None => false,
        };
        assert((by_id || by_name) == pred(ps[i as int]));
        if by_id || by_name {
            if count == 0 {
                first = i;
            }
            count = count + 1;
        }
        i = i + 1;
    }
    assert(ps.take(activities.len() as int) =~= ps);
    if count == 1 {
        match activities[first].get("href") {
            Some(h) => match h.as_str() {
                Some(s) => Ok(s.clone()),
                None => Err(CliError::new(ErrorKind::ActivityWithoutLink)),
            },
            None => Err(CliError::new(ErrorKind::ActivityWithoutLink)),
        }
    } else if count == 0 {
        Err(CliError::with(ErrorKind::NoActivityMatch, value.to_owned()))
    } else {
        Err(CliError::with(ErrorKind::AmbiguousActivity, value.to_owned()))
    }
}

/// The ISO-8601 duration pattern the client accepts as is.
pub open spec fn duration_pattern() -> Seq<char> {
    "^P(?:\\d+D)?(?:T(?:\\d+H)?(?:\\d+M)?)?$"@
}

/// An ISO-8601 duration given as is: its upper-case form when the pattern
/// matches it and it is more than `P` or `PT`; `None` when the value must be
/// read as decimal hours instead.
pub open spec fn iso_duration_of(value: Seq<char>) -> Result<Option<Seq<char>>, Failure> {
    iso_duration_matched(upper_seq(value), regex_match(duration_pattern(), upper_seq(value)))
}

/// The ISO-8601 duration of an upper-case value, given whether the duration
/// pattern matched it (`None` when the pattern did not compile).
pub open spec fn iso_duration_matched(upper: Seq<char>, matched: Option<bool>) -> Result<Option<Seq<char>>, Failure> {
    match matched {
        None => Err((ErrorKind::InvalidPattern, Seq::<Seq<char>>::empty())),
        Some(m) => Ok(
            if m && upper != "P"@ && upper != "PT"@ {
                Some(upper)
            } else {
                None
            },
        ),
    }
}

/// The ISO-8601 duration of an upper-case value, given whether the duration
/// pattern matched it.
pub fn iso_duration_from_match(upper: String, matched: Option<bool>) -> (r: Result<Option<String>, CliError>)
    ensures
        outcome(
            r,
            |o: Option<String>|
                match o {
                    Some(s) => Some(s@),
                    None => None,
                },
        ) == iso_duration_matched(upper@, matched),
{
    match matched {
        None => Err(CliError::new(ErrorKind::InvalidPattern)),
        Some(m) => {
            let c = chars_of(upper.as_str());
            if m && !chars_eq(&c, &chars_of("P")) && !chars_eq(&c, &chars_of("PT")) {
                Ok(Some(upper))
            } else {
                Ok(None)
            }
        },
    }
}

/// The duration `value` as an ISO-8601 duration, when it is one already.
pub fn iso_duration(value: &str) -> (r: Result<Option<String>, CliError>)
    ensures
        outcome(
            r,
            |o: Option<String>|
                match o {
                    Some(s) => Some(s@),
                    None => None,
                },
        ) == iso_duration_of(value@),
{
    let upper = uppercase(&chars_of(value));
    let text = string_of(&upper);
    let pattern = "^P(?:\\d+D)?(?:T(?:\\d+H)?(?:\\d+M)?)?$";
    let matched = regex_is_match(pattern, text.as_str());
    iso_duration_from_match(text, matched)
}

/// The elements of a page (`/_embedded/elements`), or none.
pub open spec fn page_entries_of(page: Json) -> Seq<Json> {
    match array_of(at_path(page, seq!["_embedded"@, "elements"@])) {
        Some(items) => items,
        None => Seq::empty(),
    }
}

/// Whether the server paged the collection itself (the page has `pageSize`).
pub open spec fn server_paginates(page: Json) -> bool {
    member(page, "pageSize"@) is Some
}

/// The first entry shown: the server's page starts at its first entry; a
/// collection the server returned whole starts at `(offset - 1) * limit`.
pub open spec fn activity_start(page: Json, offset: u32, limit: u32) -> int {
    if server_paginates(page) {
        0
    } else {
        (if offset > 0 {
            offset - 1
        } else {
            0
        }) * limit
    }
}

/// The activity entries to show in full: at most `limit` from the start.
pub open spec fn activity_selection_of(page: Json, offset: u32, limit: u32) -> Seq<Json> {
    let entries = page_entries_of(page);
    let start = activity_start(page, offset, limit);
    if start >= entries.len() {
        Seq::empty()
    } else if start + limit >= entries.len() {
        entries.skip(start)
    } else {
        entries.subrange(start, start + limit)
    }
}

/// The activity entries of a page that are to be shown in full.
pub fn activity_selection(page: &JsonValue, offset: u32, limit: u32) -> (r: Vec<JsonValue>)
    ensures
        model_items(r@) == activity_selection_of(page.model(), offset, limit),
{
    let ek = vec!["_embedded", "elements"];
    assert(key_views(ek@) =~= seq!["_embedded"@, "elements"@]);
    let none: Vec<JsonValue> = Vec::new();
    let entries: &Vec<JsonValue> = match pointer(page, &ek) {
        Some(x) => match x.as_array() {
            Some(a) => a,
            None => &none,
        },
        None => &none,
    };
    let ghost es = model_items(entries@);
    proof {
        lemma_model_items(entries@);
        lemma_model_items(none@);
    }
    assert(es =~= page_entries_of(page.model()));
    let paged = page.get("pageSize").is_some();
    let wide_start: u64 = if paged {
        0
    } else {
        let o: u32 = if offset > 0 { offset - 1 } else { 0 };
        assert((o as u64) * (limit as u64) <= u64::MAX) by (nonlinear_arith)
            requires
                o <= u32::MAX,
                limit <= u32::MAX,
        ;
        (o as u64) * (limit as u64)
    };
    assert(wide_start == activity_start(page.model(), offset, limit));
    let mut out: Vec<JsonValue> = Vec::new();
    proof {
        lemma_model_items(out@);
    }
    if wide_start >= entries.len() as u64 {
        assert(model_items(out@) =~= activity_selection_of(page.model(), offset, limit));
        return out;
    }
    let start: usize = wide_start as usize;
    let mut i: usize = start;
    let mut taken: u32 = 0;
    assert(es.subrange(start as int, start as int) =~= Seq::<Json>::empty());
    while i < entries.len() && taken < limit
        invariant
            start <= i <= entries.len(),
            i == start + taken,
            taken <= limit,
            es == model_items(entries@),
            es.len() == entries.len(),
            forall|k: int| 0 <= k < entries.len() ==> #[trigger] es[k] == entries@[k].model(),
            model_items(out@) =~= es.subrange(start as int, i as int),
        decreases entries.len() - i,
    {
        let x = entries[i].copy();
        proof {
            lemma_model_items_push(out@, x);
        }
        out.push(x);
        i = i + 1;
        taken = taken + 1;
    }
    proof {
        let want = activity_selection_of(page.model(), offset, limit);
        if start + limit >= entries.len() {
            assert(i == entries.len());
            assert(model_items(out@) =~= want);
        } else {
            assert(model_items(out@) =~= want);
        }
    }
    out
}

/// `v` with member `key` set to `x` (unchanged when `v` is not an object).
pub open spec fn with_member(v: Json, key: Seq<char>, x: Json) -> Json {
    match v {
        Json::Object(es) => Json::Object(entries_insert(es, key, x)),
        other => other,
    }
}

/// The page with its elements replaced by the full activities, and, for a
/// collection the server returned whole, the paging data of the page shown.
pub open spec fn activity_page_of(page: Json, details: Seq<Json>, offset: u32, limit: u32) -> Json {
    let has_elements = array_of(at_path(page, seq!["_embedded"@, "elements"@])) is Some;
    let replaced = if has_elements {
        with_member(
            page,
            "_embedded"@,
            with_member(member(page, "_embedded"@)->Some_0, "elements"@, Json::Array(details)),
        )
    } else {
        page
    };
    if server_paginates(page) {
        replaced
    } else {
        let total = page_entries_of(page).len();
        let count = if has_elements {
            details.len()
        } else {
            0
        };
        with_member(
            with_member(
                with_member(
                    with_member(replaced, "total"@, Json::Number(Num::Unsigned(total as u64))),
                    "count"@,
                    Json::Number(Num::Unsigned(count as u64)),
                ),
                "offset"@,
                Json::Number(Num::Unsigned(offset as u64)),
            ),
            "pageSize"@,
            Json::Number(Num::Unsigned(limit as u64)),
        )
    }
}

/// Sets member `key` of an object (anything else is returned unchanged).
pub fn set_member(v: JsonValue, key: &str, x: JsonValue) -> (r: JsonValue)
    ensures
        r.model() == with_member(v.model(), key@, x.model()),
{
    match v {
        JsonValue::Object(es) => {
            let mut es = es;
            object_insert(&mut es, key.to_owned(), x);
            JsonValue::Object(es)
        },
        other => other,
    }
}

fn element_count(page: &JsonValue) -> (r: usize)
    ensures
        r == page_entries_of(page.model()).len(),
{
    let ek = vec!["_embedded", "elements"];
    assert(key_views(ek@) =~= seq!["_embedded"@, "elements"@]);
    match pointer(page, &ek) {
        Some(x) => match x.as_array() {
            Some(a) => {
                proof {
                    lemma_model_items(a@);
                }
                a.len()
            },
            None => 0,
        },
        None => 0,
    }
}

/// The activity page: each selected entry replaced by the full activity, and,
/// when the server returned the whole collection, `total`, `count`, `offset`
/// and `pageSize` of the page shown. The response must be an object when the
/// server did not page it.
pub fn activity_page_result(page: JsonValue, details: Vec<JsonValue>, offset: u32, limit: u32) -> (r: JsonValue)
    requires
        !server_paginates(page.model()) ==> page.model() is Object,
    ensures
        r.model() == activity_page_of(page.model(), model_items(details@), offset, limit),
{
    let ghost p0 = page.model();
    let total = element_count(&page);
    let paged = page.get("pageSize").is_some();
    let ek = vec!["_embedded", "elements"];
    assert(key_views(ek@) =~= seq!["_embedded"@, "elements"@]);
    let has_elements = match pointer(&page, &ek) {
        Some(x) => x.as_array().is_some(),
        None => false,
    };
    proof {
        lemma_model_items(details@);
    }
    let n = details.len();
    let replaced = if has_elements {
        let emb = match page.get("_embedded") {
            Some(e) => e.copy(),
            None => JsonValue::Null,
        };
        let emb2 = set_member(emb, "elements", JsonValue::Array(details));
        set_member(page, "_embedded", emb2)
    } else {
        page
    };
    if paged {
        replaced
    } else {
        let count: usize = if has_elements { n } else { 0 };
        let a = set_member(replaced, "total", JsonValue::unsigned(total as u64));
        let b = set_member(a, "count", JsonValue::unsigned(count as u64));
        let c = set_member(b, "offset", JsonValue::unsigned(offset as u64));
        set_member(c, "pageSize", JsonValue::unsigned(limit as u64))
    }
}

/// The relations page with the work package's parent/child relations added as
/// `hierarchy` when there are any. The page must be an object then.
pub fn with_hierarchy(page: JsonValue, hierarchy: Vec<JsonValue>) -> (r: JsonValue)
    requires
        hierarchy.len() > 0 ==> page.model() is Object,
    ensures
        r.model() == if hierarchy.len() > 0 {
            with_member(page.model(), "hierarchy"@, Json::Array(model_items(hierarchy@)))
        } else {
            page.model()
        },
{
    if hierarchy.len() > 0 {
        set_member(page, "hierarchy", JsonValue::Array(hierarchy))
    } else {
        page
    }
}

} // verus!
