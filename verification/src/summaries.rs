//! Compact views of API responses: task summaries, listing pages, item labels
//! and the parent/child relations of a work package.

use vstd::prelude::*;

use crate::json::{
    at_path, key_absent_before, key_views, lemma_key_index_is, lookup, lemma_model_entries, lemma_model_items, lemma_model_items_push, member,
    model_entries, model_items, object2, or_null, pointer, push_entry, str_of, u64_of, array_of,
    Json, JsonValue, Num,
};
use crate::text::{chars_of, decimal, decimal_chars, push_chars, push_str, string_of};

verus! {

/// A value or null.
pub open spec fn opt_json(o: Option<Json>) -> Json {
    match o {
        Some(j) => j,
        None => Json::Null,
    }
}

/// A string or null.
pub open spec fn opt_str_json(o: Option<Seq<char>>) -> Json {
    match o {
        Some(s) => Json::Str(s),
        None => Json::Null,
    }
}

/// The `title` of link `name` (`/_links/{name}/title`) when it is a string.
pub open spec fn link_title_of(v: Json, name: Seq<char>) -> Option<Seq<char>> {
    str_of(at_path(v, seq!["_links"@, name, "title"@]))
}

/// The `href` of link `name` (`/_links/{name}/href`) when it is a string.
pub open spec fn link_href_of(v: Json, name: Seq<char>) -> Option<Seq<char>> {
    str_of(at_path(v, seq!["_links"@, name, "href"@]))
}

/// The browser URL of a work package.
pub open spec fn task_url(host: Seq<char>, id: u64) -> Seq<char> {
    host + "/work_packages/"@ + decimal(id as nat)
}

/// The compact summary of a work package (members in key order).
pub open spec fn task_summary_of(task: Json, host: Seq<char>) -> Json {
    let id = u64_of(member(task, "id"@));
    Json::Object(
        seq![
            ("assignee"@, opt_str_json(link_title_of(task, "assignee"@))),
            ("dueDate"@, opt_json(member(task, "dueDate"@))),
            ("id"@, match id {
                Some(n) => Json::Number(Num::Unsigned(n)),
                None => Json::Null,
            }),
            ("percentageDone"@, opt_json(member(task, "percentageDone"@))),
            ("spentTime"@, opt_json(member(task, "spentTime"@))),
            ("startDate"@, opt_json(member(task, "startDate"@))),
            ("status"@, opt_str_json(link_title_of(task, "status"@))),
            ("subject"@, opt_json(member(task, "subject"@))),
            ("type"@, opt_str_json(link_title_of(task, "type"@))),
            ("url"@, match id {
                Some(n) => Json::Str(task_url(host, n)),
                None => Json::Null,
            }),
        ],
    )
}

/// `/_links/{name}/title` as a string.
pub fn link_title<'a>(v: &'a JsonValue, name: &str) -> (r: Option<&'a String>)
    ensures
        match r {
            Some(s) => link_title_of(v.model(), name@) == Some(s@),
            None => link_title_of(v.model(), name@) is None,
        },
{
    let keys = vec!["_links", name, "title"];
    assert(key_views(keys@) =~= seq!["_links"@, name@, "title"@]);
    match pointer(v, &keys) {
        Some(x) => x.as_str(),
        None => None,
    }
}

/// `/_links/{name}/href` as a string.
pub fn link_href<'a>(v: &'a JsonValue, name: &str) -> (r: Option<&'a String>)
    ensures
        match r {
            Some(s) => link_href_of(v.model(), name@) == Some(s@),
            None => link_href_of(v.model(), name@) is None,
        },
{
    let keys = vec!["_links", name, "href"];
    assert(key_views(keys@) =~= seq!["_links"@, name@, "href"@]);
    match pointer(v, &keys) {
        Some(x) => x.as_str(),
        None => None,
    }
}

fn str_or_null(s: Option<&String>) -> (r: JsonValue)
    ensures
        r.model() == opt_str_json(
            match s {
                Some(x) => Some(x@),
                None => None,
            },
        ),
{
    match s {
        Some(x) => JsonValue::String(x.clone()),
        None => JsonValue::Null,
    }
}

/// The compact summary of a work package: its ID, subject, status, type,
/// assignee, progress, dates and browser URL.
pub fn task_summary(task: &JsonValue, host: &str) -> (r: JsonValue)
    ensures
        r.model() == task_summary_of(task.model(), host@),
{
    let id = match task.get("id") {
        Some(x) => x.as_u64(),
        None => None,
    };
    assert(id == u64_of(member(task.model(), "id"@)));
    let mut es: Vec<(String, JsonValue)> = Vec::new();
    proof {
        lemma_model_entries(es@);
    }
    push_entry(&mut es, "assignee", str_or_null(link_title(task, "assignee")));
    push_entry(&mut es, "dueDate", or_null(task.get("dueDate")));
    push_entry(
        &mut es,
        "id",
        match id {
            Some(n) => JsonValue::unsigned(n),
            None => JsonValue::Null,
        },
    );
    push_entry(&mut es, "percentageDone", or_null(task.get("percentageDone")));
    push_entry(&mut es, "spentTime", or_null(task.get("spentTime")));
    push_entry(&mut es, "startDate", or_null(task.get("startDate")));
    push_entry(&mut es, "status", str_or_null(link_title(task, "status")));
    push_entry(&mut es, "subject", or_null(task.get("subject")));
    push_entry(&mut es, "type", str_or_null(link_title(task, "type")));
    let url = match id {
        Some(n) => {
            let mut u: Vec<char> = Vec::new();
            push_str(&mut u, host);
            push_str(&mut u, "/work_packages/");
            push_chars(&mut u, &decimal_chars(n));
            assert(u@ =~= task_url(host@, n));
            JsonValue::String(string_of(&u))
        },
        None => JsonValue::Null,
    };
    push_entry(&mut es, "url", url);
    assert(model_entries(es@) =~= task_summary_of(task.model(), host@)->Object_0);
    JsonValue::Object(es)
}

/// The summaries of the elements of a listing page (`/_embedded/elements`).
pub open spec fn page_items_of(page: Json, host: Seq<char>) -> Seq<Json> {
    match array_of(at_path(page, seq!["_embedded"@, "elements"@])) {
        Some(items) => items.map_values(|t: Json| task_summary_of(t, host)),
        None => Seq::empty(),
    }
}

/// A task listing page as items with paging data (members in key order).
pub open spec fn page_elements_of(page: Json, host: Seq<char>) -> Json {
    Json::Object(
        seq![
            ("count"@, opt_json(member(page, "count"@))),
            ("items"@, Json::Array(page_items_of(page, host))),
            ("next"@, opt_str_json(str_of(at_path(page, seq!["_links"@, "nextByOffset"@, "href"@])))),
            ("offset"@, opt_json(member(page, "offset"@))),
            ("pageSize"@, opt_json(member(page, "pageSize"@))),
            ("total"@, opt_json(member(page, "total"@))),
        ],
    )
}

/// A task listing page: the summary of each element, the paging counts and the
/// link to the next page.
pub fn page_elements(page: &JsonValue, host: &str) -> (r: JsonValue)
    ensures
        r.model() == page_elements_of(page.model(), host@),
{
    let ekeys = vec!["_embedded", "elements"];
    assert(key_views(ekeys@) =~= seq!["_embedded"@, "elements"@]);
    let mut items: Vec<JsonValue> = Vec::new();
    proof {
        lemma_model_items(items@);
    }
    match pointer(page, &ekeys) {
        Some(e) => match e.as_array() {
            Some(list) => {
                let ghost ms = model_items(list@);
                proof {
                    lemma_model_items(list@);
                }
                let mut i: usize = 0;
                while i < list.len()
                    invariant
                        i <= list.len(),
                        ms == model_items(list@),
                        ms.len() == list.len(),
                        forall|k: int| 0 <= k < list.len() ==> #[trigger] ms[k] == list@[k].model(),
                        model_items(items@) =~= ms.take(i as int).map_values(|t: Json| task_summary_of(t, host@)),
                    decreases list.len() - i,
                {
                    let t = task_summary(&list[i], host);
                    proof {
                        lemma_model_items_push(items@, t);
                    }
                    items.push(t);
                    i = i + 1;
                }
                assert(ms.take(list.len() as int) =~= ms);
            },
            None => {},
        },
        None => {},
    }
    assert(model_items(items@) =~= page_items_of(page.model(), host@));
    let nkeys = vec!["_links", "nextByOffset", "href"];
    assert(key_views(nkeys@) =~= seq!["_links"@, "nextByOffset"@, "href"@]);
    let next = match pointer(page, &nkeys) {
        Some(x) => str_or_null(x.as_str()),
        None => JsonValue::Null,
    };
    let mut es: Vec<(String, JsonValue)> = Vec::new();
    proof {
        lemma_model_entries(es@);
    }
    push_entry(&mut es, "count", or_null(page.get("count")));
    push_entry(&mut es, "items", JsonValue::Array(items));
    push_entry(&mut es, "next", next);
    push_entry(&mut es, "offset", or_null(page.get("offset")));
    push_entry(&mut es, "pageSize", or_null(page.get("pageSize")));
    push_entry(&mut es, "total", or_null(page.get("total")));
    assert(model_entries(es@) =~= page_elements_of(page.model(), host@)->Object_0);
    JsonValue::Object(es)
}

/// The first of `subject`, `name`, `title`, `/_links/self/title` and
/// `/comment/raw` that is present, when it is a string.
pub open spec fn item_label_of(item: Json) -> Option<Seq<char>> {
    let first = if member(item, "subject"@) is Some {
        member(item, "subject"@)
    } else if member(item, "name"@) is Some {
        member(item, "name"@)
    } else if member(item, "title"@) is Some {
        member(item, "title"@)
    } else if at_path(item, seq!["_links"@, "self"@, "title"@]) is Some {
        at_path(item, seq!["_links"@, "self"@, "title"@])
    } else {
        at_path(item, seq!["comment"@, "raw"@])
    };
    str_of(first)
}

/// The label of a listed item.
pub fn item_label(item: &JsonValue) -> (r: Option<&String>)
    ensures
        match r {
            Some(s) => item_label_of(item.model()) == Some(s@),
            None => item_label_of(item.model()) is None,
        },
{
    let k1 = vec!["_links", "self", "title"];
    let k2 = vec!["comment", "raw"];
    assert(key_views(k1@) =~= seq!["_links"@, "self"@, "title"@]);
    assert(key_views(k2@) =~= seq!["comment"@, "raw"@]);
    let first = match item.get("subject") {
        Some(x) => Some(x),
        None => match item.get("name") {
            Some(x) => Some(x),
            None => match item.get("title") {
                Some(x) => Some(x),
                None => match pointer(item, &k1) {
                    Some(x) => Some(x),
                    None => pointer(item, &k2),
                },
            },
        },
    };
    match first {
        Some(x) => x.as_str(),
        None => None,
    }
}

/// One parent/child relation (members in key order).
pub open spec fn hierarchy_json(name: Seq<char>, kind: Seq<char>, reverse: Seq<char>, from: Json, to: Json) -> Json {
    Json::Object(
        seq![
            ("_links"@, Json::Object(seq![("from"@, from), ("to"@, to)])),
            ("_type"@, Json::Str("HierarchyRelation"@)),
            ("name"@, Json::Str(name)),
            ("reverseType"@, Json::Str(reverse)),
            ("type"@, Json::Str(kind)),
        ],
    )
}

/// The parent relation (when the parent link has a non-empty `href`) and one
/// relation per child, all from the work package's `self` link; none without it.
pub open spec fn hierarchy_of(task: Json) -> Seq<Json> {
    match at_path(task, seq!["_links"@, "self"@]) {
        None => Seq::empty(),
        Some(wp) => {
            let parent = match at_path(task, seq!["_links"@, "parent"@]) {
                Some(p) => if str_of(member(p, "href"@)) matches Some(h) && h.len() > 0 {
                    seq![hierarchy_json("part of"@, "partof"@, "includes"@, wp, p)]
                } else {
                    Seq::empty()
                },
                None => Seq::empty(),
            };
            let children = match array_of(at_path(task, seq!["_links"@, "children"@])) {
                Some(cs) => cs.map_values(|c: Json| hierarchy_json("includes"@, "includes"@, "partof"@, wp, c)),
                None => Seq::empty(),
            };
            parent + children
        },
    }
}

fn hierarchy_value(name: &str, kind: &str, reverse: &str, from: &JsonValue, to: &JsonValue) -> (r: JsonValue)
    ensures
        r.model() == hierarchy_json(name@, kind@, reverse@, from.model(), to.model()),
{
    let mut es: Vec<(String, JsonValue)> = Vec::new();
    proof {
        lemma_model_entries(es@);
    }
    push_entry(&mut es, "_links", object2("from", from.copy(), "to", to.copy()));
    push_entry(&mut es, "_type", JsonValue::text("HierarchyRelation"));
    push_entry(&mut es, "name", JsonValue::text(name));
    push_entry(&mut es, "reverseType", JsonValue::text(reverse));
    push_entry(&mut es, "type", JsonValue::text(kind));
    assert(model_entries(es@) =~= hierarchy_json(name@, kind@, reverse@, from.model(), to.model())->Object_0);
    JsonValue::Object(es)
}

/// The parent and child relations of a work package.
pub fn hierarchy_relations(task: &JsonValue) -> (r: Vec<JsonValue>)
    ensures
        model_items(r@) == hierarchy_of(task.model()),
{
    let mut out: Vec<JsonValue> = Vec::new();
    proof {
        lemma_model_items(out@);
    }
    let sk = vec!["_links", "self"];
    assert(key_views(sk@) =~= seq!["_links"@, "self"@]);
    let wp = match pointer(task, &sk) {
        Some(w) => w,
        None => {
            assert(model_items(out@) =~= Seq::<Json>::empty());
            return out;
        },
    };
    let pk = vec!["_links", "parent"];
    assert(key_views(pk@) =~= seq!["_links"@, "parent"@]);
    match pointer(task, &pk) {
        Some(p) => {
            let has_href = match p.get("href") {
                Some(h) => match h.as_str() {
                    Some(t) => chars_of(t.as_str()).len() > 0,
                    None => false,
                },
                None => false,
            };
            if has_href {
                let rel = hierarchy_value("part of", "partof", "includes", wp, p);
                proof {
                    lemma_model_items_push(out@, rel);
                }
                out.push(rel);
            }
        },
        None => {},
    }
    let ghost parent_part = model_items(out@);
    let ck = vec!["_links", "children"];
    assert(key_views(ck@) =~= seq!["_links"@, "children"@]);
    match pointer(task, &ck) {
        Some(c) => match c.as_array() {
            Some(list) => {
                let ghost ms = model_items(list@);
                proof {
                    lemma_model_items(list@);
                }
                let mut i: usize = 0;
                while i < list.len()
                    invariant
                        i <= list.len(),
                        ms == model_items(list@),
                        ms.len() == list.len(),
                        forall|k: int| 0 <= k < list.len() ==> #[trigger] ms[k] == list@[k].model(),
                        model_items(out@) =~= parent_part + ms.take(i as int).map_values(
                            |c: Json| hierarchy_json("includes"@, "includes"@, "partof"@, wp.model(), c),
                        ),
                    decreases list.len() - i,
                {
                    let rel = hierarchy_value("includes", "includes", "partof", wp, &list[i]);
                    proof {
                        lemma_model_items_push(out@, rel);
                    }
                    out.push(rel);
                    i = i + 1;
                }
                assert(ms.take(list.len() as int) =~= ms);
            },
            None => {},
        },
        None => {},
    }
    assert(model_items(out@) =~= hierarchy_of(task.model()));
    out
}

proof fn lemma_summary_lookup(es: Seq<(Seq<char>, Json)>, i: int)
    requires
        0 <= i < es.len(),
        forall|j: int| 0 <= j < i ==> #[trigger] es[j].0 != es[i].0,
    ensures
        lookup(es, es[i].0) == Some(es[i].1),
{
    assert(key_absent_before(es, es[i].0, i));
    lemma_key_index_is(es, es[i].0, i);
}

proof fn lemma_summary_names_differ()
    ensures
        ({
            let ks = seq![
                "assignee"@, "dueDate"@, "id"@, "percentageDone"@, "spentTime"@, "startDate"@, "status"@,
                "subject"@, "type"@, "url"@,
            ];
            forall|a: int, b: int| 0 <= a < b < ks.len() ==> ks[a] != ks[b]
        }),
{
    reveal_strlit("assignee");
    reveal_strlit("dueDate");
    reveal_strlit("id");
    reveal_strlit("percentageDone");
    reveal_strlit("spentTime");
    reveal_strlit("startDate");
    reveal_strlit("status");
    reveal_strlit("subject");
    reveal_strlit("type");
    reveal_strlit("url");
    let ks = seq![
        "assignee"@, "dueDate"@, "id"@, "percentageDone"@, "spentTime"@, "startDate"@, "status"@,
        "subject"@, "type"@, "url"@,
    ];
    assert(ks[0][0] == 'a' && ks[1][0] == 'd' && ks[2][0] == 'i' && ks[3][0] == 'p' && ks[4][0] == 's');
    assert(ks[5][0] == 's' && ks[6][0] == 's' && ks[7][0] == 's' && ks[8][0] == 't' && ks[9][0] == 'u');
    assert(ks[4][1] == 'p' && ks[5][1] == 't' && ks[6][1] == 't' && ks[7][1] == 'u');
    assert(ks[5][2] == 'a' && ks[6][2] == 'a' && ks[5][3] == 'r' && ks[6][3] == 't');
}

/// A work package's summary copies the task's own members under the same
/// names (null where the task has none): subject, start and due dates,
/// percentage done and spent time; the numeric ID; the titles of its status,
/// type and assignee links; and the task's URL on the host.
pub proof fn law_task_summary_fields(task: Json, host: Seq<char>)
    ensures
        ({
            let s = task_summary_of(task, host);
            &&& member(s, "subject"@) == Some(match member(task, "subject"@) { Some(v) => v, None => Json::Null })
            &&& member(s, "startDate"@) == Some(match member(task, "startDate"@) { Some(v) => v, None => Json::Null })
            &&& member(s, "dueDate"@) == Some(match member(task, "dueDate"@) { Some(v) => v, None => Json::Null })
            &&& member(s, "percentageDone"@) == Some(match member(task, "percentageDone"@) { Some(v) => v, None => Json::Null })
            &&& member(s, "spentTime"@) == Some(match member(task, "spentTime"@) { Some(v) => v, None => Json::Null })
            &&& member(s, "id"@) == Some(match member(task, "id"@) {
                Some(Json::Number(Num::Unsigned(n))) => Json::Number(Num::Unsigned(n)),
                _ => Json::Null,
            })
            &&& member(s, "url"@) == Some(match member(task, "id"@) {
                Some(Json::Number(Num::Unsigned(n))) => Json::Str(host + "/work_packages/"@ + decimal(n as nat)),
                _ => Json::Null,
            })
            &&& member(s, "status"@) == Some(match at_path(task, seq!["_links"@, "status"@, "title"@]) {
                Some(Json::Str(t)) => Json::Str(t),
                _ => Json::Null,
            })
            &&& member(s, "type"@) == Some(match at_path(task, seq!["_links"@, "type"@, "title"@]) {
                Some(Json::Str(t)) => Json::Str(t),
                _ => Json::Null,
            })
            &&& member(s, "assignee"@) == Some(match at_path(task, seq!["_links"@, "assignee"@, "title"@]) {
                Some(Json::Str(t)) => Json::Str(t),
                _ => Json::Null,
            })
        }),
{
    lemma_summary_names_differ();
    let es = task_summary_of(task, host)->Object_0;
    let ks = seq![
        "assignee"@, "dueDate"@, "id"@, "percentageDone"@, "spentTime"@, "startDate"@, "status"@,
        "subject"@, "type"@, "url"@,
    ];
    assert forall|i: int| 0 <= i < 10 implies es[i].0 == ks[i] by {}
    assert forall|i: int| 0 <= i < 10 implies lookup(es, es[i].0) == Some(es[i].1) by {
        assert forall|j: int| 0 <= j < i implies #[trigger] es[j].0 != es[i].0 by {
            assert(ks[j] != ks[i]);
        }
        lemma_summary_lookup(es, i);
    }
    assert(lookup(es, es[1].0) == Some(es[1].1));
    assert(lookup(es, es[0].0) == Some(es[0].1));
    assert(lookup(es, es[2].0) == Some(es[2].1));
    assert(lookup(es, es[3].0) == Some(es[3].1));
    assert(lookup(es, es[4].0) == Some(es[4].1));
    assert(lookup(es, es[5].0) == Some(es[5].1));
    assert(lookup(es, es[6].0) == Some(es[6].1));
    assert(lookup(es, es[7].0) == Some(es[7].1));
    assert(lookup(es, es[8].0) == Some(es[8].1));
    assert(lookup(es, es[9].0) == Some(es[9].1));
}

proof fn lemma_page_names_differ()
    ensures
        ({
            let ks = seq!["count"@, "items"@, "next"@, "offset"@, "pageSize"@, "total"@];
            forall|a: int, b: int| 0 <= a < b < ks.len() ==> ks[a] != ks[b]
        }),
{
    reveal_strlit("count");
    reveal_strlit("items");
    reveal_strlit("next");
    reveal_strlit("offset");
    reveal_strlit("pageSize");
    reveal_strlit("total");
    let ks = seq!["count"@, "items"@, "next"@, "offset"@, "pageSize"@, "total"@];
    assert(ks[0][0] == 'c' && ks[1][0] == 'i' && ks[2][0] == 'n' && ks[3][0] == 'o' && ks[4][0] == 'p');
    assert(ks[5][0] == 't');
}

/// A listing page's summary has one item per element of the page, in order,
/// each that element's task summary (none when the page has no element list);
/// it copies the page's `total`, `count`, `offset` and `pageSize` (null where
/// absent) and gives the next page's link as `next` (null without one).
pub proof fn law_page_elements_fields(page: Json, host: Seq<char>)
    ensures
        ({
            let r = page_elements_of(page, host);
            &&& member(r, "total"@) == Some(match member(page, "total"@) { Some(v) => v, None => Json::Null })
            &&& member(r, "count"@) == Some(match member(page, "count"@) { Some(v) => v, None => Json::Null })
            &&& member(r, "offset"@) == Some(match member(page, "offset"@) { Some(v) => v, None => Json::Null })
            &&& member(r, "pageSize"@) == Some(match member(page, "pageSize"@) { Some(v) => v, None => Json::Null })
            &&& member(r, "next"@) == Some(match at_path(page, seq!["_links"@, "nextByOffset"@, "href"@]) {
                Some(Json::Str(h)) => Json::Str(h),
                _ => Json::Null,
            })
            &&& member(r, "items"@) matches Some(Json::Array(items)) && match at_path(page, seq!["_embedded"@, "elements"@]) {
                Some(Json::Array(es)) => items.len() == es.len() && forall|i: int|
                    0 <= i < es.len() ==> #[trigger] items[i] == task_summary_of(es[i], host),
                _ => items.len() == 0,
            }
        }),
{
    lemma_page_names_differ();
    let es = page_elements_of(page, host)->Object_0;
    let ks = seq!["count"@, "items"@, "next"@, "offset"@, "pageSize"@, "total"@];
    assert forall|i: int| 0 <= i < 6 implies es[i].0 == ks[i] by {}
    assert forall|i: int| 0 <= i < 6 implies lookup(es, es[i].0) == Some(es[i].1) by {
        assert forall|j: int| 0 <= j < i implies #[trigger] es[j].0 != es[i].0 by {
            assert(ks[j] != ks[i]);
        }
        lemma_summary_lookup(es, i);
    }
    assert(lookup(es, es[0].0) == Some(es[0].1));
    assert(lookup(es, es[1].0) == Some(es[1].1));
    assert(lookup(es, es[2].0) == Some(es[2].1));
    assert(lookup(es, es[3].0) == Some(es[3].1));
    assert(lookup(es, es[4].0) == Some(es[4].1));
    assert(lookup(es, es[5].0) == Some(es[5].1));
}

} // verus!
