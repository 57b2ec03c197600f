//! Removal of JSON nulls from request payloads.

use vstd::prelude::*;

use crate::json::{lemma_model_entries, lemma_model_items, model_entries, model_items, Json, JsonValue};

verus! {

/// A value with every null member and every null array item removed, at every depth.
pub open spec fn compacted(j: Json) -> Json
    decreases j,
{
    match j {
        Json::Array(items) => Json::Array(compacted_items(items)),
        Json::Object(es) => Json::Object(compacted_entries(es)),
        other => other,
    }
}

pub open spec fn compacted_items(items: Seq<Json>) -> Seq<Json>
    decreases items,
{
    if items.len() == 0 {
        Seq::empty()
    } else {
        let front = compacted_items(items.subrange(0, items.len() - 1));
        let last = items[items.len() - 1];
        if last is Null {
            front
        } else {
            front.push(compacted(last))
        }
    }
}

pub open spec fn compacted_entries(es: Seq<(Seq<char>, Json)>) -> Seq<(Seq<char>, Json)>
    decreases es,
{
    if es.len() == 0 {
        Seq::empty()
    } else {
        let front = compacted_entries(es.subrange(0, es.len() - 1));
        let last = es[es.len() - 1];
        proof {
            assert(decreases_to!(es => es[es.len() - 1]));
            assert(decreases_to!(es[es.len() - 1] => es[es.len() - 1].1));
        }
        if last.1 is Null {
            front
        } else {
            front.push((last.0, compacted(last.1)))
        }
    }
}

/// No object member and no array item is null, at any depth.
pub open spec fn null_free(j: Json) -> bool
    decreases j,
{
    match j {
        Json::Array(items) => items_null_free(items),
        Json::Object(es) => entries_null_free(es),
        _ => true,
    }
}

pub open spec fn items_null_free(items: Seq<Json>) -> bool
    decreases items,
{
    if items.len() == 0 {
        true
    } else {
        let last = items[items.len() - 1];
        items_null_free(items.subrange(0, items.len() - 1)) && !(last is Null) && null_free(last)
    }
}

pub open spec fn entries_null_free(es: Seq<(Seq<char>, Json)>) -> bool
    decreases es,
{
    if es.len() == 0 {
        true
    } else {
        let last = es[es.len() - 1];
        proof {
            assert(decreases_to!(es => es[es.len() - 1]));
            assert(decreases_to!(es[es.len() - 1] => es[es.len() - 1].1));
        }
        entries_null_free(es.subrange(0, es.len() - 1)) && !(last.1 is Null) && null_free(last.1)
    }
}

/// Compaction leaves no null member or item anywhere, and leaves a value
/// without nulls unchanged: compacting twice is compacting once.
pub proof fn law_compact_removes_every_null(j: Json)
    ensures
        null_free(compacted(j)),
        null_free(j) ==> compacted(j) == j,
        compacted(compacted(j)) == compacted(j),
    decreases j,
{
    match j {
        Json::Array(items) => {
            lemma_items(items);
        },
        Json::Object(es) => {
            lemma_entries(es);
        },
        _ => {},
    }
}

proof fn lemma_items(items: Seq<Json>)
    ensures
        items_null_free(compacted_items(items)),
        items_null_free(items) ==> compacted_items(items) == items,
        compacted_items(compacted_items(items)) == compacted_items(items),
    decreases items,
{
    if items.len() > 0 {
        let front = items.subrange(0, items.len() - 1);
        let last = items[items.len() - 1];
        lemma_items(front);
        law_compact_removes_every_null(last);
        let cf = compacted_items(front);
        if !(last is Null) {
            let c = cf.push(compacted(last));
            assert(c.subrange(0, c.len() - 1) =~= cf);
            assert(!(compacted(last) is Null));
            if items_null_free(items) {
                assert(cf.push(last) =~= items);
            }
        }
    }
}

proof fn lemma_entries(es: Seq<(Seq<char>, Json)>)
    ensures
        entries_null_free(compacted_entries(es)),
        entries_null_free(es) ==> compacted_entries(es) == es,
        compacted_entries(compacted_entries(es)) == compacted_entries(es),
    decreases es,
{
    if es.len() > 0 {
        let front = es.subrange(0, es.len() - 1);
        let last = es[es.len() - 1];
        assert(decreases_to!(es => es[es.len() - 1]));
        assert(decreases_to!(es[es.len() - 1] => es[es.len() - 1].1));
        lemma_entries(front);
        law_compact_removes_every_null(last.1);
        let cf = compacted_entries(front);
        if !(last.1 is Null) {
            let c = cf.push((last.0, compacted(last.1)));
            assert(c.subrange(0, c.len() - 1) =~= cf);
            assert(!(compacted(last.1) is Null));
            if entries_null_free(es) {
                assert(cf.push(last) =~= es);
            }
        }
    }
}

/// A copy of `v` with every null member and array item removed, at every depth.
pub fn compact_copy(v: &JsonValue) -> (r: JsonValue)
    ensures
        r.model() == compacted(v.model()),
    decreases v,
{
    match v {
        JsonValue::Array(items) => {
            let ghost ms = model_items(items@);
            proof {
                lemma_model_items(items@);
            }
            let mut out: Vec<JsonValue> = Vec::new();
            let mut i: usize = 0;
            assert(ms.take(0) =~= Seq::<Json>::empty());
            while i < items.len()
                invariant
                    *v == JsonValue::Array(*items),
                    i <= items.len(),
                    ms == model_items(items@),
                    ms.len() == items.len(),
                    forall|k: int| 0 <= k < items.len() ==> #[trigger] ms[k] == items@[k].model(),
                    model_items(out@) == compacted_items(ms.take(i as int)),
                decreases items.len() - i,
            {
                proof {
                    assert(decreases_to!(*v => (*v)->Array_0));
                    assert(decreases_to!(*items => items@));
                    assert(decreases_to!(items@ => items@[i as int]));
                    let t = ms.take(i + 1);
                    assert(t.subrange(0, t.len() - 1) =~= ms.take(i as int));
                }
                if !items[i].is_null() {
                    let c = compact_copy(&items[i]);
                    proof {
                        crate::json::lemma_model_items_push(out@, c);
                    }
                    out.push(c);
                }
                i = i + 1;
            }
            assert(ms.take(items.len() as int) =~= ms);
            JsonValue::Array(out)
        },
        JsonValue::Object(entries) => {
            let ghost ms = model_entries(entries@);
            proof {
                lemma_model_entries(entries@);
            }
            let mut out: Vec<(String, JsonValue)> = Vec::new();
            let mut i: usize = 0;
            assert(ms.take(0) =~= Seq::<(Seq<char>, Json)>::empty());
            while i < entries.len()
                invariant
                    *v == JsonValue::Object(*entries),
                    i <= entries.len(),
                    ms == model_entries(entries@),
                    ms.len() == entries.len(),
                    forall|k: int| 0 <= k < entries.len() ==> #[trigger] ms[k] == (entries@[k].0@, entries@[k].1.model()),
                    model_entries(out@) == compacted_entries(ms.take(i as int)),
                decreases entries.len() - i,
            {
                proof {
                    assert(decreases_to!(*v => (*v)->Object_0));
                    assert(decreases_to!(*entries => entries@));
                    assert(decreases_to!(entries@ => entries@[i as int]));
                    assert(decreases_to!(entries@[i as int] => entries@[i as int].1));
                    let t = ms.take(i + 1);
                    assert(t.subrange(0, t.len() - 1) =~= ms.take(i as int));
                }
                if !entries[i].1.is_null() {
                    let c = compact_copy(&entries[i].1);
                    let k = entries[i].0.clone();
                    proof {
                        crate::json::lemma_model_entries_push(out@, (k, c));
                    }
                    out.push((k, c));
                }
                i = i + 1;
            }
            assert(ms.take(entries.len() as int) =~= ms);
            JsonValue::Object(out)
        },
        _ => v.copy(),
    }
}

/// `v` with every null member and array item removed, at every depth.
pub fn compact(v: JsonValue) -> (r: JsonValue)
    ensures
        r.model() == compacted(v.model()),
{
    compact_copy(&v)
}

} // verus!
