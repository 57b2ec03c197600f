//! A JSON document model: the executable tree `JsonValue` and its
//! mathematical view `Json`.

use vstd::prelude::*;

verus! {

/// A JSON number as the client sees it: a non-negative integer, a negative
/// integer, or any other number kept as its text.
#[derive(Debug, PartialEq)]
pub enum JsonNumber {
    Unsigned(u64),
    Negative(i64),
    Other(String),
}

/// The view of a `JsonNumber`.
pub enum Num {
    Unsigned(u64),
    Negative(i64),
    Other(Seq<char>),
}

/// An executable JSON tree. Objects keep their entries in order; keys are unique.
#[derive(Debug, PartialEq)]
pub enum JsonValue {
    Null,
    Bool(bool),
    Number(JsonNumber),
    String(String),
    Array(Vec<JsonValue>),
    Object(Vec<(String, JsonValue)>),
}

/// The mathematical view of a JSON tree.
pub enum Json {
    Null,
    Bool(bool),
    Number(Num),
    Str(Seq<char>),
    Array(Seq<Json>),
    Object(Seq<(Seq<char>, Json)>),
}

impl JsonNumber {
    pub open spec fn model(&self) -> Num {
        match self {
            JsonNumber::Unsigned(n) => Num::Unsigned(*n),
            JsonNumber::Negative(n) => Num::Negative(*n),
            JsonNumber::Other(s) => Num::Other(s@),
        }
    }
}

pub open spec fn model_items(items: Seq<JsonValue>) -> Seq<Json>
    decreases items,
{
    if items.len() == 0 {
        Seq::empty()
    } else {
        model_items(items.subrange(0, items.len() - 1)).push(items[items.len() - 1].model())
    }
}

pub open spec fn model_entries(entries: Seq<(String, JsonValue)>) -> Seq<(Seq<char>, Json)>
    decreases entries,
{
    if entries.len() == 0 {
        Seq::empty()
    } else {
        model_entries(entries.subrange(0, entries.len() - 1)).push(
            (entries[entries.len() - 1].0@, entries[entries.len() - 1].1.model()),
        )
    }
}

impl JsonValue {
    pub open spec fn model(&self) -> Json
        decreases self,
    {
        match self {
            JsonValue::Null => Json::Null,
            JsonValue::Bool(b) => Json::Bool(*b),
            JsonValue::Number(n) => Json::Number(n.model()),
            JsonValue::String(s) => Json::Str(s@),
            JsonValue::Array(items) => Json::Array(model_items(items@)),
            JsonValue::Object(entries) => Json::Object(model_entries(entries@)),
        }
    }
}


/// Index of the first entry whose key is `key`.
pub open spec fn key_index(es: Seq<(Seq<char>, Json)>, key: Seq<char>) -> Option<int> {
    if exists|i: int| 0 <= i < es.len() && es[i].0 == key && key_absent_before(es, key, i) {
        Some(choose|i: int| 0 <= i < es.len() && es[i].0 == key && key_absent_before(es, key, i))
    } else {
        None
    }
}

pub open spec fn key_absent_before(es: Seq<(Seq<char>, Json)>, key: Seq<char>, i: int) -> bool {
    forall|j: int| 0 <= j < i ==> #[trigger] es[j].0 != key
}

/// The value stored under `key` in an object's entries.
pub open spec fn lookup(es: Seq<(Seq<char>, Json)>, key: Seq<char>) -> Option<Json> {
    match key_index(es, key) {
        Some(i) => Some(es[i].1),
        None => None,
    }
}

/// Member `key` of an object; nothing for any other value (`Value::get`).
pub open spec fn member(j: Json, key: Seq<char>) -> Option<Json> {
    match j {
        Json::Object(es) => lookup(es, key),
        _ => None,
    }
}

/// Member lookup along a path of keys (`Value::pointer` over object keys).
pub open spec fn at_path(j: Json, path: Seq<Seq<char>>) -> Option<Json>
    decreases path.len(),
{
    if path.len() == 0 {
        Some(j)
    } else {
        match member(j, path[0]) {
            Some(next) => at_path(next, path.drop_first()),
            None => None,
        }
    }
}

/// `Value::as_str`.
pub open spec fn str_of(j: Option<Json>) -> Option<Seq<char>> {
    match j {
        Some(Json::Str(s)) => Some(s),
        _ => None,
    }
}

/// `Value::as_u64`.
pub open spec fn u64_of(j: Option<Json>) -> Option<u64> {
    match j {
        Some(Json::Number(Num::Unsigned(n))) => Some(n),
        _ => None,
    }
}

/// `Value::as_array`.
pub open spec fn array_of(j: Option<Json>) -> Option<Seq<Json>> {
    match j {
        Some(Json::Array(items)) => Some(items),
        _ => None,
    }
}

/// `Value::is_null`.
pub open spec fn is_null(j: Json) -> bool {
    j is Null
}

/// No key occurs twice.
pub open spec fn keys_unique(es: Seq<(Seq<char>, Json)>) -> bool {
    forall|i: int, j: int| 0 <= i < es.len() && 0 <= j < es.len() && i != j ==> es[i].0 != es[j].0
}

/// Entries after `Map::insert`: the value of an existing key is replaced in place,
/// a new key is added.
pub open spec fn entries_insert(es: Seq<(Seq<char>, Json)>, key: Seq<char>, value: Json) -> Seq<
    (Seq<char>, Json),
> {
    match key_index(es, key) {
        Some(i) => es.update(i, (key, value)),
        None => es.push((key, value)),
    }
}

/// Entries after `Map::remove`.
pub open spec fn entries_remove(es: Seq<(Seq<char>, Json)>, key: Seq<char>) -> Seq<
    (Seq<char>, Json),
> {
    match key_index(es, key) {
        Some(i) => es.remove(i),
        None => es,
    }
}

pub proof fn lemma_model_items(items: Seq<JsonValue>)
    ensures
        model_items(items).len() == items.len(),
        forall|i: int| 0 <= i < items.len() ==> #[trigger] model_items(items)[i] == items[i].model(),
    decreases items.len(),
{
    if items.len() > 0 {
        let front = items.subrange(0, items.len() - 1);
        lemma_model_items(front);
        assert forall|i: int| 0 <= i < items.len() implies #[trigger] model_items(items)[i]
            == items[i].model() by {
            if i < items.len() - 1 {
                assert(front[i] == items[i]);
            }
        }
    }
}

pub proof fn lemma_model_entries(es: Seq<(String, JsonValue)>)
    ensures
        model_entries(es).len() == es.len(),
        forall|i: int|
            0 <= i < es.len() ==> #[trigger] model_entries(es)[i] == (es[i].0@, es[i].1.model()),
    decreases es.len(),
{
    if es.len() > 0 {
        let front = es.subrange(0, es.len() - 1);
        lemma_model_entries(front);
        assert forall|i: int| 0 <= i < es.len() implies #[trigger] model_entries(es)[i] == (
            es[i].0@,
            es[i].1.model(),
        ) by {
            if i < es.len() - 1 {
                assert(front[i] == es[i]);
            }
        }
    }
}

/// Two item sequences with pointwise equal models have equal models.
pub proof fn lemma_model_items_ext(a: Seq<JsonValue>, b: Seq<JsonValue>)
    requires
        a.len() == b.len(),
        forall|i: int| 0 <= i < a.len() ==> #[trigger] a[i].model() == b[i].model(),
    ensures
        model_items(a) == model_items(b),
{
    lemma_model_items(a);
    lemma_model_items(b);
    assert(model_items(a) =~= model_items(b));
}

pub proof fn lemma_model_entries_ext(a: Seq<(String, JsonValue)>, b: Seq<(String, JsonValue)>)
    requires
        a.len() == b.len(),
        forall|i: int| 0 <= i < a.len() ==> (#[trigger] a[i]).0@ == b[i].0@,
        forall|i: int| 0 <= i < a.len() ==> (#[trigger] a[i]).1.model() == b[i].1.model(),
    ensures
        model_entries(a) == model_entries(b),
{
    lemma_model_entries(a);
    lemma_model_entries(b);
    assert(model_entries(a) =~= model_entries(b));
}

impl JsonNumber {
    pub fn copy(&self) -> (r: JsonNumber)
        ensures
            r.model() == self.model(),
    {
        match self {
            JsonNumber::Unsigned(n) => JsonNumber::Unsigned(*n),
            JsonNumber::Negative(n) => JsonNumber::Negative(*n),
            JsonNumber::Other(s) => JsonNumber::Other(s.clone()),
        }
    }
}

impl JsonValue {
    /// A deep copy.
    pub fn copy(&self) -> (r: JsonValue)
        ensures
            r.model() == self.model(),
        decreases self,
    {
        match self {
            JsonValue::Null => JsonValue::Null,
            JsonValue::Bool(b) => JsonValue::Bool(*b),
            JsonValue::Number(n) => JsonValue::Number(n.copy()),
            JsonValue::String(s) => JsonValue::String(s.clone()),
            JsonValue::Array(items) => {
                let mut out: Vec<JsonValue> = Vec::new();
                let mut i: usize = 0;
                while i < items.len()
                    invariant
                        *self == JsonValue::Array(*items),
                        i <= items.len(),
                        out.len() == i,
                        forall|j: int| 0 <= j < i ==> #[trigger] out@[j].model() == items@[j].model(),
                    decreases items.len() - i,
                {
                    proof {
                        assert(*self == JsonValue::Array(*items));
                        assert(decreases_to!(*self => (*self)->Array_0));
                        assert(decreases_to!(*items => items@));
                        assert(decreases_to!(items@ => items@[i as int]));
                    }
                    let c = items[i].copy();
                    out.push(c);
                    i = i + 1;
                }
                proof {
                    lemma_model_items_ext(out@, items@);
                }
                JsonValue::Array(out)
            },
            JsonValue::Object(entries) => {
                let mut out: Vec<(String, JsonValue)> = Vec::new();
                let mut i: usize = 0;
                while i < entries.len()
                    invariant
                        *self == JsonValue::Object(*entries),
                        i <= entries.len(),
                        out.len() == i,
                        forall|j: int| 0 <= j < i ==> (#[trigger] out@[j]).0@ == entries@[j].0@,
                        forall|j: int| 0 <= j < i ==> (#[trigger] out@[j]).1.model() == entries@[j].1.model(),
                    decreases entries.len() - i,
                {
                    proof {
                        assert(*self == JsonValue::Object(*entries));
                        assert(decreases_to!(*self => (*self)->Object_0));
                        assert(decreases_to!(*entries => entries@));
                        assert(decreases_to!(entries@ => entries@[i as int]));
                        assert(decreases_to!(entries@[i as int] => entries@[i as int].1));
                    }
                    let k = entries[i].0.clone();
                    let v = entries[i].1.copy();
                    out.push((k, v));
                    i = i + 1;
                }
                proof {
                    lemma_model_entries_ext(out@, entries@);
                }
                JsonValue::Object(out)
            },
        }
    }

    /// `Value::get` with a key.
    pub fn get<'a>(&'a self, key: &str) -> (r: Option<&'a JsonValue>)
        ensures
            match r {
                Some(v) => member(self.model(), key@) == Some(v.model()),
                None => member(self.model(), key@) is None,
            },
    {
        match self {
            JsonValue::Object(entries) => {
                let r = entries_get(entries, key);
                r
            },
            _ => None,
        }
    }

    /// `Value::as_str`.
    pub fn as_str(&self) -> (r: Option<&String>)
        ensures
            match r {
                Some(s) => str_of(Some(self.model())) == Some(s@),
                None => str_of(Some(self.model())) is None,
            },
    {
        match self {
            JsonValue::String(s) => Some(s),
            _ => None,
        }
    }

    /// `Value::as_u64`.
    pub fn as_u64(&self) -> (r: Option<u64>)
        ensures
            r == u64_of(Some(self.model())),
    {
        match self {
            JsonValue::Number(JsonNumber::Unsigned(n)) => Some(*n),
            _ => None,
        }
    }

    /// `Value::as_array`.
    pub fn as_array(&self) -> (r: Option<&Vec<JsonValue>>)
        ensures
            match r {
                Some(items) => array_of(Some(self.model())) == Some(model_items(items@)),
                None => array_of(Some(self.model())) is None,
            },
    {
        match self {
            JsonValue::Array(items) => Some(items),
            _ => None,
        }
    }

    /// `Value::is_null`.
    pub fn is_null(&self) -> (r: bool)
        ensures
            r == is_null(self.model()),
    {
        match self {
            JsonValue::Null => true,
            _ => false,
        }
    }

    /// A JSON string.
    pub fn text(s: &str) -> (r: JsonValue)
        ensures
            r.model() == Json::Str(s@),
    {
        JsonValue::String(s.to_owned())
    }

    /// A JSON non-negative integer.
    pub fn unsigned(n: u64) -> (r: JsonValue)
        ensures
            r.model() == Json::Number(Num::Unsigned(n)),
    {
        JsonValue::Number(JsonNumber::Unsigned(n))
    }
}

/// Index of the first entry with key `key`, in executable form.
pub fn entry_position(entries: &Vec<(String, JsonValue)>, key: &str) -> (r: Option<usize>)
    ensures
        match r {
            Some(i) => i < entries.len() && key_index(model_entries(entries@), key@) == Some(
                i as int,
            ),
            None => key_index(model_entries(entries@), key@) is None,
        },
{
    proof {
        lemma_model_entries(entries@);
    }
    let ghost es = model_entries(entries@);
    let mut i: usize = 0;
    while i < entries.len()
        invariant
            i <= entries.len(),
            es == model_entries(entries@),
            es.len() == entries.len(),
            forall|j: int| 0 <= j < entries.len() ==> #[trigger] es[j] == (entries@[j].0@, entries@[j].1.model()),
            key_absent_before(es, key@, i as int),
        decreases entries.len() - i,
    {
        if crate::text::str_eq(entries[i].0.as_str(), key) {
            proof {
                assert(es[i as int].0 == key@);
                let w = choose|k: int| 0 <= k < es.len() && es[k].0 == key@ && key_absent_before(es, key@, k);
                if w < i {
                    assert(es[w].0 != key@);
                } else if w > i {
                    assert(es[i as int].0 != key@);
                }
            }
            return Some(i);
        }
        proof {
            assert(es[i as int].0 != key@);
            assert forall|j: int| 0 <= j < i + 1 implies #[trigger] es[j].0 != key@ by {
                if j < i {
                }
            }
        }
        i = i + 1;
    }
    None
}

/// `Map::get`.
pub fn entries_get<'a>(entries: &'a Vec<(String, JsonValue)>, key: &str) -> (r: Option<&'a JsonValue>)
    ensures
        match r {
            Some(v) => lookup(model_entries(entries@), key@) == Some(v.model()),
            None => lookup(model_entries(entries@), key@) is None,
        },
{
    proof {
        lemma_model_entries(entries@);
    }
    match entry_position(entries, key) {
        Some(i) => Some(&entries[i].1),
        None => None,
    }
}


pub proof fn lemma_model_entries_update(es: Seq<(String, JsonValue)>, i: int, e: (String, JsonValue))
    requires
        0 <= i < es.len(),
    ensures
        model_entries(es.update(i, e)) == model_entries(es).update(i, (e.0@, e.1.model())),
{
    lemma_model_entries(es);
    lemma_model_entries(es.update(i, e));
    assert(model_entries(es.update(i, e)) =~= model_entries(es).update(i, (e.0@, e.1.model())));
}

pub proof fn lemma_model_entries_push(es: Seq<(String, JsonValue)>, e: (String, JsonValue))
    ensures
        model_entries(es.push(e)) == model_entries(es).push((e.0@, e.1.model())),
{
    lemma_model_entries(es);
    lemma_model_entries(es.push(e));
    assert(model_entries(es.push(e)) =~= model_entries(es).push((e.0@, e.1.model())));
}

pub proof fn lemma_model_entries_remove(es: Seq<(String, JsonValue)>, i: int)
    requires
        0 <= i < es.len(),
    ensures
        model_entries(es.remove(i)) == model_entries(es).remove(i),
{
    lemma_model_entries(es);
    lemma_model_entries(es.remove(i));
    assert(model_entries(es.remove(i)) =~= model_entries(es).remove(i));
}

pub proof fn lemma_model_items_push(items: Seq<JsonValue>, x: JsonValue)
    ensures
        model_items(items.push(x)) == model_items(items).push(x.model()),
{
    lemma_model_items(items);
    lemma_model_items(items.push(x));
    assert(model_items(items.push(x)) =~= model_items(items).push(x.model()));
}

/// `Map::insert` on an object's entries.
pub fn object_insert(entries: &mut Vec<(String, JsonValue)>, key: String, value: JsonValue)
    ensures
        model_entries(final(entries)@) == entries_insert(model_entries(old(entries)@), key@, value.model()),
{
    let ghost v = value.model();
    let ghost k = key@;
    match entry_position(entries, key.as_str()) {
        Some(i) => {
            proof {
                lemma_model_entries_update(entries@, i as int, (key, value));
            }
            entries.set(i, (key, value));
        },
        None => {
            proof {
                lemma_model_entries_push(entries@, (key, value));
            }
            entries.push((key, value));
        },
    }
}

/// `Map::remove` on an object's entries; whether the key was there.
pub fn object_remove(entries: &mut Vec<(String, JsonValue)>, key: &str) -> (r: bool)
    ensures
        model_entries(final(entries)@) == entries_remove(model_entries(old(entries)@), key@),
        r == key_index(model_entries(old(entries)@), key@) is Some,
{
    match entry_position(entries, key) {
        Some(i) => {
            proof {
                lemma_model_entries_remove(entries@, i as int);
            }
            entries.remove(i);
            true
        },
        None => false,
    }
}

/// An object with one member.
pub fn object1(k: &str, v: JsonValue) -> (r: JsonValue)
    ensures
        r.model() == Json::Object(seq![(k@, v.model())]),
{
    let mut es: Vec<(String, JsonValue)> = Vec::new();
    let e = (k.to_owned(), v);
    proof {
        lemma_model_entries_push(es@, e);
        lemma_model_entries(es@);
    }
    es.push(e);
    assert(model_entries(es@) =~= seq![(k@, v.model())]);
    JsonValue::Object(es)
}

/// An object with two members, in the given order.
pub fn object2(k1: &str, v1: JsonValue, k2: &str, v2: JsonValue) -> (r: JsonValue)
    ensures
        r.model() == Json::Object(seq![(k1@, v1.model()), (k2@, v2.model())]),
{
    let mut es: Vec<(String, JsonValue)> = Vec::new();
    let e1 = (k1.to_owned(), v1);
    let e2 = (k2.to_owned(), v2);
    proof {
        lemma_model_entries(es@);
        lemma_model_entries_push(es@, e1);
        lemma_model_entries_push(es@.push(e1), e2);
    }
    es.push(e1);
    es.push(e2);
    assert(model_entries(es@) =~= seq![(k1@, v1.model()), (k2@, v2.model())]);
    JsonValue::Object(es)
}

/// An array of the given items.
pub fn array_value(items: Vec<JsonValue>) -> (r: JsonValue)
    ensures
        r.model() == Json::Array(model_items(items@)),
{
    JsonValue::Array(items)
}

/// An array of one item.
pub fn array1(v: JsonValue) -> (r: JsonValue)
    ensures
        r.model() == Json::Array(seq![v.model()]),
{
    let mut items: Vec<JsonValue> = Vec::new();
    proof {
        lemma_model_items(items@);
        lemma_model_items_push(items@, v);
    }
    items.push(v);
    assert(model_items(items@) =~= seq![v.model()]);
    JsonValue::Array(items)
}

pub open spec fn key_views(keys: Seq<&str>) -> Seq<Seq<char>> {
    keys.map_values(|k: &str| k@)
}

/// `Value::pointer` with a path of object keys.
pub fn pointer<'a>(v: &'a JsonValue, keys: &Vec<&str>) -> (r: Option<&'a JsonValue>)
    ensures
        match r {
            Some(x) => at_path(v.model(), key_views(keys@)) == Some(x.model()),
            None => at_path(v.model(), key_views(keys@)) is None,
        },
{
    let ghost ks = key_views(keys@);
    let mut cur = v;
    let mut i: usize = 0;
    assert(ks.skip(0) =~= ks);
    while i < keys.len()
        invariant
            i <= keys.len(),
            ks == key_views(keys@),
            at_path(v.model(), ks) == at_path(cur.model(), ks.skip(i as int)),
        decreases keys.len() - i,
    {
        assert(ks.skip(i as int)[0] == keys@[i as int]@);
        assert(ks.skip(i as int).drop_first() =~= ks.skip(i + 1));
        match cur.get(keys[i]) {
            Some(next) => {
                cur = next;
            },
            None => {
                return None;
            },
        }
        i = i + 1;
    }
    assert(ks.skip(keys.len() as int) =~= Seq::<Seq<char>>::empty());
    Some(cur)
}

/// Appends a member to an object's entries (the key must be new).
pub fn push_entry(es: &mut Vec<(String, JsonValue)>, k: &str, v: JsonValue)
    ensures
        model_entries(final(es)@) == model_entries(old(es)@).push((k@, v.model())),
{
    let e = (k.to_owned(), v);
    proof {
        lemma_model_entries_push(es@, e);
    }
    es.push(e);
}

/// A value, or null.
pub fn or_null(v: Option<&JsonValue>) -> (r: JsonValue)
    ensures
        r.model() == match v {
            Some(x) => x.model(),
            None => Json::Null,
        },
{
    match v {
        Some(x) => x.copy(),
        None => JsonValue::Null,
    }
}

/// `key_index` finds the first entry with the key, and only that.
pub proof fn lemma_key_index(es: Seq<(Seq<char>, Json)>, key: Seq<char>)
    ensures
        match key_index(es, key) {
            Some(i) => 0 <= i < es.len() && es[i].0 == key && key_absent_before(es, key, i),
            None => forall|j: int| 0 <= j < es.len() ==> es[j].0 != key,
        },
{
    if key_index(es, key) is None {
        assert forall|j: int| 0 <= j < es.len() implies es[j].0 != key by {
            if es[j].0 == key {
                lemma_key_found(es, key, j);
            }
        }
    }
}

/// An entry with the key makes `key_index` find one.
pub proof fn lemma_key_found(es: Seq<(Seq<char>, Json)>, key: Seq<char>, i: int)
    requires
        0 <= i < es.len(),
        es[i].0 == key,
    ensures
        key_index(es, key) is Some,
    decreases i,
{
    if key_absent_before(es, key, i) {
        assert(0 <= i < es.len() && es[i].0 == key && key_absent_before(es, key, i));
    } else {
        let j = choose|j: int| 0 <= j < i && es[j].0 == key;
        lemma_key_found(es, key, j);
    }
}

/// The first entry with the key is the one `key_index` finds.
pub proof fn lemma_key_index_is(es: Seq<(Seq<char>, Json)>, key: Seq<char>, i: int)
    requires
        0 <= i < es.len(),
        es[i].0 == key,
        key_absent_before(es, key, i),
    ensures
        key_index(es, key) == Some(i),
{
    lemma_key_found(es, key, i);
    lemma_key_index(es, key);
    let k = key_index(es, key)->Some_0;
    if k < i {
        assert(es[k].0 != key);
    } else if k > i {
        assert(es[i].0 != key);
    }
}

/// A member reads back what was just inserted under its key.
pub proof fn law_lookup_after_insert(es: Seq<(Seq<char>, Json)>, key: Seq<char>, value: Json, other: Seq<char>)
    ensures
        lookup(entries_insert(es, key, value), key) == Some(value),
        other != key ==> lookup(entries_insert(es, key, value), other) == lookup(es, other),
{
    lemma_key_index(es, key);
    lemma_key_index(es, other);
    let ins = entries_insert(es, key, value);
    match key_index(es, key) {
        Some(i) => {
            assert(key_absent_before(ins, key, i));
            lemma_key_index_is(ins, key, i);
            if other != key {
                match key_index(es, other) {
                    Some(j) => {
                        assert(j != i);
                        assert(key_absent_before(ins, other, j));
                        lemma_key_index_is(ins, other, j);
                    },
                    None => {
                        lemma_key_index(ins, other);
                        if key_index(ins, other) is Some {
                            let j = key_index(ins, other)->Some_0;
                            assert(ins[j].0 == es[j].0);
                        }
                    },
                }
            }
        },
        None => {
            assert(key_absent_before(ins, key, es.len() as int));
            lemma_key_index_is(ins, key, es.len() as int);
            if other != key {
                match key_index(es, other) {
                    Some(j) => {
                        assert(key_absent_before(ins, other, j));
                        lemma_key_index_is(ins, other, j);
                    },
                    None => {
                        lemma_key_index(ins, other);
                        if key_index(ins, other) is Some {
                            let j = key_index(ins, other)->Some_0;
                            if j < es.len() {
                                assert(ins[j].0 == es[j].0);
                            }
                        }
                    },
                }
            }
        },
    }
}

/// After a removal the key is gone (keys being unique) and other members are
/// unchanged.
pub proof fn law_lookup_after_remove(es: Seq<(Seq<char>, Json)>, key: Seq<char>, other: Seq<char>)
    requires
        keys_unique(es),
    ensures
        lookup(entries_remove(es, key), key) is None,
        other != key ==> lookup(entries_remove(es, key), other) == lookup(es, other),
{
    lemma_key_index(es, key);
    lemma_key_index(es, other);
    let rem = entries_remove(es, key);
    match key_index(es, key) {
        Some(i) => {
            lemma_key_index(rem, key);
            if key_index(rem, key) is Some {
                let j = key_index(rem, key)->Some_0;
                if j < i {
                    assert(rem[j] == es[j]);
                } else {
                    assert(rem[j] == es[j + 1]);
                }
            }
            if other != key {
                match key_index(es, other) {
                    Some(j) => {
                        if j < i {
                            assert(rem[j] == es[j]);
                            assert(key_absent_before(rem, other, j));
                            lemma_key_index_is(rem, other, j);
                        } else {
                            assert(j != i);
                            assert(rem[j - 1] == es[j]);
                            assert forall|m: int| 0 <= m < j - 1 implies #[trigger] rem[m].0 != other by {
                                if m < i {
                                    assert(rem[m] == es[m]);
                                } else {
                                    assert(rem[m] == es[m + 1]);
                                }
                            }
                            lemma_key_index_is(rem, other, j - 1);
                        }
                    },
                    None => {
                        lemma_key_index(rem, other);
                        if key_index(rem, other) is Some {
                            let j = key_index(rem, other)->Some_0;
                            if j < i {
                                assert(rem[j] == es[j]);
                            } else {
                                assert(rem[j] == es[j + 1]);
                            }
                        }
                    },
                }
            }
        },
        None => {},
    }
}

} // verus!
