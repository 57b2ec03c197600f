//! Work package requests: custom field operations, list filters and sorting,
//! request paths, relations, time-entry activities and compact summaries.

use vstd::prelude::*;

use crate::config::Settings;
use crate::error::{outcome, CliError, ErrorKind, Failure};
use crate::json::{
    entry_position, key_index, lemma_model_entries, lemma_model_entries_push, lemma_model_items,
    lemma_model_items_push, model_entries, model_items, Json, JsonNumber, JsonValue, Num,
};
use crate::outside::{
    append_form_pair, date_parse_error, form_pair, json_parse_model, json_string_model,
    json_to_string, naive_date_check, parse_json, u32_parse_error, u32_parse_failure,
};
use crate::json::{array1, array_value, object1, object2};
use crate::projects::string_views;
use crate::text::{
    all_digits, chars_eq, chars_of, digits_value, ends_with, lower_seq, lowercase,
    parse_unsigned, parse_unsigned_chars, slice_chars, split_at_char, split_once, starts_with,
    string_of,
};

verus! {

/// A `customFieldN` property name with `N` a positive `u64`.
pub open spec fn custom_field_key_ok(value: Seq<char>) -> bool {
    &&& starts_with(value, "customField"@)
    &&& {
        let n = value.skip("customField"@.len() as int);
        n.len() > 0 && all_digits(n) && 0 < digits_value(n) && digits_value(n) <= u64::MAX
    }
}

/// Checks a custom field property name.
pub fn custom_field_key(value: &str) -> (r: Result<String, CliError>)
    ensures
        outcome(r, |s: String| s@) == if custom_field_key_ok(value@) {
            Ok(value@)
        } else {
            Err((ErrorKind::InvalidCustomFieldKey, Seq::<Seq<char>>::empty()))
        },
{
    let v = chars_of(value);
    let prefix = chars_of("customField");
    proof {
        reveal_strlit("customField");
    }
    if !crate::text::has_prefix(&v, &prefix) {
        return Err(CliError::new(ErrorKind::InvalidCustomFieldKey));
    }
    let n = slice_chars(&v, prefix.len(), v.len());
    assert(n@ =~= value@.skip("customField"@.len() as int));
    let mut i: usize = 0;
    while i < n.len()
        invariant
            i <= n.len(),
            forall|j: int| 0 <= j < i ==> crate::text::is_ascii_digit(#[trigger] n@[j]),
            n@ == value@.skip("customField"@.len() as int),
            starts_with(value@, "customField"@),
        decreases n.len() - i,
    {
        if !crate::text::char_is_digit(n[i]) {
            assert(!all_digits(n@));
            return Err(CliError::new(ErrorKind::InvalidCustomFieldKey));
        }
        i = i + 1;
    }
    if n.len() == 0 {
        return Err(CliError::new(ErrorKind::InvalidCustomFieldKey));
    }
    assert(all_digits(n@));
    assert(n@[0] != '+');
    match parse_unsigned_chars(&n, u64::MAX) {
        Some(k) => {
            if k > 0 {
                Ok(value.to_owned())
            } else {
                Err(CliError::new(ErrorKind::InvalidCustomFieldKey))
            }
        },
        None => Err(CliError::new(ErrorKind::InvalidCustomFieldKey)),
    }
}

/// One custom field operation, in the order the command line gives them.
pub enum FieldOp {
    /// `customFieldN=JSON`, with the value the raw text stands for.
    Assign(Seq<char>, Json),
    /// `customFieldN=HREF`.
    Link(Seq<char>),
    /// Clear a scalar field.
    ClearSet(Seq<char>),
    /// Clear a linked field.
    ClearLink(Seq<char>),
}

/// The executable form of a `FieldOp`.
pub enum FieldOperation {
    Assign(String, JsonValue),
    Link(String),
    ClearSet(String),
    ClearLink(String),
}

impl View for FieldOperation {
    type V = FieldOp;

    open spec fn view(&self) -> FieldOp {
        match self {
            FieldOperation::Assign(a, v) => FieldOp::Assign(a@, v.model()),
            FieldOperation::Link(a) => FieldOp::Link(a@),
            FieldOperation::ClearSet(k) => FieldOp::ClearSet(k@),
            FieldOperation::ClearLink(k) => FieldOp::ClearLink(k@),
        }
    }
}

pub type Entries = Seq<(Seq<char>, Json)>;

/// Whether `key` is already a property or a link.
pub open spec fn field_taken(p: Entries, l: Entries, key: Seq<char>) -> bool {
    key_index(p, key) is Some || key_index(l, key) is Some
}

/// `{"href": href}`.
pub open spec fn href_object(href: Seq<char>) -> Json {
    Json::Object(seq![("href"@, Json::Str(href))])
}

/// The checks shared by every operation on `key`.
pub open spec fn field_key_check(p: Entries, l: Entries, key: Seq<char>) -> Option<Failure> {
    if !custom_field_key_ok(key) {
        Some((ErrorKind::InvalidCustomFieldKey, Seq::<Seq<char>>::empty()))
    } else if field_taken(p, l, key) {
        Some((ErrorKind::DuplicateCustomField, seq![key]))
    } else {
        None
    }
}

/// Applies one operation to the properties and links so far.
pub open spec fn apply_field_op(p: Entries, l: Entries, op: FieldOp) -> Result<(Entries, Entries), Failure> {
    match op {
        FieldOp::Assign(a, v) => match split_once(a, '=') {
            None => Err((ErrorKind::CustomFieldFormat, Seq::<Seq<char>>::empty())),
            Some((k, _)) => match field_key_check(p, l, k) {
                Some(e) => Err(e),
                None => Ok((p.push((k, v)), l)),
            },
        },
        FieldOp::Link(a) => match split_once(a, '=') {
            None => Err((ErrorKind::LinkedCustomFieldFormat, Seq::<Seq<char>>::empty())),
            Some((k, href)) => match field_key_check(p, l, k) {
                Some(e) => Err(e),
                None => if !starts_with(href, "/api/v3/"@) {
                    Err((ErrorKind::LinkedCustomFieldHref, Seq::<Seq<char>>::empty()))
                } else {
                    Ok((p, l.push((k, href_object(href)))))
                },
            },
        },
        FieldOp::ClearSet(k) => match field_key_check(p, l, k) {
            Some(e) => Err(e),
            None => Ok((p.push((k, Json::Null)), l)),
        },
        FieldOp::ClearLink(k) => match field_key_check(p, l, k) {
            Some(e) => Err(e),
            None => Ok((p, l.push((k, Json::Null)))),
        },
    }
}

/// The properties and links after every operation, or the first failure.
pub open spec fn field_ops_result(ops: Seq<FieldOp>) -> Result<(Entries, Entries), Failure>
    decreases ops.len(),
{
    if ops.len() == 0 {
        Ok((Seq::empty(), Seq::empty()))
    } else {
        match field_ops_result(ops.drop_last()) {
            Err(e) => Err(e),
            Ok((p, l)) => apply_field_op(p, l, ops.last()),
        }
    }
}

/// Every custom field key that an accepted set of operations produces is
/// distinct from every other: properties and links together name each field once.
pub proof fn law_custom_fields_are_set_once(ops: Seq<FieldOp>)
    requires
        field_ops_result(ops) is Ok,
    ensures
        crate::json::keys_unique(field_ops_result(ops)->Ok_0.0 + field_ops_result(ops)->Ok_0.1),
    decreases ops.len(),
{
    if ops.len() == 0 {
        assert(field_ops_result(ops)->Ok_0.0 + field_ops_result(ops)->Ok_0.1 =~= Seq::<(Seq<char>, Json)>::empty());
    } else {
        law_custom_fields_are_set_once(ops.drop_last());
        let (p, l) = field_ops_result(ops.drop_last())->Ok_0;
        let both = p + l;
        let (np, nl) = field_ops_result(ops)->Ok_0;
        let key = match ops.last() {
            FieldOp::Assign(a, _) => split_once(a, '=')->Some_0.0,
            FieldOp::Link(a) => split_once(a, '=')->Some_0.0,
            FieldOp::ClearSet(k) => k,
            FieldOp::ClearLink(k) => k,
        };
        assert(!field_taken(p, l, key));
        assert forall|i: int| 0 <= i < both.len() implies both[i].0 != key by {
            if i < p.len() {
                if p[i].0 == key {
                    crate::json::lemma_key_found(p, key, i);
                }
            } else {
                assert(both[i] == l[i - p.len()]);
                if l[i - p.len()].0 == key {
                    crate::json::lemma_key_found(l, key, i - p.len());
                }
            }
        }
        let v = match ops.last() {
            FieldOp::Assign(_, v) => v,
            FieldOp::Link(a) => href_object(split_once(a, '=')->Some_0.1),
            _ => Json::Null,
        };
        let grown = np + nl;
        if np.len() > p.len() {
            assert(np == p.push((key, v)));
            assert(nl == l);
        } else {
            assert(np == p);
            assert(nl == l.push((key, v)));
        }
        assert forall|i: int, j: int| 0 <= i < grown.len() && 0 <= j < grown.len() && i != j implies grown[i].0
            != grown[j].0 by {
            let ki = if np.len() > p.len() {
                if i < p.len() { i } else if i == p.len() { -1 } else { i - 1 }
            } else {
                if i < both.len() { i } else { -1 }
            };
            let kj = if np.len() > p.len() {
                if j < p.len() { j } else if j == p.len() { -1 } else { j - 1 }
            } else {
                if j < both.len() { j } else { -1 }
            };
            if ki >= 0 {
                assert(grown[i] == both[ki]);
            } else {
                assert(grown[i].0 == key);
            }
            if kj >= 0 {
                assert(grown[j] == both[kj]);
            } else {
                assert(grown[j].0 == key);
            }
        }
    }
}

/// The value a scalar assignment's raw text stands for: the JSON it parses as,
/// else the text as a string.
pub open spec fn scalar_value(raw: Seq<char>, parsed: Result<Json, Seq<char>>) -> Json {
    match parsed {
        Ok(j) => j,
        Err(_) => Json::Str(raw),
    }
}

/// The value of each scalar assignment (null where it has no `=`).
pub open spec fn scalar_values(assignments: Seq<Seq<char>>) -> Seq<Json> {
    Seq::new(
        assignments.len(),
        |i: int|
            match split_once(assignments[i], '=') {
                Some((_, raw)) => scalar_value(raw, json_parse_model(raw)),
                None => Json::Null,
            },
    )
}

/// All operations in processing order: scalar values, linked values, cleared
/// scalars, cleared links.
pub open spec fn field_ops(
    scalar: Seq<Seq<char>>,
    values: Seq<Json>,
    linked: Seq<Seq<char>>,
    clear_scalar: Seq<Seq<char>>,
    clear_linked: Seq<Seq<char>>,
) -> Seq<FieldOp> {
    Seq::new(scalar.len(), |i: int| FieldOp::Assign(scalar[i], values[i])) + Seq::new(
        linked.len(),
        |i: int| FieldOp::Link(linked[i]),
    ) + Seq::new(clear_scalar.len(), |i: int| FieldOp::ClearSet(clear_scalar[i])) + Seq::new(
        clear_linked.len(),
        |i: int| FieldOp::ClearLink(clear_linked[i]),
    )
}

pub open spec fn op_views(ops: Seq<FieldOperation>) -> Seq<FieldOp> {
    ops.map_values(|o: FieldOperation| o@)
}

fn field_check(p: &Settings, l: &Settings, key: &str) -> (r: Result<(), CliError>)
    ensures
        match field_key_check(model_entries(p@), model_entries(l@), key@) {
            Some(e) => r matches Err(x) && x@ == e,
            None => r is Ok,
        },
{
    match custom_field_key(key) {
        Err(e) => return Err(e),
        Ok(_) => {},
    }
    if entry_position(p, key).is_some() || entry_position(l, key).is_some() {
        return Err(CliError::with(ErrorKind::DuplicateCustomField, key.to_owned()));
    }
    Ok(())
}

fn apply_field_operation(p: &mut Settings, l: &mut Settings, op: FieldOperation) -> (r: Result<(), CliError>)
    ensures
        match apply_field_op(model_entries(old(p)@), model_entries(old(l)@), op@) {
            Ok((np, nl)) => r is Ok && model_entries(final(p)@) == np && model_entries(final(l)@) == nl,
            Err(e) => r matches Err(x) && x@ == e,
        },
{
    let ghost op_view = op@;
    match op {
        FieldOperation::Assign(a, v) => {
            match split_at_char(&chars_of(a.as_str()), '=') {
                None => Err(CliError::new(ErrorKind::CustomFieldFormat)),
                Some((k, _)) => {
                    let key = string_of(&k);
                    if let Err(e) = field_check(p, l, key.as_str()) {
                        return Err(e);
                    }
                    proof {
                        lemma_model_entries_push(p@, (key, v));
                    }
                    p.push((key, v));
                    Ok(())
                },
            }
        },
        FieldOperation::Link(a) => {
            match split_at_char(&chars_of(a.as_str()), '=') {
                None => Err(CliError::new(ErrorKind::LinkedCustomFieldFormat)),
                Some((k, href)) => {
                    let key = string_of(&k);
                    if let Err(e) = field_check(p, l, key.as_str()) {
                        return Err(e);
                    }
                    let api = chars_of("/api/v3/");
                    if !crate::text::has_prefix(&href, &api) {
                        return Err(CliError::new(ErrorKind::LinkedCustomFieldHref));
                    }
                    let value = href_value(string_of(&href));
                    proof {
                        lemma_model_entries_push(l@, (key, value));
                    }
                    l.push((key, value));
                    Ok(())
                },
            }
        },
        FieldOperation::ClearSet(k) => {
            if let Err(e) = field_check(p, l, k.as_str()) {
                return Err(e);
            }
            proof {
                lemma_model_entries_push(p@, (k, JsonValue::Null));
            }
            p.push((k, JsonValue::Null));
            Ok(())
        },
        FieldOperation::ClearLink(k) => {
            if let Err(e) = field_check(p, l, k.as_str()) {
                return Err(e);
            }
            proof {
                lemma_model_entries_push(l@, (k, JsonValue::Null));
            }
            l.push((k, JsonValue::Null));
            Ok(())
        },
    }
}

/// `{"href": href}`.
pub fn href_value(href: String) -> (r: JsonValue)
    ensures
        r.model() == href_object(href@),
{
    let mut es: Vec<(String, JsonValue)> = Vec::new();
    let ghost h = href@;
    let entry = ("href".to_owned(), JsonValue::String(href));
    proof {
        lemma_model_entries_push(es@, entry);
    }
    es.push(entry);
    proof {
        lemma_model_entries(es@);
        assert(model_entries(es@) =~= seq![("href"@, Json::Str(h))]);
    }
    JsonValue::Object(es)
}

/// Applies the operations in order: the custom field properties and links of a
/// create or update request, or the first failure.
#[verifier::loop_isolation(false)]
pub fn apply_field_operations(ops: Vec<FieldOperation>) -> (r: Result<(Settings, Settings), CliError>)
    ensures
        outcome(r, |x: (Settings, Settings)| (model_entries(x.0@), model_entries(x.1@))) == field_ops_result(
            op_views(ops@),
        ),
{
    let ghost all = op_views(ops@);
    let mut p: Settings = Vec::new();
    let mut l: Settings = Vec::new();
    let mut ops = ops;
    let mut i: usize = 0;
    let n = ops.len();
    assert(all.take(0) =~= Seq::<FieldOp>::empty());
    while ops.len() > 0
        invariant
            n == all.len(),
            i + ops.len() == n,
            forall|k: int| 0 <= k < ops.len() ==> (#[trigger] ops@[k])@ == all[i + k],
            field_ops_result(all.take(i as int)) == Ok::<(Entries, Entries), Failure>(
                (model_entries(p@), model_entries(l@)),
            ),
        decreases ops.len(),
    {
        let ghost before = ops@;
        let op = ops.remove(0);
        assert(op@ == all[i as int]);
        assert forall|k: int| 0 <= k < ops.len() implies (#[trigger] ops@[k])@ == all[i + 1 + k] by {
            assert(ops@[k] == before[k + 1]);
        }
        assert(all.take(i + 1).drop_last() =~= all.take(i as int));
        match apply_field_operation(&mut p, &mut l, op) {
            Ok(()) => {},
            Err(e) => {
                proof {
                    assert(all.take(i + 1).last() == all[i as int]);
                    assert(field_ops_result(all.take(i + 1)) == Err::<(Entries, Entries), Failure>(e@));
                    lemma_field_ops_stops(all, i + 1);
                }
                return Err(e);
            },
        }
        i = i + 1;
    }
    assert(all.take(n as int) =~= all);
    Ok((p, l))
}

/// Once an operation fails, the whole sequence fails the same way.
pub proof fn lemma_field_ops_stops(ops: Seq<FieldOp>, k: int)
    requires
        0 <= k <= ops.len(),
        field_ops_result(ops.take(k)) is Err,
    ensures
        field_ops_result(ops) == field_ops_result(ops.take(k)),
    decreases ops.len() - k,
{
    if k == ops.len() {
        assert(ops.take(k) =~= ops);
    } else {
        let shorter = ops.drop_last();
        assert(shorter.take(k) =~= ops.take(k));
        lemma_field_ops_stops(shorter, k);
    }
}

/// Parses the raw value of a scalar assignment: the JSON it holds, else the text.
pub fn scalar_assignment_value(assignment: &str) -> (r: JsonValue)
    ensures
        r.model() == match split_once(assignment@, '=') {
            Some((_, raw)) => scalar_value(raw, json_parse_model(raw)),
            None => Json::Null,
        },
{
    match split_at_char(&chars_of(assignment), '=') {
        None => JsonValue::Null,
        Some((_, raw)) => {
            let raw = string_of(&raw);
            match parse_json(raw.as_str()) {
                Ok(v) => v,
                Err(_) => JsonValue::String(raw),
            }
        },
    }
}

/// The custom field properties and links of a request: each scalar
/// `customFieldN=JSON` (text that is not JSON is a string), each linked
/// `customFieldN=/api/v3/...`, then each cleared scalar and cleared link (null).
/// A field named twice, a malformed assignment, a bad key or a link outside the
/// API fails.
pub fn custom_field_operations(
    scalar_assignments: &Vec<String>,
    linked_values: &Vec<String>,
    clear_scalar: &Vec<String>,
    clear_linked: &Vec<String>,
) -> (r: Result<(Settings, Settings), CliError>)
    ensures
        outcome(r, |x: (Settings, Settings)| (model_entries(x.0@), model_entries(x.1@))) == field_ops_result(
            field_ops(
                string_views(scalar_assignments@),
                scalar_values(string_views(scalar_assignments@)),
                string_views(linked_values@),
                string_views(clear_scalar@),
                string_views(clear_linked@),
            ),
        ),
{
    let ghost goal = field_ops(
        string_views(scalar_assignments@),
        scalar_values(string_views(scalar_assignments@)),
        string_views(linked_values@),
        string_views(clear_scalar@),
        string_views(clear_linked@),
    );
    let mut ops: Vec<FieldOperation> = Vec::new();
    let mut i: usize = 0;
    while i < scalar_assignments.len()
        invariant
            i <= scalar_assignments.len(),
            op_views(ops@) =~= goal.take(i as int),
            ops.len() == i,
            goal == field_ops(
                string_views(scalar_assignments@),
                scalar_values(string_views(scalar_assignments@)),
                string_views(linked_values@),
                string_views(clear_scalar@),
                string_views(clear_linked@),
            ),
        decreases scalar_assignments.len() - i,
    {
        let a = scalar_assignments[i].clone();
        let v = scalar_assignment_value(a.as_str());
        let ghost prev = ops@;
        ops.push(FieldOperation::Assign(a, v));
        proof {
            assert(ops@ == prev.push(FieldOperation::Assign(a, v)));
            assert(goal[i as int] == FieldOp::Assign(a@, v.model()));
            assert(op_views(ops@) =~= op_views(prev).push(FieldOp::Assign(a@, v.model())));
        }
        i = i + 1;
    }
    let ghost base1 = scalar_assignments.len() as int;
    let mut i: usize = 0;
    while i < linked_values.len()
        invariant
            i <= linked_values.len(),
            base1 == scalar_assignments.len(),
            op_views(ops@) =~= goal.take(base1 + i),
            ops.len() == base1 + i,
            goal == field_ops(
                string_views(scalar_assignments@),
                scalar_values(string_views(scalar_assignments@)),
                string_views(linked_values@),
                string_views(clear_scalar@),
                string_views(clear_linked@),
            ),
        decreases linked_values.len() - i,
    {
        let a = linked_values[i].clone();
        let ghost prev = ops@;
        ops.push(FieldOperation::Link(a));
        proof {
            assert(goal[base1 + i] == FieldOp::Link(a@));
            assert(op_views(ops@) =~= op_views(prev).push(FieldOp::Link(a@)));
        }
        i = i + 1;
    }
    let ghost base2 = base1 + linked_values.len();
    let mut i: usize = 0;
    while i < clear_scalar.len()
        invariant
            i <= clear_scalar.len(),
            base2 == scalar_assignments.len() + linked_values.len(),
            op_views(ops@) =~= goal.take(base2 + i),
            ops.len() == base2 + i,
            goal == field_ops(
                string_views(scalar_assignments@),
                scalar_values(string_views(scalar_assignments@)),
                string_views(linked_values@),
                string_views(clear_scalar@),
                string_views(clear_linked@),
            ),
        decreases clear_scalar.len() - i,
    {
        let a = clear_scalar[i].clone();
        let ghost prev = ops@;
        ops.push(FieldOperation::ClearSet(a));
        proof {
            assert(goal[base2 + i] == FieldOp::ClearSet(a@));
            assert(op_views(ops@) =~= op_views(prev).push(FieldOp::ClearSet(a@)));
        }
        i = i + 1;
    }
    let ghost base3 = base2 + clear_scalar.len();
    let mut i: usize = 0;
    while i < clear_linked.len()
        invariant
            i <= clear_linked.len(),
            base3 == scalar_assignments.len() + linked_values.len() + clear_scalar.len(),
            op_views(ops@) =~= goal.take(base3 + i),
            ops.len() == base3 + i,
            goal == field_ops(
                string_views(scalar_assignments@),
                scalar_values(string_views(scalar_assignments@)),
                string_views(linked_values@),
                string_views(clear_scalar@),
                string_views(clear_linked@),
            ),
        decreases clear_linked.len() - i,
    {
        let a = clear_linked[i].clone();
        let ghost prev = ops@;
        ops.push(FieldOperation::ClearLink(a));
        proof {
            assert(goal[base3 + i] == FieldOp::ClearLink(a@));
            assert(op_views(ops@) =~= op_views(prev).push(FieldOp::ClearLink(a@)));
        }
        i = i + 1;
    }
    assert(goal.take(goal.len() as int) =~= goal);
    apply_field_operations(ops)
}

/// What `--updated-since` gives: a day count, optionally followed by `d`, at least one.
pub open spec fn updated_since_of(value: Seq<char>) -> Result<u32, Failure> {
    let digits = if ends_with(value, seq!['d']) {
        value.drop_last()
    } else {
        value
    };
    match parse_unsigned(digits, u32::MAX as nat) {
        None => Err((ErrorKind::InvalidUpdatedSince, seq![u32_parse_error(digits)])),
        Some(n) => if n == 0 {
            Err((ErrorKind::ZeroUpdatedSince, Seq::<Seq<char>>::empty()))
        } else {
            Ok(n as u32)
        },
    }
}

/// The day count of `--updated-since` (`7` or `7d`).
pub fn updated_since_days(value: &str) -> (r: Result<u32, CliError>)
    ensures
        outcome(r, |n: u32| n) == updated_since_of(value@),
{
    let v = chars_of(value);
    let d = chars_of("d");
    proof {
        reveal_strlit("d");
    }
    assert(d@ =~= seq!['d']);
    let digits = if crate::text::has_suffix(&v, &d) {
        slice_chars(&v, 0, v.len() - 1)
    } else {
        v
    };
    assert(ends_with(value@, seq!['d']) ==> digits@ =~= value@.drop_last());
    match parse_unsigned_chars(&digits, u32::MAX as u64) {
        None => {
            let text = string_of(&digits);
            match u32_parse_failure(text.as_str()) {
                Some(detail) => Err(CliError::with(ErrorKind::InvalidUpdatedSince, detail)),
                None => Err(CliError::new(ErrorKind::InvalidUpdatedSince)),
            }
        },
        Some(n) => {
            if n == 0 {
                Err(CliError::new(ErrorKind::ZeroUpdatedSince))
            } else {
                Ok(n as u32)
            }
        },
    }
}

/// A sort field name as matched: ASCII lower case, `_` read as `-`.
pub open spec fn sort_name(s: Seq<char>) -> Seq<char> {
    lower_seq(s).map_values(|c: char| if c == '_' { '-' } else { c })
}

/// The API's name for a sort field.
pub open spec fn sort_field_of(n: Seq<char>) -> Option<Seq<char>> {
    if n == "id"@ {
        Some("id"@)
    } else if n == "type"@ {
        Some("type"@)
    } else if n == "status"@ {
        Some("status"@)
    } else if n == "priority"@ {
        Some("priority"@)
    } else if n == "subject"@ {
        Some("subject"@)
    } else if n == "assignee"@ {
        Some("assignee"@)
    } else if n == "responsible"@ {
        Some("responsible"@)
    } else if n == "start"@ || n == "start-date"@ {
        Some("startDate"@)
    } else if n == "due"@ || n == "due-date"@ {
        Some("dueDate"@)
    } else if n == "created"@ || n == "created-at"@ {
        Some("createdAt"@)
    } else if n == "updated"@ || n == "updated-at"@ {
        Some("updatedAt"@)
    } else if n == "percent"@ || n == "percentage-done"@ {
        Some("percentageDone"@)
    } else if n == "estimate"@ || n == "estimated-time"@ {
        Some("estimatedTime"@)
    } else {
        None
    }
}

/// One `FIELD[:asc|desc]` as the API's `[field, direction]` pair.
pub open spec fn sort_criterion_of(v: Seq<char>) -> Result<Json, Failure> {
    let (field, direction) = match split_once(v, ':') {
        Some(p) => p,
        None => (v, "asc"@),
    };
    match sort_field_of(sort_name(field)) {
        None => Err((ErrorKind::UnsupportedSortField, seq![field])),
        Some(f) => {
            let d = lower_seq(direction);
            if d != "asc"@ && d != "desc"@ {
                Err((ErrorKind::InvalidSortDirection, Seq::<Seq<char>>::empty()))
            } else {
                Ok(Json::Array(seq![Json::Str(f), Json::Str(d)]))
            }
        },
    }
}

/// Every sort criterion in order, or the first failure.
pub open spec fn sort_of(values: Seq<Seq<char>>) -> Result<Seq<Json>, Failure>
    decreases values.len(),
{
    if values.len() == 0 {
        Ok(Seq::empty())
    } else {
        match sort_of(values.drop_last()) {
            Err(e) => Err(e),
            Ok(done) => match sort_criterion_of(values.last()) {
                Err(e) => Err(e),
                Ok(c) => Ok(done.push(c)),
            },
        }
    }
}

fn sort_field(n: &Vec<char>) -> (r: Option<&'static str>)
    ensures
        match r {
            Some(f) => sort_field_of(n@) == Some(f@),
            None => sort_field_of(n@) is None,
        },
{
    if chars_eq(n, &chars_of("id")) {
        Some("id")
    } else if chars_eq(n, &chars_of("type")) {
        Some("type")
    } else if chars_eq(n, &chars_of("status")) {
        Some("status")
    } else if chars_eq(n, &chars_of("priority")) {
        Some("priority")
    } else if chars_eq(n, &chars_of("subject")) {
        Some("subject")
    } else if chars_eq(n, &chars_of("assignee")) {
        Some("assignee")
    } else if chars_eq(n, &chars_of("responsible")) {
        Some("responsible")
    } else if chars_eq(n, &chars_of("start")) || chars_eq(n, &chars_of("start-date")) {
        Some("startDate")
    } else if chars_eq(n, &chars_of("due")) || chars_eq(n, &chars_of("due-date")) {
        Some("dueDate")
    } else if chars_eq(n, &chars_of("created")) || chars_eq(n, &chars_of("created-at")) {
        Some("createdAt")
    } else if chars_eq(n, &chars_of("updated")) || chars_eq(n, &chars_of("updated-at")) {
        Some("updatedAt")
    } else if chars_eq(n, &chars_of("percent")) || chars_eq(n, &chars_of("percentage-done")) {
        Some("percentageDone")
    } else if chars_eq(n, &chars_of("estimate")) || chars_eq(n, &chars_of("estimated-time")) {
        Some("estimatedTime")
    } else {
        None
    }
}

fn sort_name_chars(s: &Vec<char>) -> (r: Vec<char>)
    ensures
        r@ == sort_name(s@),
{
    let low = lowercase(s);
    let mut out: Vec<char> = Vec::new();
    let mut i: usize = 0;
    while i < low.len()
        invariant
            i <= low.len(),
            low@ == lower_seq(s@),
            out@ =~= low@.take(i as int).map_values(|c: char| if c == '_' { '-' } else { c }),
        decreases low.len() - i,
    {
        let c = low[i];
        out.push(if c == '_' { '-' } else { c });
        i = i + 1;
    }
    assert(low@.take(low.len() as int) =~= low@);
    out
}

/// One sort criterion.
pub fn sort_criterion(value: &str) -> (r: Result<JsonValue, CliError>)
    ensures
        outcome(r, |j: JsonValue| j.model()) == sort_criterion_of(value@),
{
    let v = chars_of(value);
    let (field, direction) = match split_at_char(&v, ':') {
        Some(p) => p,
        None => (v, chars_of("asc")),
    };
    let f = match sort_field(&sort_name_chars(&field)) {
        Some(f) => f,
        None => return Err(CliError::with(ErrorKind::UnsupportedSortField, string_of(&field))),
    };
    let d = lowercase(&direction);
    if !chars_eq(&d, &chars_of("asc")) && !chars_eq(&d, &chars_of("desc")) {
        return Err(CliError::new(ErrorKind::InvalidSortDirection));
    }
    let mut items: Vec<JsonValue> = Vec::new();
    let a = JsonValue::text(f);
    let b = JsonValue::String(string_of(&d));
    proof {
        lemma_model_items(items@);
        lemma_model_items_push(items@, a);
        lemma_model_items_push(items@.push(a), b);
    }
    items.push(a);
    items.push(b);
    assert(model_items(items@) =~= seq![Json::Str(f@), Json::Str(d@)]);
    Ok(JsonValue::Array(items))
}

/// `--sort` values as the API's `sortBy` criteria.
pub fn sort_criteria(values: &Vec<String>) -> (r: Result<Vec<JsonValue>, CliError>)
    ensures
        outcome(r, |v: Vec<JsonValue>| model_items(v@)) == sort_of(string_views(values@)),
{
    let ghost vs = string_views(values@);
    let mut out: Vec<JsonValue> = Vec::new();
    let mut i: usize = 0;
    assert(vs.take(0) =~= Seq::<Seq<char>>::empty());
    proof {
        lemma_model_items(out@);
    }
    while i < values.len()
        invariant
            i <= values.len(),
            vs == string_views(values@),
            sort_of(vs.take(i as int)) == Ok::<Seq<Json>, Failure>(model_items(out@)),
        decreases values.len() - i,
    {
        assert(vs.take(i + 1).drop_last() =~= vs.take(i as int));
        assert(vs.take(i + 1).last() == values@[i as int]@);
        match sort_criterion(values[i].as_str()) {
            Ok(c) => {
                proof {
                    lemma_model_items_push(out@, c);
                }
                out.push(c);
            },
            Err(e) => {
                proof {
                    lemma_sort_stops(vs, i + 1);
                }
                return Err(e);
            },
        }
        i = i + 1;
    }
    assert(vs.take(values.len() as int) =~= vs);
    Ok(out)
}

/// Once one criterion fails, the whole list fails the same way.
pub proof fn lemma_sort_stops(values: Seq<Seq<char>>, k: int)
    requires
        0 <= k <= values.len(),
        sort_of(values.take(k)) is Err,
    ensures
        sort_of(values) == sort_of(values.take(k)),
    decreases values.len() - k,
{
    if k == values.len() {
        assert(values.take(k) =~= values);
    } else {
        let shorter = values.drop_last();
        assert(shorter.take(k) =~= values.take(k));
        lemma_sort_stops(shorter, k);
    }
}

/// The list options of the task listing that shape its request.
pub struct TaskFilters {
    /// Include closed work packages when no status is given.
    pub all: bool,
    /// Subject search text.
    pub query: Option<String>,
    /// `YYYY-MM-DD`: due on or before.
    pub due_before: Option<String>,
    /// Updated within this many days (`7` or `7d`).
    pub updated_since: Option<String>,
    /// `FIELD[:asc|desc]` criteria, primary first.
    pub sort: Vec<String>,
}

/// `{name: {"operator": op, "values": values}}`.
pub open spec fn filter_json(name: Seq<char>, op: Seq<char>, values: Json) -> Json {
    Json::Object(seq![(name, Json::Object(seq![("operator"@, Json::Str(op)), ("values"@, values)]))])
}

/// IDs as a JSON array of numbers.
pub open spec fn ids_json(ids: Seq<u64>) -> Json {
    Json::Array(ids.map_values(|n: u64| Json::Number(Num::Unsigned(n))))
}

pub open spec fn when(c: bool, j: Json) -> Seq<Json> {
    if c {
        seq![j]
    } else {
        Seq::empty()
    }
}

/// The filters that cannot fail: status (open ones unless `--all`, or the
/// given IDs), assignee, type, priority and subject search.
pub open spec fn task_filter_head_of(
    all: bool,
    query: Option<Seq<char>>,
    assignee: Option<u64>,
    statuses: Seq<u64>,
    types: Seq<u64>,
    priorities: Seq<u64>,
) -> Seq<Json> {
    when(statuses.len() == 0 && !all, filter_json("status"@, "o"@, Json::Array(Seq::empty())))
        + when(statuses.len() > 0, filter_json("status"@, "="@, ids_json(statuses)))
        + (match assignee {
            Some(a) => seq![filter_json("assignee"@, "="@, ids_json(seq![a]))],
            None => Seq::empty(),
        })
        + when(types.len() > 0, filter_json("type"@, "="@, ids_json(types)))
        + when(priorities.len() > 0, filter_json("priority"@, "="@, ids_json(priorities)))
        + (match query {
            Some(q) => seq![filter_json("subject"@, "~"@, Json::Array(seq![Json::Str(q)]))],
            None => Seq::empty(),
        })
}

/// The filters of a task listing, in order; only the due date and the
/// updated-since count can fail.
/// The `dueDate` filter of `--due-before`, given what the date parser reported
/// for the date (its message when it is not a `YYYY-MM-DD` date).
pub open spec fn due_filter_of(date: Seq<char>, check: Option<Seq<char>>) -> Result<Json, Failure> {
    match check {
        None => Ok(filter_json("dueDate"@, "<=d"@, Json::Array(seq![Json::Str(date)]))),
        Some(detail) => Err((ErrorKind::InvalidDueBefore, seq![detail])),
    }
}

pub open spec fn task_filters_of(
    all: bool,
    query: Option<Seq<char>>,
    due_before: Option<Seq<char>>,
    updated_since: Option<Seq<char>>,
    assignee: Option<u64>,
    statuses: Seq<u64>,
    types: Seq<u64>,
    priorities: Seq<u64>,
) -> Result<Seq<Json>, Failure> {
    let head = task_filter_head_of(all, query, assignee, statuses, types, priorities);
    let due: Result<Seq<Json>, Failure> = match due_before {
        None => Ok(Seq::empty()),
        Some(d) => match due_filter_of(d, date_parse_error(d, "%Y-%m-%d"@)) {
            Ok(f) => Ok(seq![f]),
            Err(e) => Err(e),
        },
    };
    match due {
        Err(e) => Err(e),
        Ok(due) => match updated_since {
            None => Ok(head + due),
            Some(v) => match updated_since_of(v) {
                Err(e) => Err(e),
                Ok(n) => Ok(
                    head + due + seq![
                        filter_json(
                            "updatedAt"@,
                            ">t-"@,
                            Json::Array(seq![Json::Number(Num::Unsigned(n as u64))]),
                        ),
                    ],
                ),
            },
        },
    }
}

/// The query of a task listing: `filters`, then `sortBy`, each given as JSON text.
pub open spec fn task_query_of(filters: Option<Seq<char>>, sort: Option<Seq<char>>) -> Seq<char> {
    let q1 = match filters {
        Some(f) => form_pair(Seq::empty(), "filters"@, f),
        None => Seq::empty(),
    };
    match sort {
        Some(t) => form_pair(q1, "sortBy"@, t),
        None => q1,
    }
}

/// A project's work package collection path with that query, when it is not empty.
pub open spec fn task_list_path_of(project_id: u64, filters: Option<Seq<char>>, sort: Option<Seq<char>>) -> Seq<char> {
    let base = "/projects/"@ + crate::text::decimal(project_id as nat) + "/work_packages"@;
    let q = task_query_of(filters, sort);
    if q.len() == 0 {
        base
    } else {
        base + seq!['?'] + q
    }
}

/// The work package collection path of a project with its filter and sort query.
pub open spec fn work_package_path_of(
    project_id: u64,
    all: bool,
    query: Option<Seq<char>>,
    due_before: Option<Seq<char>>,
    updated_since: Option<Seq<char>>,
    sort: Seq<Seq<char>>,
    assignee: Option<u64>,
    statuses: Seq<u64>,
    types: Seq<u64>,
    priorities: Seq<u64>,
) -> Result<Seq<char>, Failure> {
    match task_filters_of(all, query, due_before, updated_since, assignee, statuses, types, priorities) {
        Err(e) => Err(e),
        Ok(filters) => {
            let ft = if filters.len() > 0 {
                Some(json_string_model(Json::Array(filters)))
            } else {
                None
            };
            if sort.len() > 0 {
                match sort_of(sort) {
                    Err(e) => Err(e),
                    Ok(c) => Ok(task_list_path_of(project_id, ft, Some(json_string_model(Json::Array(c))))),
                }
            } else {
                Ok(task_list_path_of(project_id, ft, None))
            }
        },
    }
}

pub open spec fn opt_string_view(o: Option<String>) -> Option<Seq<char>> {
    crate::outside::opt_view(o)
}

/// `{name: {"operator": op, "values": values}}`.
pub fn filter_value(name: &str, op: &str, values: JsonValue) -> (r: JsonValue)
    ensures
        r.model() == filter_json(name@, op@, values.model()),
{
    object1(name, object2("operator", JsonValue::text(op), "values", values))
}

/// IDs as a JSON array of numbers.
pub fn ids_value(ids: &Vec<u64>) -> (r: JsonValue)
    ensures
        r.model() == ids_json(ids@),
{
    let mut items: Vec<JsonValue> = Vec::new();
    let mut i: usize = 0;
    proof {
        lemma_model_items(items@);
    }
    while i < ids.len()
        invariant
            i <= ids.len(),
            model_items(items@) =~= ids@.take(i as int).map_values(|n: u64| Json::Number(Num::Unsigned(n))),
        decreases ids.len() - i,
    {
        let x = JsonValue::unsigned(ids[i]);
        proof {
            lemma_model_items_push(items@, x);
        }
        items.push(x);
        i = i + 1;
    }
    assert(ids@.take(ids.len() as int) =~= ids@);
    JsonValue::Array(items)
}

fn push_item(out: &mut Vec<JsonValue>, f: JsonValue)
    ensures
        model_items(final(out)@) == model_items(old(out)@).push(f.model()),
{
    proof {
        lemma_model_items_push(out@, f);
    }
    out.push(f);
}

/// The filters that cannot fail, in order.
pub fn task_filter_head(
    all: bool,
    query: &Option<String>,
    assignee: Option<u64>,
    statuses: &Vec<u64>,
    types: &Vec<u64>,
    priorities: &Vec<u64>,
) -> (r: Vec<JsonValue>)
    ensures
        model_items(r@) == task_filter_head_of(all, opt_string_view(*query), assignee, statuses@, types@, priorities@),
{
    let mut out: Vec<JsonValue> = Vec::new();
    proof {
        lemma_model_items(out@);
    }
    let ghost s0 = model_items(out@);
    if statuses.len() == 0 && !all {
        let none: Vec<JsonValue> = Vec::new();
        assert(model_items(none@) =~= Seq::<Json>::empty());
        push_item(&mut out, filter_value("status", "o", JsonValue::Array(none)));
    }
    let ghost s1 = model_items(out@);
    assert(s1 =~= s0 + when(statuses@.len() == 0 && !all, filter_json("status"@, "o"@, Json::Array(Seq::empty()))));
    if statuses.len() > 0 {
        push_item(&mut out, filter_value("status", "=", ids_value(statuses)));
    }
    let ghost s2 = model_items(out@);
    assert(s2 =~= s1 + when(statuses@.len() > 0, filter_json("status"@, "="@, ids_json(statuses@))));
    if let Some(a) = assignee {
        let mut one: Vec<u64> = Vec::new();
        one.push(a);
        assert(one@ =~= seq![a]);
        push_item(&mut out, filter_value("assignee", "=", ids_value(&one)));
    }
    let ghost s3 = model_items(out@);
    assert(s3 =~= s2 + (match assignee {
        Some(a) => seq![filter_json("assignee"@, "="@, ids_json(seq![a]))],
        None => Seq::<Json>::empty(),
    }));
    if types.len() > 0 {
        push_item(&mut out, filter_value("type", "=", ids_value(types)));
    }
    let ghost s4 = model_items(out@);
    assert(s4 =~= s3 + when(types@.len() > 0, filter_json("type"@, "="@, ids_json(types@))));
    if priorities.len() > 0 {
        push_item(&mut out, filter_value("priority", "=", ids_value(priorities)));
    }
    let ghost s5 = model_items(out@);
    assert(s5 =~= s4 + when(priorities@.len() > 0, filter_json("priority"@, "="@, ids_json(priorities@))));
    if let Some(q) = query {
        push_item(&mut out, filter_value("subject", "~", array1(JsonValue::String(q.clone()))));
    }
    assert(model_items(out@) =~= s5 + (match opt_string_view(*query) {
        Some(q) => seq![filter_json("subject"@, "~"@, Json::Array(seq![Json::Str(q)]))],
        None => Seq::<Json>::empty(),
    }));
    assert(s0 =~= Seq::<Json>::empty());
    out
}

/// The `dueDate` filter of `--due-before`, given what the date parser reported.
pub fn due_before_filter(date: &str, check: Option<String>) -> (r: Result<JsonValue, CliError>)
    ensures
        outcome(r, |v: JsonValue| v.model()) == due_filter_of(date@, opt_string_view(check)),
{
    match check {
        Some(detail) => Err(CliError::with(ErrorKind::InvalidDueBefore, detail)),
        None => Ok(filter_value("dueDate", "<=d", array1(JsonValue::text(date)))),
    }
}

/// The filters of a task listing, in order.
pub fn task_filters(
    filters: &TaskFilters,
    assignee: Option<u64>,
    statuses: &Vec<u64>,
    types: &Vec<u64>,
    priorities: &Vec<u64>,
) -> (r: Result<Vec<JsonValue>, CliError>)
    ensures
        outcome(r, |v: Vec<JsonValue>| model_items(v@)) == task_filters_of(
            filters.all,
            opt_string_view(filters.query),
            opt_string_view(filters.due_before),
            opt_string_view(filters.updated_since),
            assignee,
            statuses@,
            types@,
            priorities@,
        ),
{
    let mut out = task_filter_head(filters.all, &filters.query, assignee, statuses, types, priorities);
    let ghost head = model_items(out@);
    let ghost mut due_s: Seq<Json> = Seq::empty();
    if let Some(d) = &filters.due_before {
        let check = naive_date_check(d.as_str(), "%Y-%m-%d");
        let f = match due_before_filter(d.as_str(), check) {
            Ok(f) => f,
            Err(e) => return Err(e),
        };
        proof {
            lemma_model_items_push(out@, f);
            due_s = seq![f.model()];
        }
        out.push(f);
    }
    assert(model_items(out@) =~= head + due_s);
    if let Some(v) = &filters.updated_since {
        let n = match updated_since_days(v.as_str()) {
            Ok(n) => n,
            Err(e) => return Err(e),
        };
        let f = filter_value("updatedAt", ">t-", array1(JsonValue::unsigned(n as u64)));
        proof {
            lemma_model_items_push(out@, f);
        }
        out.push(f);
        assert(model_items(out@) =~= head + due_s + seq![f.model()]);
    }
    Ok(out)
}

/// A project's work package collection path, given the JSON texts of its
/// filters and sort criteria (each left out when absent).
pub fn task_list_path(project_id: u64, filters_text: Option<String>, sort_text: Option<String>) -> (r: String)
    ensures
        r@ == task_list_path_of(project_id, opt_string_view(filters_text), opt_string_view(sort_text)),
{
    let mut query = String::new();
    assert(query@ =~= Seq::<char>::empty());
    match &filters_text {
        Some(f) => append_form_pair(&mut query, "filters", f.as_str()),
        None => {},
    }
    match &sort_text {
        Some(t) => append_form_pair(&mut query, "sortBy", t.as_str()),
        None => {},
    }
    assert(query@ == task_query_of(opt_string_view(filters_text), opt_string_view(sort_text)));
    let mut path: Vec<char> = Vec::new();
    crate::text::push_str(&mut path, "/projects/");
    crate::text::push_chars(&mut path, &crate::text::decimal_chars(project_id));
    crate::text::push_str(&mut path, "/work_packages");
    let ghost base = path@;
    assert(base =~= "/projects/"@ + crate::text::decimal(project_id as nat) + "/work_packages"@);
    let q = chars_of(query.as_str());
    if q.len() > 0 {
        path.push('?');
        crate::text::push_chars(&mut path, &q);
        assert(path@ =~= base + seq!['?'] + query@);
    }
    string_of(&path)
}

/// The request path of a project's work package listing: the collection path
/// with `filters` and `sortBy` as form-encoded JSON when there are any.
pub fn work_package_path(
    project_id: u64,
    filters: &TaskFilters,
    assignee: Option<u64>,
    statuses: &Vec<u64>,
    types: &Vec<u64>,
    priorities: &Vec<u64>,
) -> (r: Result<String, CliError>)
    ensures
        outcome(r, |s: String| s@) == work_package_path_of(
            project_id,
            filters.all,
            opt_string_view(filters.query),
            opt_string_view(filters.due_before),
            opt_string_view(filters.updated_since),
            string_views(filters.sort@),
            assignee,
            statuses@,
            types@,
            priorities@,
        ),
{
    let list = match task_filters(filters, assignee, statuses, types, priorities) {
        Ok(l) => l,
        Err(e) => return Err(e),
    };
    let ghost fl = model_items(list@);
    proof {
        lemma_model_items(list@);
    }
    let filters_text = if list.len() > 0 {
        Some(json_to_string(&array_value(list)))
    } else {
        None
    };
    assert(opt_string_view(filters_text) == (if fl.len() > 0 {
        Some(json_string_model(Json::Array(fl)))
    } else {
        None
    }));
    if filters.sort.len() > 0 {
        let criteria = match sort_criteria(&filters.sort) {
            Ok(c) => c,
            Err(e) => return Err(e),
        };
        let sort_text = json_to_string(&array_value(criteria));
        Ok(task_list_path(project_id, filters_text, Some(sort_text)))
    } else {
        Ok(task_list_path(project_id, filters_text, None))
    }
}

/// The relations collection path for a filter given as JSON text.
pub fn relation_path_from(filters_text: &str) -> (r: String)
    ensures
        r@ == "/relations?"@ + form_pair(Seq::empty(), "filters"@, filters_text@),
{
    let mut query = String::new();
    assert(query@ =~= Seq::<char>::empty());
    append_form_pair(&mut query, "filters", filters_text);
    let mut path: Vec<char> = Vec::new();
    crate::text::push_str(&mut path, "/relations?");
    crate::text::push_str(&mut path, query.as_str());
    assert(path@ =~= "/relations?"@ + query@);
    string_of(&path)
}

/// The relations collection path of a work package: relations that involve it.
pub fn relation_path(task_id: u64) -> (r: Result<String, CliError>)
    ensures
        r matches Ok(s) && s@ == "/relations?"@ + form_pair(
            Seq::empty(),
            "filters"@,
            json_string_model(Json::Array(seq![filter_json("involved"@, "="@, ids_json(seq![task_id]))])),
        ),
{
    let mut one: Vec<u64> = Vec::new();
    one.push(task_id);
    assert(one@ =~= seq![task_id]);
    let filters = array1(filter_value("involved", "=", ids_value(&one)));
    let text = json_to_string(&filters);
    Ok(relation_path_from(text.as_str()))
}

/// The name of a one-member filter object (`{name: {...}}`).
pub open spec fn filter_name(f: Json) -> Option<Seq<char>> {
    match f {
        Json::Object(es) => if es.len() == 1 {
            Some(es[0].0)
        } else {
            None
        },
        _ => None,
    }
}

/// Numbers as a JSON array of unsigned numbers.
pub open spec fn number_array(ns: Seq<u64>) -> Json {
    Json::Array(ns.map_values(|n: u64| Json::Number(Num::Unsigned(n))))
}

proof fn lemma_concat_contains(a: Seq<Json>, b: Seq<Json>, x: Json)
    ensures
        (a + b).contains(x) <==> a.contains(x) || b.contains(x),
{
    if a.contains(x) {
        let i = choose|i: int| 0 <= i < a.len() && a[i] == x;
        assert((a + b)[i] == x);
    }
    if b.contains(x) {
        let i = choose|i: int| 0 <= i < b.len() && b[i] == x;
        assert((a + b)[a.len() + i] == x);
    }
    if (a + b).contains(x) {
        let i = choose|i: int| 0 <= i < (a + b).len() && (a + b)[i] == x;
        if i < a.len() {
            assert(a[i] == x);
        } else {
            assert(b[i - a.len()] == x);
        }
    }
}

proof fn lemma_when_contains(c: bool, j: Json, x: Json)
    ensures
        self::when(c, j).contains(x) <==> c && x == j,
{
    if c {
        assert(when(c, j)[0] == j);
    }
}

proof fn lemma_opt_contains(o: Option<Json>, x: Json)
    ensures
        (match o {
            Some(j) => seq![j],
            None => Seq::<Json>::empty(),
        }).contains(x) <==> o == Some(x),
{
    if let Some(j) = o {
        assert(seq![j][0] == j);
    }
}

/// A task listing's filters, whatever their order, are exactly these: open
/// statuses unless `--all` or statuses are given; each given status, type and
/// priority set with operator `=`; the assignee with `=`; the subject search
/// with `~`; the due date with `<=d`; and the day count of `--updated-since`
/// with `>t-`. Each restriction that was asked for has its filter, and no
/// filter restricts anything that was not asked for.
pub proof fn law_task_filters_are_what_was_asked(
    all: bool,
    query: Option<Seq<char>>,
    due_before: Option<Seq<char>>,
    updated_since: Option<Seq<char>>,
    assignee: Option<u64>,
    statuses: Seq<u64>,
    types: Seq<u64>,
    priorities: Seq<u64>,
    f: Json,
)
    requires
        task_filters_of(all, query, due_before, updated_since, assignee, statuses, types, priorities) is Ok,
    ensures
        ({
            let fs = task_filters_of(all, query, due_before, updated_since, assignee, statuses, types, priorities)->Ok_0;
            fs.contains(f) <==> {
                ||| (statuses.len() == 0 && !all && f == Json::Object(seq![("status"@, Json::Object(seq![("operator"@, Json::Str("o"@)), ("values"@, Json::Array(Seq::empty()))]))]))
                ||| (statuses.len() > 0 && f == Json::Object(seq![("status"@, Json::Object(seq![("operator"@, Json::Str("="@)), ("values"@, number_array(statuses))]))]))
                ||| (assignee matches Some(a) && f == Json::Object(seq![("assignee"@, Json::Object(seq![("operator"@, Json::Str("="@)), ("values"@, number_array(seq![a]))]))]))
                ||| (types.len() > 0 && f == Json::Object(seq![("type"@, Json::Object(seq![("operator"@, Json::Str("="@)), ("values"@, number_array(types))]))]))
                ||| (priorities.len() > 0 && f == Json::Object(seq![("priority"@, Json::Object(seq![("operator"@, Json::Str("="@)), ("values"@, number_array(priorities))]))]))
                ||| (query matches Some(q) && f == Json::Object(seq![("subject"@, Json::Object(seq![("operator"@, Json::Str("~"@)), ("values"@, Json::Array(seq![Json::Str(q)]))]))]))
                ||| (due_before matches Some(d) && f == Json::Object(seq![("dueDate"@, Json::Object(seq![("operator"@, Json::Str("<=d"@)), ("values"@, Json::Array(seq![Json::Str(d)]))]))]))
                ||| (updated_since matches Some(v) && exists|n: u64| #![trigger number_array(seq![n])]
                    n > 0 && (parse_unsigned(v, u32::MAX as nat) == Some(n as nat) || (ends_with(v, seq!['d'])
                        && parse_unsigned(v.drop_last(), u32::MAX as nat) == Some(n as nat)))
                        && f == Json::Object(seq![("updatedAt"@, Json::Object(seq![("operator"@, Json::Str(">t-"@)), ("values"@, number_array(seq![n]))]))]))
            }
        }),
{
    let head = task_filter_head_of(all, query, assignee, statuses, types, priorities);
    let p1 = when(statuses.len() == 0 && !all, filter_json("status"@, "o"@, Json::Array(Seq::empty())));
    let p2 = when(statuses.len() > 0, filter_json("status"@, "="@, ids_json(statuses)));
    let p3 = match assignee {
        Some(a) => seq![filter_json("assignee"@, "="@, ids_json(seq![a]))],
        None => Seq::<Json>::empty(),
    };
    let p4 = when(types.len() > 0, filter_json("type"@, "="@, ids_json(types)));
    let p5 = when(priorities.len() > 0, filter_json("priority"@, "="@, ids_json(priorities)));
    let p6 = match query {
        Some(q) => seq![filter_json("subject"@, "~"@, Json::Array(seq![Json::Str(q)]))],
        None => Seq::<Json>::empty(),
    };
    assert(head == p1 + p2 + p3 + p4 + p5 + p6);
    lemma_concat_contains(p1 + p2 + p3 + p4 + p5, p6, f);
    lemma_concat_contains(p1 + p2 + p3 + p4, p5, f);
    lemma_concat_contains(p1 + p2 + p3, p4, f);
    lemma_concat_contains(p1 + p2, p3, f);
    lemma_concat_contains(p1, p2, f);
    lemma_when_contains(statuses.len() == 0 && !all, filter_json("status"@, "o"@, Json::Array(Seq::empty())), f);
    lemma_when_contains(statuses.len() > 0, filter_json("status"@, "="@, ids_json(statuses)), f);
    lemma_when_contains(types.len() > 0, filter_json("type"@, "="@, ids_json(types)), f);
    lemma_when_contains(priorities.len() > 0, filter_json("priority"@, "="@, ids_json(priorities)), f);
    lemma_opt_contains(
        match assignee {
            Some(a) => Some(filter_json("assignee"@, "="@, ids_json(seq![a]))),
            None => None,
        },
        f,
    );
    lemma_opt_contains(
        match query {
            Some(q) => Some(filter_json("subject"@, "~"@, Json::Array(seq![Json::Str(q)]))),
            None => None,
        },
        f,
    );
    let due: Seq<Json> = match due_before {
        None => Seq::empty(),
        Some(d) => seq![filter_json("dueDate"@, "<=d"@, Json::Array(seq![Json::Str(d)]))],
    };
    lemma_opt_contains(
        match due_before {
            Some(d) => Some(filter_json("dueDate"@, "<=d"@, Json::Array(seq![Json::Str(d)]))),
            None => None,
        },
        f,
    );
    lemma_concat_contains(head, due, f);
    match updated_since {
        None => {
            assert(task_filters_of(all, query, due_before, updated_since, assignee, statuses, types, priorities)->Ok_0 == head + due);
        },
        Some(v) => {
            let n = updated_since_of(v)->Ok_0;
            let u = filter_json("updatedAt"@, ">t-"@, Json::Array(seq![Json::Number(Num::Unsigned(n as u64))]));
            assert(number_array(seq![n as u64]) == Json::Array(seq![Json::Number(Num::Unsigned(n as u64))])) by {
                assert(seq![n as u64].map_values(|k: u64| Json::Number(Num::Unsigned(k))) =~= seq![Json::Number(Num::Unsigned(n as u64))]);
            }
            assert(task_filters_of(all, query, due_before, updated_since, assignee, statuses, types, priorities)->Ok_0 == head + due + seq![u]);
            lemma_concat_contains(head + due, seq![u], f);
            lemma_opt_contains(Some(u), f);
            if f == u {
                assert(n as u64 > 0);
            }
            if exists|m: u64| #![trigger number_array(seq![m])]
                m > 0 && (parse_unsigned(v, u32::MAX as nat) == Some(m as nat) || (ends_with(v, seq!['d'])
                    && parse_unsigned(v.drop_last(), u32::MAX as nat) == Some(m as nat)))
                    && f == Json::Object(seq![("updatedAt"@, Json::Object(seq![("operator"@, Json::Str(">t-"@)), ("values"@, number_array(seq![m]))]))]) {
                let m = choose|m: u64| #![trigger number_array(seq![m])]
                    m > 0 && (parse_unsigned(v, u32::MAX as nat) == Some(m as nat) || (ends_with(v, seq!['d'])
                        && parse_unsigned(v.drop_last(), u32::MAX as nat) == Some(m as nat)))
                        && f == Json::Object(seq![("updatedAt"@, Json::Object(seq![("operator"@, Json::Str(">t-"@)), ("values"@, number_array(seq![m]))]))]);
                assert(number_array(seq![m]) == Json::Array(seq![Json::Number(Num::Unsigned(m))])) by {
                    assert(seq![m].map_values(|k: u64| Json::Number(Num::Unsigned(k))) =~= seq![Json::Number(Num::Unsigned(m))]);
                }
                if ends_with(v, seq!['d']) {
                    assert(v.skip(v.len() - 1)[0] == v[v.len() - 1]);
                    assert(v[v.len() - 1] == 'd');
                    if parse_unsigned(v, u32::MAX as nat) is Some {
                        let w = if v.len() > 0 && v[0] == '+' { v.drop_first() } else { v };
                        assert(w[w.len() - 1] == v[v.len() - 1]);
                        assert(crate::text::is_ascii_digit(w[w.len() - 1]));
                    }
                }
                assert(m as nat == n);
            }
        },
    }
}

proof fn lemma_sort_criterion_shape(v: Seq<char>)
    requires
        sort_criterion_of(v) is Ok,
    ensures
        sort_criterion_of(v)->Ok_0 matches Json::Array(pair) && pair.len() == 2 && pair[0] is Str
            && (pair[1] == Json::Str("asc"@) || pair[1] == Json::Str("desc"@))
            && (split_once(v, ':') is None ==> pair[1] == Json::Str("asc"@)),
{
    reveal_strlit("asc");
    if split_once(v, ':') is None {
        assert(lower_seq("asc"@) =~= "asc"@);
    }
}

/// Sorting asks for one criterion per `--sort` value, in order: each a field
/// name and a direction, `asc` or `desc`, ascending when the value names no
/// direction.
pub proof fn law_sort_criteria_follow_the_values(values: Seq<Seq<char>>)
    requires
        sort_of(values) is Ok,
    ensures
        ({
            let cs = sort_of(values)->Ok_0;
            &&& cs.len() == values.len()
            &&& forall|i: int| #![trigger cs[i]] 0 <= i < cs.len() ==> (cs[i] matches Json::Array(pair) && pair.len() == 2
                && pair[0] is Str && (pair[1] == Json::Str("asc"@) || pair[1] == Json::Str("desc"@))
                && (split_once(values[i], ':') is None ==> pair[1] == Json::Str("asc"@)))
        }),
    decreases values.len(),
{
    if values.len() > 0 {
        law_sort_criteria_follow_the_values(values.drop_last());
        lemma_sort_criterion_shape(values.last());
        let cs = sort_of(values)->Ok_0;
        let prev = sort_of(values.drop_last())->Ok_0;
        assert forall|i: int| #![trigger cs[i]] 0 <= i < cs.len() implies (cs[i] matches Json::Array(pair) && pair.len() == 2
            && pair[0] is Str && (pair[1] == Json::Str("asc"@) || pair[1] == Json::Str("desc"@))
            && (split_once(values[i], ':') is None ==> pair[1] == Json::Str("asc"@))) by {
            if i < prev.len() {
                assert(cs[i] == prev[i]);
                assert(values[i] == values.drop_last()[i]);
            }
        }
    }
}

} // verus!
