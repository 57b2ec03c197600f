//! Calls into the `url`, `regex`, `chrono` and `serde_json` crates and into
//! std's string formatting, each with the contract the library relies on.

use vstd::prelude::*;
use serde_json::Value;
use vstd::utf8::encode_utf8;

use crate::json::{Json, JsonNumber, JsonValue};

verus! {

/// The parts of a parsed URL that the client reads.
#[derive(Debug)]
pub struct UrlParts {
    pub scheme: String,
    pub host: Option<String>,
    /// `Url::port_or_known_default`.
    pub port: Option<u16>,
    pub path: String,
}

pub struct UrlPartsView {
    pub scheme: Seq<char>,
    pub host: Option<Seq<char>>,
    pub port: Option<u16>,
    pub path: Seq<char>,
}

pub open spec fn opt_view(o: Option<String>) -> Option<Seq<char>> {
    match o {
        Some(s) => Some(s@),
        None => None,
    }
}

impl View for UrlParts {
    type V = UrlPartsView;

    open spec fn view(&self) -> UrlPartsView {
        UrlPartsView {
            scheme: self.scheme@,
            host: opt_view(self.host),
            port: self.port,
            path: self.path@,
        }
    }
}

/// The view of what `parse_url` returned.
pub open spec fn url_result_view(r: Result<UrlParts, String>) -> Result<UrlPartsView, Seq<char>> {
    match r {
        Ok(p) => Ok(p@),
        Err(e) => Err(e@),
    }
}

/// What `url::Url::parse` makes of `input`: the parts of the URL, or the text of
/// the parse error.
pub uninterp spec fn url_parse_model(input: Seq<char>) -> Result<UrlPartsView, Seq<char>>;

/// Calls `url::Url::parse` and reads the parts of the result: `scheme`,
/// `host_str`, `port_or_known_default` and `path`; on failure, the `Display`
/// text of the `ParseError`. Claimed: the outcome is a function of the input
/// (named `url_parse_model`); nothing is claimed of the parts themselves.
#[verifier::external_body]
pub(crate) fn parse_url(input: &str) -> (r: Result<UrlParts, String>)
    ensures
        match r {
            Ok(p) => url_parse_model(input@) == Ok::<UrlPartsView, Seq<char>>(p@),
            Err(e) => url_parse_model(input@) == Err::<UrlPartsView, Seq<char>>(e@),
        },
{
    match url::Url::parse(input) {
        Ok(u) => Ok(
            UrlParts {
                scheme: u.scheme().to_owned(),
                host: u.host_str().map(str::to_owned),
                port: u.port_or_known_default(),
                path: u.path().to_owned(),
            },
        ),
        Err(e) => Err(e.to_string()),
    }
}

/// The serialization `url::Url` gives `input` once its query and fragment are
/// removed and its path is set to `path`.
pub uninterp spec fn url_with_path_model(input: Seq<char>, path: Seq<char>) -> Option<Seq<char>>;

/// Parses `input` with `url::Url::parse`, then calls `set_query(None)`,
/// `set_fragment(None)` and `set_path(path)` on it and returns `as_str`.
/// Claimed: the outcome is a function of `input` and `path` (named
/// `url_with_path_model`), and it is `None` exactly when parsing fails, which is
/// when `parse_url` fails on the same input.
#[verifier::external_body]
pub(crate) fn url_with_path(input: &str, path: &str) -> (r: Option<String>)
    ensures
        match r {
            Some(s) => url_with_path_model(input@, path@) == Some(s@),
            None => url_with_path_model(input@, path@) is None,
        },
        r is Some <==> url_parse_model(input@) is Ok,
{
    let mut u = url::Url::parse(input).ok()?;
    u.set_query(None);
    u.set_fragment(None);
    u.set_path(path);
    Some(u.as_str().to_owned())
}

/// Bytes that the form-urlencoded serializer copies unchanged.
pub open spec fn form_unchanged(b: u8) -> bool {
    b == 0x2a || b == 0x2d || b == 0x2e || (0x30 <= b && b <= 0x39) || (0x41 <= b && b <= 0x5a)
        || b == 0x5f || (0x61 <= b && b <= 0x7a)
}

/// An upper-case hexadecimal digit.
pub open spec fn hex_upper(d: u8) -> char {
    if d < 10 {
        ((d + 0x30) as u8) as char
    } else {
        ((d + 0x37) as u8) as char
    }
}

/// The serialization of one byte: unchanged, `+` for a space, `%XX` otherwise.
pub open spec fn form_byte(b: u8) -> Seq<char> {
    if form_unchanged(b) {
        seq![b as char]
    } else if b == 0x20 {
        seq!['+']
    } else {
        seq!['%', hex_upper(b / 16), hex_upper(b % 16)]
    }
}

pub open spec fn form_bytes(bs: Seq<u8>) -> Seq<char>
    decreases bs.len(),
{
    if bs.len() == 0 {
        Seq::empty()
    } else {
        form_byte(bs[0]) + form_bytes(bs.drop_first())
    }
}

/// The `application/x-www-form-urlencoded` byte serialization of the UTF-8 text of `s`.
pub open spec fn form_encoded(s: Seq<char>) -> Seq<char> {
    form_bytes(encode_utf8(s))
}

/// Calls `url::form_urlencoded::byte_serialize` on the UTF-8 bytes of `s`.
/// Claimed, as the crate's source shows: bytes `*-._`, ASCII digits and letters
/// are copied, a space becomes `+`, every other byte becomes `%` and two
/// upper-case hex digits.
#[verifier::external_body]
pub(crate) fn form_urlencode(s: &str) -> (r: String)
    ensures
        r@ == form_encoded(s@),
{
    url::form_urlencoded::byte_serialize(s.as_bytes()).collect()
}

/// `target` with one more `name=value` pair: a `&` first when `target` is not
/// empty, then the serialized name, `=`, and the serialized value.
pub open spec fn form_pair(target: Seq<char>, name: Seq<char>, value: Seq<char>) -> Seq<char> {
    target + (if target.len() > 0 {
        seq!['&']
    } else {
        Seq::<char>::empty()
    }) + form_encoded(name) + seq!['='] + form_encoded(value)
}

/// Calls `url::form_urlencoded::Serializer::append_pair` on a serializer over
/// `target`. Claimed, as the crate's source shows: a `&` is added when the target
/// is not empty, then the serialized name, `=`, and the serialized value.
#[verifier::external_body]
pub(crate) fn append_form_pair(target: &mut String, name: &str, value: &str)
    ensures
        final(target)@ == form_pair(old(target)@, name@, value@),
{
    url::form_urlencoded::Serializer::new(target).append_pair(name, value);
}

/// Whether `regex::Regex::new(pattern)` compiles and matches `text`.
pub uninterp spec fn regex_match(pattern: Seq<char>, text: Seq<char>) -> Option<bool>;

/// Calls `regex::Regex::new` and `Regex::is_match`. Claimed: the outcome is a
/// function of the pattern and the text (named `regex_match`), `None` when the
/// pattern does not compile.
#[verifier::external_body]
pub(crate) fn regex_is_match(pattern: &str, text: &str) -> (r: Option<bool>)
    ensures
        r == regex_match(pattern@, text@),
{
    regex::Regex::new(pattern).ok().map(|re| re.is_match(text))
}

/// What `regex::Regex::new(pattern)` and `Regex::captures(text)` give for the
/// first two groups.
pub uninterp spec fn regex_two_groups(pattern: Seq<char>, text: Seq<char>) -> Option<
    Option<(Seq<char>, Seq<char>)>,
>;

/// Calls `regex::Regex::new` and `Regex::captures`, reading groups 1 and 2.
/// Claimed: the outcome is a function of the pattern and the text (named
/// `regex_two_groups`): `None` when the pattern does not compile, `Some(None)`
/// when there is no match or a group took no part in it.
#[verifier::external_body]
pub(crate) fn regex_capture_pair(pattern: &str, text: &str) -> (r: Option<Option<(String, String)>>)
    ensures
        match r {
            None => regex_two_groups(pattern@, text@) is None,
            Some(None) => regex_two_groups(pattern@, text@) == Some(
                None::<(Seq<char>, Seq<char>)>,
            ),
            Some(Some((a, b))) => regex_two_groups(pattern@, text@) == Some(Some((a@, b@))),
        },
{
    regex::Regex::new(pattern).ok().map(
        |re|
            re.captures(text).and_then(
                |c| Some((c.get(1)?.as_str().to_owned(), c.get(2)?.as_str().to_owned())),
            ),
    )
}

/// What `chrono::NaiveDate::parse_from_str(text, format)` reports: nothing when
/// the text is a date in the format, else the `Display` text of its error.
pub uninterp spec fn date_parse_error(text: Seq<char>, format: Seq<char>) -> Option<Seq<char>>;

/// Calls `chrono::NaiveDate::parse_from_str`. Claimed: the outcome is a function
/// of the text and the format (named `date_parse_error`): `None` on success,
/// else the error's text.
#[verifier::external_body]
pub(crate) fn naive_date_check(text: &str, format: &str) -> (r: Option<String>)
    ensures
        match r {
            None => date_parse_error(text@, format@) is None,
            Some(e) => date_parse_error(text@, format@) == Some(e@),
        },
{
    chrono::NaiveDate::parse_from_str(text, format).err().map(|e| e.to_string())
}

/// The `Display` text of the error of `str::parse::<u32>` on `text`, when it fails.
pub uninterp spec fn u32_parse_error(text: Seq<char>) -> Seq<char>;

/// Calls `str::parse::<u32>`. Claimed, as std documents: it fails exactly when
/// the text is not an optional `+` and ASCII digits of a value that fits in a
/// `u32`; the error's text is named `u32_parse_error`.
#[verifier::external_body]
pub(crate) fn u32_parse_failure(text: &str) -> (r: Option<String>)
    ensures
        match r {
            None => crate::text::parse_unsigned(text@, u32::MAX as nat) is Some,
            Some(e) => crate::text::parse_unsigned(text@, u32::MAX as nat) is None && e@ == u32_parse_error(text@),
        },
{
    text.parse::<u32>().err().map(|e| e.to_string())
}

/// The text that std's `Debug` formatting of a `str` writes: the string quoted,
/// with special characters escaped.
pub uninterp spec fn debug_quoted(s: Seq<char>) -> Seq<char>;

/// Formats `s` with std's `Debug` for `str` (`format!("{s:?}")`). Claimed: the
/// result is a function of `s` (named `debug_quoted`).
#[verifier::external_body]
pub(crate) fn debug_text(s: &str) -> (r: String)
    ensures
        r@ == debug_quoted(s@),
{
    format!("{s:?}")
}

/// `serde_json::Value`, carried only between the parser and its conversion.
#[verifier::external_type_specification]
#[verifier::external_body]
pub struct ExSerdeValue(serde_json::Value);

/// Converts a parsed `serde_json::Value` into the library's tree, variant by
/// variant. `serde_json::Number` keeps its kind private; `as_u64` and `as_i64`
/// tell its three kinds apart: a non-negative integer becomes `Unsigned`, a
/// negative one `Negative`, any other number `Other` with its `Display` text.
/// Nothing is claimed of it; the parser's contract speaks of its result.
#[verifier::external_body]
fn from_serde(v: Value) -> JsonValue {
    match v {
        Value::Null => JsonValue::Null,
        Value::Bool(b) => JsonValue::Bool(b),
        Value::Number(n) => JsonValue::Number(match (n.as_u64(), n.as_i64()) {
            (Some(u), _) => JsonNumber::Unsigned(u),
            (None, Some(i)) => JsonNumber::Negative(i),
            (None, None) => JsonNumber::Other(n.to_string()),
        }),
        Value::String(s) => JsonValue::String(s),
        Value::Array(a) => JsonValue::Array(a.into_iter().map(from_serde).collect()),
        Value::Object(m) => JsonValue::Object(m.into_iter().map(|(k, x)| (k, from_serde(x))).collect()),
    }
}

/// The view of what `parse_json` returned.
pub open spec fn json_result_view(r: Result<JsonValue, String>) -> Result<Json, Seq<char>> {
    match r {
        Ok(v) => Ok(v.model()),
        Err(e) => Err(e@),
    }
}

/// What `serde_json::from_str::<serde_json::Value>` makes of `text`: the
/// document, or the `Display` text of the error.
pub uninterp spec fn json_parse_model(text: Seq<char>) -> Result<Json, Seq<char>>;

/// Calls `serde_json::from_str::<serde_json::Value>`. Claimed: the outcome is a
/// function of the text (named `json_parse_model`); on success the document as
/// the library's tree, on failure the error's text.
#[verifier::external_body]
pub(crate) fn parse_json(text: &str) -> (r: Result<JsonValue, String>)
    ensures
        match r {
            Ok(v) => json_parse_model(text@) == Ok::<Json, Seq<char>>(v.model()),
            Err(e) => json_parse_model(text@) == Err::<Json, Seq<char>>(e@),
        },
{
    match serde_json::from_str::<Value>(text) {
        Ok(v) => Ok(from_serde(v)),
        Err(e) => Err(e.to_string()),
    }
}

/// Converts the library's tree into a `serde_json::Value`, variant by variant;
/// a number kept as text is read back with `serde_json::Number`'s `FromStr`
/// (`null` where that fails). Nothing is claimed of it; the serializer's
/// contract speaks of its result.
#[verifier::external_body]
fn to_serde(v: &JsonValue) -> Value {
    match v {
        JsonValue::Null => Value::Null,
        JsonValue::Bool(b) => Value::Bool(*b),
        JsonValue::Number(JsonNumber::Unsigned(n)) => Value::from(*n),
        JsonValue::Number(JsonNumber::Negative(n)) => Value::from(*n),
        JsonValue::Number(JsonNumber::Other(t)) => t.parse().map(Value::Number).unwrap_or_default(),
        JsonValue::String(s) => Value::String(s.clone()),
        JsonValue::Array(a) => Value::Array(a.iter().map(to_serde).collect()),
        JsonValue::Object(es) => Value::Object(es.iter().map(|(k, x)| (k.clone(), to_serde(x))).collect()),
    }
}

/// The compact JSON text that serde_json writes for a document
/// (`serde_json::to_string`, or `Display` of a `serde_json::Value`).
pub uninterp spec fn json_string_model(j: Json) -> Seq<char>;

/// Writes the document as compact JSON text with `Display` for
/// `serde_json::Value`, which is `serde_json::to_string`'s output. Claimed: the
/// text is a function of the document (named `json_string_model`).
#[verifier::external_body]
pub(crate) fn json_to_string(v: &JsonValue) -> (r: String)
    ensures
        r@ == json_string_model(v.model()),
{
    to_serde(v).to_string()
}

} // verus!
