//! The API client's decisions: which URL a request goes to (never another
//! origin with the token), when a request is retried and after how long, what
//! a response yields, and how collections are paged.

use vstd::prelude::*;

use crate::activities::page_entries_of;
use crate::config::{canonical_host, canonical_host_of};
use crate::error::{outcome, CliError, ErrorKind, Failure};
use crate::json::{
    at_path, key_views, lemma_model_entries, lemma_model_items, member, model_items, pointer, str_of,
    Json, JsonValue,
};
use crate::outside::{
    json_parse_model, json_result_view, parse_json, parse_url, url_parse_model, url_result_view, UrlParts, UrlPartsView,
};
use crate::text::{
    chars_of, contains_seq, decimal, decimal_chars, has_piece, has_prefix, parse_unsigned,
    parse_unsigned_chars, push_chars, push_str, starts_with, str_eq, string_of, trim,
    trim_chars, trim_start_char, trim_start_matching,
};

verus! {

/// Where requests go: the canonical host and its API base.
#[derive(Debug)]
pub struct Endpoint {
    pub host: String,
    pub base: String,
}

/// The API base of a canonical host.
pub open spec fn api_base(host: Seq<char>) -> Seq<char> {
    host + "/api/v3"@
}

impl Endpoint {
    /// The endpoint of a host given by the user.
    pub fn new(host: &str) -> (r: Result<Endpoint, CliError>)
        ensures
            outcome(r, |e: Endpoint| e.host@) == canonical_host_of(host@),
            r matches Ok(e) ==> e.base@ == api_base(e.host@),
    {
        let h = match canonical_host(host) {
            Ok(h) => h,
            Err(e) => return Err(e),
        };
        let mut b = chars_of(h.as_str());
        push_str(&mut b, "/api/v3");
        Ok(Endpoint { host: h, base: string_of(&b) })
    }
}

/// Whether two parsed URLs have the same scheme, host and port (known default
/// ports included).
pub open spec fn same_origin(a: UrlPartsView, b: UrlPartsView) -> bool {
    a.scheme == b.scheme && a.host == b.host && a.port == b.port
}

/// An absolute request URL, given what the URL parser made of it and of the
/// host: accepted only when both parse and have the same origin.
pub open spec fn absolute_url_of(
    path: Seq<char>,
    target: Result<UrlPartsView, Seq<char>>,
    host: Result<UrlPartsView, Seq<char>>,
) -> Result<Seq<char>, Failure> {
    match target {
        Err(d) => Err((ErrorKind::UrlParse, seq![d])),
        Ok(u) => match host {
            Err(d) => Err((ErrorKind::UrlParse, seq![d])),
            Ok(h) => if same_origin(u, h) {
                Ok(path)
            } else {
                Err((ErrorKind::CrossHostUrl, Seq::<Seq<char>>::empty()))
            },
        },
    }
}

/// Checks an absolute request URL against the host, given what the URL parser
/// made of each.
pub fn absolute_url(path: &str, target: Result<UrlParts, String>, host: Result<UrlParts, String>) -> (r: Result<String, CliError>)
    ensures
        outcome(r, |s: String| s@) == absolute_url_of(path@, url_result_view(target), url_result_view(host)),
{
    let u = match target {
        Ok(u) => u,
        Err(d) => return Err(CliError::with(ErrorKind::UrlParse, d)),
    };
    let h = match host {
        Ok(h) => h,
        Err(d) => return Err(CliError::with(ErrorKind::UrlParse, d)),
    };
    let same_host = match (&u.host, &h.host) {
        (Some(a), Some(b)) => str_eq(a.as_str(), b.as_str()),
        (None, None) => true,
        _ => false,
    };
    if !str_eq(u.scheme.as_str(), h.scheme.as_str()) || !same_host || u.port != h.port {
        return Err(CliError::new(ErrorKind::CrossHostUrl));
    }
    Ok(path.to_owned())
}

/// Where a request for `path` goes: an absolute URL only when it has the
/// host's origin; an API path under the host; anything else under the API base.
pub open spec fn request_url_of(host: Seq<char>, base: Seq<char>, path: Seq<char>) -> Result<Seq<char>, Failure> {
    if starts_with(path, "http://"@) || starts_with(path, "https://"@) {
        absolute_url_of(path, url_parse_model(path), url_parse_model(host))
    } else if starts_with(path, "/api/v3/"@) || path == "/api/v3"@ {
        Ok(host + path)
    } else {
        Ok(base + seq!['/'] + trim_start_char(path, '/'))
    }
}

impl Endpoint {
    /// The URL a request for `path` is sent to, with the token.
    pub fn url(&self, path: &str) -> (r: Result<String, CliError>)
        ensures
            outcome(r, |s: String| s@) == request_url_of(self.host@, self.base@, path@),
    {
        let p = chars_of(path);
        if has_prefix(&p, &chars_of("http://")) || has_prefix(&p, &chars_of("https://")) {
            let target = parse_url(path);
            let host = parse_url(self.host.as_str());
            return absolute_url(path, target, host);
        }
        if has_prefix(&p, &chars_of("/api/v3/")) || str_eq(path, "/api/v3") {
            let mut v = chars_of(self.host.as_str());
            push_chars(&mut v, &p);
            assert(v@ =~= self.host@ + path@);
            Ok(string_of(&v))
        } else {
            let mut v = chars_of(self.base.as_str());
            v.push('/');
            let t = trim_start_matching(&p, '/');
            push_chars(&mut v, &t);
            assert(v@ =~= self.base@ + seq!['/'] + trim_start_char(path@, '/'));
            Ok(string_of(&v))
        }
    }
}

/// Credentials never go to another origin: a request URL is either built under
/// the endpoint's host or is an absolute URL with the host's scheme, host and port.
pub proof fn law_requests_stay_on_the_host(host: Seq<char>, path: Seq<char>)
    requires
        request_url_of(host, api_base(host), path) is Ok,
    ensures
        ({
            let u = request_url_of(host, api_base(host), path)->Ok_0;
            ||| starts_with(u, host)
            ||| (url_parse_model(u) matches Ok(a) && url_parse_model(host) matches Ok(b) && same_origin(a, b))
        }),
{
    let u = request_url_of(host, api_base(host), path)->Ok_0;
    if starts_with(path, "http://"@) || starts_with(path, "https://"@) {
    } else if starts_with(path, "/api/v3/"@) || path == "/api/v3"@ {
        assert(u.take(host.len() as int) =~= host);
    } else {
        assert(u.take(host.len() as int) =~= host);
    }
}

/// How many times a request is retried: reads twice, writes never.
pub open spec fn retry_limit_of(is_get: bool) -> u32 {
    if is_get {
        2
    } else {
        0
    }
}

/// The number of retries of a request.
pub fn retry_limit(is_get: bool) -> (r: u32)
    ensures
        r == retry_limit_of(is_get),
{
    if is_get {
        2
    } else {
        0
    }
}

/// What one attempt to send a request gave.
#[derive(Debug)]
pub enum SendOutcome {
    /// A response with its status and `Retry-After` header, if readable.
    Response(u16, Option<String>),
    /// No response (connection or transport failure).
    Failed,
}

/// What the client does after an attempt.
#[derive(Debug, Clone, Copy, PartialEq, Eq, Structural)]
pub enum NextStep {
    /// Wait this many seconds and send again.
    Retry(u64),
    /// Handle the response.
    Finish,
    /// Report that OpenProject could not be reached.
    Fail,
}

/// Whether a status asks for a retry: 429 or a server error.
pub open spec fn retryable_status(status: u16) -> bool {
    status == 429 || (500 <= status && status <= 599)
}

/// The wait a `Retry-After` header asks for: its seconds when it is a number,
/// else one second, at most ten.
pub open spec fn retry_wait_of(header: Option<Seq<char>>) -> u64 {
    let asked = match header {
        Some(h) => match parse_unsigned(h, u64::MAX as nat) {
            Some(n) => n,
            None => 1,
        },
        None => 1,
    };
    if asked < 10 {
        asked as u64
    } else {
        10
    }
}

/// The next step after attempt `attempt` (counted from 0) of a request with
/// `retries` retries.
pub open spec fn next_step_of(attempt: u32, retries: u32, outcome: SendOutcome) -> NextStep {
    match outcome {
        SendOutcome::Response(status, header) => if attempt < retries && retryable_status(status) {
            NextStep::Retry(
                retry_wait_of(
                    match header {
                        Some(h) => Some(h@),
                        None => None,
                    },
                ),
            )
        } else {
            NextStep::Finish
        },
        SendOutcome::Failed => if attempt < retries {
            NextStep::Retry((attempt + 1) as u64)
        } else {
            NextStep::Fail
        },
    }
}

/// The wait a `Retry-After` header asks for.
pub fn retry_wait(header: &Option<String>) -> (r: u64)
    ensures
        r == retry_wait_of(
            match header {
                Some(h) => Some(h@),
                None => None,
            },
        ),
{
    let asked: u64 = match header {
        Some(h) => match parse_unsigned_chars(&chars_of(h.as_str()), u64::MAX) {
            Some(n) => n,
            None => 1,
        },
        None => 1,
    };
    if asked < 10 {
        asked
    } else {
        10
    }
}

/// What the client does after an attempt.
pub fn next_step(attempt: u32, retries: u32, outcome: &SendOutcome) -> (r: NextStep)
    requires
        attempt < u32::MAX,
    ensures
        r == next_step_of(attempt, retries, *outcome),
{
    match outcome {
        SendOutcome::Response(status, header) => {
            if attempt < retries && (*status == 429 || (500 <= *status && *status <= 599)) {
                NextStep::Retry(retry_wait(header))
            } else {
                NextStep::Finish
            }
        },
        SendOutcome::Failed => {
            if attempt < retries {
                NextStep::Retry((attempt + 1) as u64)
            } else {
                NextStep::Fail
            }
        },
    }
}

/// A request is sent at most `retries + 1` times: from the last allowed
/// attempt on, the client never retries.
pub proof fn law_retries_are_bounded(attempt: u32, retries: u32, outcome: SendOutcome)
    requires
        attempt >= retries,
    ensures
        !(next_step_of(attempt, retries, outcome) is Retry),
{
}

/// A retry after a response waits at most ten seconds; a retry after a failed
/// connection waits one second more than the attempt before.
pub proof fn law_retry_waits_are_short(attempt: u32, retries: u32, outcome: SendOutcome)
    requires
        next_step_of(attempt, retries, outcome) is Retry,
    ensures
        outcome is Response ==> next_step_of(attempt, retries, outcome)->Retry_0 <= 10,
        outcome is Failed ==> next_step_of(attempt, retries, outcome)->Retry_0 == attempt + 1,
{
}

/// The error detail of a failed response with body `text`, given what the JSON
/// parser made of it: the body's `message`, else its `errorIdentifier`, when
/// that member is a string; else the body's text.
pub open spec fn detail_of_parsed(text: Seq<char>, parsed: Result<Json, Seq<char>>) -> Seq<char> {
    match parsed {
        Ok(v) => {
            let m = if member(v, "message"@) is Some {
                member(v, "message"@)
            } else {
                member(v, "errorIdentifier"@)
            };
            match str_of(m) {
                Some(s) => s,
                None => text,
            }
        },
        Err(_) => text,
    }
}

/// The error detail of a failed response.
pub open spec fn error_detail_of(text: Seq<char>) -> Seq<char> {
    detail_of_parsed(text, json_parse_model(text))
}

/// The value of a successful, non-empty response, given what the JSON parser
/// made of its body.
pub open spec fn body_of_parsed(parsed: Result<Json, Seq<char>>) -> Result<Json, Failure> {
    match parsed {
        Ok(v) => Ok(v),
        Err(d) => Err((ErrorKind::InvalidResponseJson, seq![d])),
    }
}

/// What a response yields: for a non-success status, the HTTP failure with its
/// detail; for an empty body, an empty object; else the parsed body.
pub open spec fn response_of(status: u16, text: Seq<char>) -> Result<Json, Failure> {
    if !(200 <= status && status <= 299) {
        Err((ErrorKind::Http, seq![decimal(status as nat), error_detail_of(text)]))
    } else if trim(text).len() == 0 {
        Ok(Json::Object(Seq::empty()))
    } else {
        body_of_parsed(json_parse_model(text))
    }
}

/// The error detail of a failed response, given what the JSON parser made of
/// its body.
pub fn detail_from_parsed(text: &str, parsed: Result<JsonValue, String>) -> (r: String)
    ensures
        r@ == detail_of_parsed(text@, json_result_view(parsed)),
{
    match parsed {
        Ok(v) => {
            let m = match v.get("message") {
                Some(x) => Some(x),
                None => v.get("errorIdentifier"),
            };
            match m {
                Some(x) => match x.as_str() {
                    Some(s) => s.clone(),
                    None => text.to_owned(),
                },
                None => text.to_owned(),
            }
        },
        Err(_) => text.to_owned(),
    }
}

/// The error detail of a failed response.
pub fn error_detail(text: &str) -> (r: String)
    ensures
        r@ == error_detail_of(text@),
{
    detail_from_parsed(text, parse_json(text))
}

/// The value of a successful, non-empty response, given what the JSON parser
/// made of its body.
pub fn body_from_parsed(parsed: Result<JsonValue, String>) -> (r: Result<JsonValue, CliError>)
    ensures
        outcome(r, |v: JsonValue| v.model()) == body_of_parsed(json_result_view(parsed)),
{
    match parsed {
        Ok(v) => Ok(v),
        Err(d) => Err(CliError::with(ErrorKind::InvalidResponseJson, d)),
    }
}

/// The value of a response with status `status` and body `text`.
pub fn response_value(status: u16, text: &str) -> (r: Result<JsonValue, CliError>)
    ensures
        outcome(r, |v: JsonValue| v.model()) == response_of(status, text@),
{
    if !(200 <= status && status <= 299) {
        let code = string_of(&decimal_chars(status as u64));
        return Err(CliError::with2(ErrorKind::Http, code, error_detail(text)));
    }
    if trim_chars(&chars_of(text)).len() == 0 {
        let es: Vec<(String, JsonValue)> = Vec::new();
        proof {
            lemma_model_entries(es@);
        }
        assert(crate::json::model_entries(es@) =~= Seq::<(Seq<char>, Json)>::empty());
        return Ok(JsonValue::Object(es));
    }
    body_from_parsed(parse_json(text))
}

/// The first request of a whole collection: pages of a hundred.
pub fn collection_start(path: &str) -> (r: String)
    ensures
        r@ == path@ + "?pageSize=100"@,
{
    let mut v = chars_of(path);
    push_str(&mut v, "?pageSize=100");
    string_of(&v)
}

/// The link to the next page of a collection.
pub open spec fn next_page_of(page: Json) -> Option<Seq<char>> {
    str_of(at_path(page, seq!["_links"@, "nextByOffset"@, "href"@]))
}

/// What one page of a collection adds (its elements) and where the next page
/// is, if anywhere.
pub fn collection_step(page: &JsonValue) -> (r: (Vec<JsonValue>, Option<String>))
    ensures
        model_items(r.0@) == page_entries_of(page.model()),
        match r.1 {
            Some(s) => next_page_of(page.model()) == Some(s@),
            None => next_page_of(page.model()) is None,
        },
{
    let ek = vec!["_embedded", "elements"];
    assert(key_views(ek@) =~= seq!["_embedded"@, "elements"@]);
    let items: Vec<JsonValue> = match pointer(page, &ek) {
        Some(x) => match x.as_array() {
            Some(a) => {
                let mut out: Vec<JsonValue> = Vec::new();
                proof {
                    lemma_model_items(a@);
                    lemma_model_items(out@);
                }
                let mut i: usize = 0;
                while i < a.len()
                    invariant
                        i <= a.len(),
                        model_items(a@).len() == a.len(),
                        forall|k: int| 0 <= k < a.len() ==> #[trigger] model_items(a@)[k] == a@[k].model(),
                        model_items(out@) =~= model_items(a@).take(i as int),
                    decreases a.len() - i,
                {
                    let c = a[i].copy();
                    proof {
                        crate::json::lemma_model_items_push(out@, c);
                    }
                    out.push(c);
                    i = i + 1;
                }
                assert(model_items(a@).take(a.len() as int) =~= model_items(a@));
                out
            },
            None => {
                let out: Vec<JsonValue> = Vec::new();
                proof {
                    lemma_model_items(out@);
                }
                assert(model_items(out@) =~= Seq::<Json>::empty());
                out
            },
        },
        None => {
            let out: Vec<JsonValue> = Vec::new();
            proof {
                lemma_model_items(out@);
            }
            assert(model_items(out@) =~= Seq::<Json>::empty());
            out
        },
    };
    let nk = vec!["_links", "nextByOffset", "href"];
    assert(key_views(nk@) =~= seq!["_links"@, "nextByOffset"@, "href"@]);
    let next = match pointer(page, &nk) {
        Some(x) => match x.as_str() {
            Some(s) => Some(s.clone()),
            None => None,
        },
        None => None,
    };
    (items, next)
}

/// One page of a listing: `pageSize` and `offset` added to the path's query.
pub open spec fn page_path_of(path: Seq<char>, limit: u32, offset: u32) -> Seq<char> {
    path + (if contains_seq(path, seq!['?']) {
        seq!['&']
    } else {
        seq!['?']
    }) + "pageSize="@ + decimal(limit as nat) + "&offset="@ + decimal(offset as nat)
}

/// The path of one page of a listing.
pub fn page_path(path: &str, limit: u32, offset: u32) -> (r: String)
    ensures
        r@ == page_path_of(path@, limit, offset),
{
    let p = chars_of(path);
    let mut q: Vec<char> = Vec::new();
    q.push('?');
    let sep = if has_piece(&p, &q) { '&' } else { '?' };
    let mut v = p;
    v.push(sep);
    push_str(&mut v, "pageSize=");
    push_chars(&mut v, &decimal_chars(limit as u64));
    push_str(&mut v, "&offset=");
    push_chars(&mut v, &decimal_chars(offset as u64));
    assert(q@ =~= seq!['?']);
    string_of(&v)
}

} // verus!
