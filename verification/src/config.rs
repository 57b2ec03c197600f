//! Configuration: the global and repository settings files, their allowed keys,
//! host precedence and host canonicalization.

use vstd::prelude::*;

use crate::credentials::CredentialStoreKind;
use crate::error::{outcome, CliError, ErrorKind, Failure};
use crate::json::{
    entries_insert, entries_remove, key_index, keys_unique, lookup, model_entries, object_insert,
    object_remove, Json, JsonValue, Num,
};
use crate::outside::{
    form_encoded, form_urlencode, json_parse_model, opt_view, parse_json, parse_url, url_parse_model,
    url_result_view, url_with_path, url_with_path_model, UrlParts, UrlPartsView,
};
use crate::text::{
    chars_of, decimal, decimal_string, str_eq, string_of, trim, trim_chars, trim_end_char,
    trim_end_matching,
};

verus! {

/// The settings of one configuration file: the entries of its JSON object.
pub type Settings = Vec<(String, JsonValue)>;

/// Keys a global configuration file may hold.
pub open spec fn global_keys() -> Seq<Seq<char>> {
    seq!["host"@, "credential_store"@]
}

/// Keys a repository configuration file may hold.
pub open spec fn project_keys() -> Seq<Seq<char>> {
    seq!["host"@, "project_id"@, "project"@]
}

/// The effective configuration.
#[derive(Debug, PartialEq)]
pub struct Config {
    pub host: Option<String>,
    pub project: Option<String>,
    pub credential_store: Option<CredentialStoreKind>,
}

pub struct ConfigView {
    pub host: Option<Seq<char>>,
    pub project: Option<Seq<char>>,
    pub credential_store: Option<CredentialStoreKind>,
}

impl View for Config {
    type V = ConfigView;

    open spec fn view(&self) -> ConfigView {
        ConfigView {
            host: opt_view(self.host),
            project: opt_view(self.project),
            credential_store: self.credential_store,
        }
    }
}

pub open spec fn key_allowed(allowed: Seq<Seq<char>>, key: Seq<char>) -> bool {
    allowed.contains(key)
}

/// All entries before index `i` have supported keys.
pub open spec fn supported_before(es: Seq<(Seq<char>, Json)>, allowed: Seq<Seq<char>>, i: int) -> bool {
    forall|j: int| 0 <= j < i ==> key_allowed(allowed, #[trigger] es[j].0)
}

/// The first entry whose key is not supported.
pub open spec fn first_unsupported(es: Seq<(Seq<char>, Json)>, allowed: Seq<Seq<char>>) -> Option<int> {
    if exists|i: int|
        0 <= i < es.len() && !key_allowed(allowed, es[i].0) && supported_before(es, allowed, i) {
        Some(
            choose|i: int|
                0 <= i < es.len() && !key_allowed(allowed, es[i].0) && supported_before(
                    es,
                    allowed,
                    i,
                ),
        )
    } else {
        None
    }
}

/// Keys are checked in the file's order; the first unsupported one is reported.
pub open spec fn keys_check(es: Seq<(Seq<char>, Json)>, allowed: Seq<Seq<char>>, path: Seq<char>) -> Result<(), Failure> {
    match first_unsupported(es, allowed) {
        Some(i) => Err((ErrorKind::UnsupportedSetting, seq![es[i].0, path])),
        None => Ok(()),
    }
}

/// `host`: absent, or a string that is not blank.
pub open spec fn host_setting_of(es: Seq<(Seq<char>, Json)>, path: Seq<char>) -> Result<Option<Seq<char>>, Failure> {
    match lookup(es, "host"@) {
        None => Ok(None),
        Some(Json::Str(s)) if trim(s).len() > 0 => Ok(Some(s)),
        Some(_) => Err((ErrorKind::InvalidHostSetting, seq![path])),
    }
}

/// `project_id`, or else the compatibility key `project`: absent, a string that is
/// not blank, or a positive integer (kept as its decimal text).
pub open spec fn project_setting_of(es: Seq<(Seq<char>, Json)>, path: Seq<char>) -> Result<Option<Seq<char>>, Failure> {
    let value = match lookup(es, "project_id"@) {
        Some(v) => Some(v),
        None => lookup(es, "project"@),
    };
    match value {
        None => Ok(None),
        Some(Json::Str(s)) if trim(s).len() > 0 => Ok(Some(s)),
        Some(Json::Number(Num::Unsigned(n))) if n > 0 => Ok(Some(decimal(n as nat))),
        Some(_) => Err((ErrorKind::InvalidProjectSetting, seq![path])),
    }
}

/// `credential_store`: absent, `"native"` or `"file"`.
pub open spec fn store_setting_of(es: Seq<(Seq<char>, Json)>, path: Seq<char>) -> Result<Option<CredentialStoreKind>, Failure> {
    match lookup(es, "credential_store"@) {
        None => Ok(None),
        Some(Json::Str(s)) if s == "native"@ => Ok(Some(CredentialStoreKind::Native)),
        Some(Json::Str(s)) if s == "file"@ => Ok(Some(CredentialStoreKind::File)),
        Some(_) => Err((ErrorKind::InvalidCredentialStoreSetting, seq![path])),
    }
}

/// The effective configuration: both files' keys are checked (global first), then
/// the repository host, the global host, the repository project and the global
/// store are read in that order. The repository host wins over the global one;
/// the project comes only from the repository file and the store only from the
/// global file.
pub open spec fn config_of(
    global: Seq<(Seq<char>, Json)>,
    global_path: Seq<char>,
    project: Seq<(Seq<char>, Json)>,
    project_path: Seq<char>,
) -> Result<ConfigView, Failure> {
    match keys_check(global, global_keys(), global_path) {
        Err(e) => Err(e),
        Ok(_) => match keys_check(project, project_keys(), project_path) {
            Err(e) => Err(e),
            Ok(_) => match host_setting_of(project, project_path) {
                Err(e) => Err(e),
                Ok(project_host) => match host_setting_of(global, global_path) {
                    Err(e) => Err(e),
                    Ok(global_host) => match project_setting_of(project, project_path) {
                        Err(e) => Err(e),
                        Ok(project_ref) => match store_setting_of(global, global_path) {
                            Err(e) => Err(e),
                            Ok(store) => Ok(
                                ConfigView {
                                    host: match project_host {
                                        Some(h) => Some(h),
                                        None => global_host,
                                    },
                                    project: project_ref,
                                    credential_store: store,
                                },
                            ),
                        },
                    },
                },
            },
        },
    }
}

/// The repository file's host wins over the global one, and the project
/// reference comes from the repository file alone.
pub proof fn law_repository_settings_win(
    global: Seq<(Seq<char>, Json)>,
    global_path: Seq<char>,
    project: Seq<(Seq<char>, Json)>,
    project_path: Seq<char>,
)
    requires
        config_of(global, global_path, project, project_path) is Ok,
    ensures
        host_setting_of(project, project_path) matches Ok(Some(h)) ==> config_of(
            global,
            global_path,
            project,
            project_path,
        )->Ok_0.host == Some(h),
        config_of(global, global_path, project, project_path)->Ok_0.project == project_setting_of(
            project,
            project_path,
        )->Ok_0,
{
}

/// Only the global file chooses the credential store: a repository file that
/// names one is refused.
pub proof fn law_repository_cannot_choose_the_store(
    global: Seq<(Seq<char>, Json)>,
    global_path: Seq<char>,
    project: Seq<(Seq<char>, Json)>,
    project_path: Seq<char>,
)
    requires
        exists|i: int| 0 <= i < project.len() && project[i].0 == "credential_store"@,
    ensures
        config_of(global, global_path, project, project_path) is Err,
{
    let i = choose|i: int| 0 <= i < project.len() && project[i].0 == "credential_store"@;
    reveal_strlit("credential_store");
    reveal_strlit("host");
    reveal_strlit("project_id");
    reveal_strlit("project");
    let ks = project_keys();
    assert(ks.len() == 3);
    assert(ks[0].len() != project[i].0.len());
    assert(ks[1].len() != project[i].0.len());
    assert(ks[2].len() != project[i].0.len());
    assert(!key_allowed(ks, project[i].0));
    lemma_unsupported_found(project, project_keys(), i);
}

proof fn lemma_unsupported_found(es: Seq<(Seq<char>, Json)>, allowed: Seq<Seq<char>>, i: int)
    requires
        0 <= i < es.len(),
        !key_allowed(allowed, es[i].0),
    ensures
        first_unsupported(es, allowed) is Some,
    decreases i,
{
    if supported_before(es, allowed, i) {
        assert(0 <= i < es.len() && !key_allowed(allowed, es[i].0) && supported_before(es, allowed, i));
    } else {
        let j = choose|j: int| 0 <= j < i && !key_allowed(allowed, #[trigger] es[j].0);
        lemma_unsupported_found(es, allowed, j);
    }
}

/// Host precedence: the command line, then the environment, then configuration.
pub proof fn law_host_precedence(cli: Option<Seq<char>>, env: Option<Seq<char>>, configured: Option<Seq<char>>)
    ensures
        cli is Some ==> chosen_host(cli, env, configured) == cli,
        cli is None && env is Some ==> chosen_host(cli, env, configured) == env,
        cli is None && env is None ==> chosen_host(cli, env, configured) == configured,
{
}

/// Checks that every key of `settings` is in `allowed`.
pub fn validate_keys(settings: &Settings, allowed: &Vec<&str>, path: &str) -> (r: Result<(), CliError>)
    ensures
        outcome(r, |u: ()| u) == keys_check(model_entries(settings@), allowed@.map_values(|a: &str| a@), path@),
{
    let ghost es = model_entries(settings@);
    let ghost al = allowed@.map_values(|a: &str| a@);
    proof {
        crate::json::lemma_model_entries(settings@);
    }
    let mut i: usize = 0;
    while i < settings.len()
        invariant
            i <= settings.len(),
            es == model_entries(settings@),
            es.len() == settings.len(),
            forall|j: int| 0 <= j < settings.len() ==> #[trigger] es[j] == (settings@[j].0@, settings@[j].1.model()),
            al == allowed@.map_values(|a: &str| a@),
            supported_before(es, al, i as int),
        decreases settings.len() - i,
    {
        let key = settings[i].0.as_str();
        let mut found = false;
        let mut k: usize = 0;
        while k < allowed.len()
            invariant
                k <= allowed.len(),
                al == allowed@.map_values(|a: &str| a@),
                found == exists|m: int| 0 <= m < k && al[m] == key@,
            decreases allowed.len() - k,
        {
            let same = str_eq(allowed[k], key);
            proof {
                assert(al[k as int] == allowed@[k as int]@);
            }
            if same {
                found = true;
            }
            k = k + 1;
            proof {
                if same {
                    assert(al[k - 1] == key@);
                } else if !found {
                    assert forall|m: int| 0 <= m < k implies al[m] != key@ by {
                        if m < k - 1 {
                            if al[m] == key@ {
                                assert(exists|m2: int| 0 <= m2 < k - 1 && al[m2] == key@);
                            }
                        }
                    }
                }
            }
        }
        if !found {
            proof {
                assert(es[i as int].0 == key@);
                assert(!key_allowed(al, es[i as int].0)) by {
                    if al.contains(key@) {
                        let m = choose|m: int| 0 <= m < al.len() && al[m] == key@;
                        assert(0 <= m < k);
                    }
                }
                let w = choose|w: int|
                    0 <= w < es.len() && !key_allowed(al, es[w].0) && supported_before(es, al, w);
                if w < i {
                    assert(key_allowed(al, es[w].0));
                } else if w > i {
                    assert(key_allowed(al, es[i as int].0));
                }
            }
            return Err(CliError::with2(ErrorKind::UnsupportedSetting, key.to_owned(), path.to_owned()));
        }
        proof {
            let m = choose|m: int| 0 <= m < k && al[m] == key@;
            assert(al[m] == es[i as int].0);
            assert(key_allowed(al, es[i as int].0));
            assert forall|j: int| 0 <= j < i + 1 implies key_allowed(al, #[trigger] es[j].0) by {
                if j < i {
                }
            }
        }
        i = i + 1;
    }
    proof {
        if first_unsupported(es, al) is Some {
            let w = choose|w: int|
                0 <= w < es.len() && !key_allowed(al, es[w].0) && supported_before(es, al, w);
            assert(key_allowed(al, es[w].0));
        }
    }
    Ok(())
}

/// Reads `host` from a configuration file's settings.
pub fn host_setting(settings: &Settings, path: &str) -> (r: Result<Option<String>, CliError>)
    ensures
        outcome(r, |h: Option<String>| opt_view(h)) == host_setting_of(model_entries(settings@), path@),
{
    match crate::json::entries_get(settings, "host") {
        None => Ok(None),
        Some(value) => match value.as_str() {
            Some(s) => {
                let t = trim_chars(&chars_of(s.as_str()));
                if t.len() > 0 {
                    Ok(Some(s.clone()))
                } else {
                    Err(CliError::with(ErrorKind::InvalidHostSetting, path.to_owned()))
                }
            },
            None => Err(CliError::with(ErrorKind::InvalidHostSetting, path.to_owned())),
        },
    }
}

/// Reads `project_id`, or else `project`, from repository settings.
pub fn project_setting(settings: &Settings, path: &str) -> (r: Result<Option<String>, CliError>)
    ensures
        outcome(r, |h: Option<String>| opt_view(h)) == project_setting_of(model_entries(settings@), path@),
{
    let value = match crate::json::entries_get(settings, "project_id") {
        Some(v) => Some(v),
        None => crate::json::entries_get(settings, "project"),
    };
    match value {
        None => Ok(None),
        Some(v) => {
            if let Some(s) = v.as_str() {
                let t = trim_chars(&chars_of(s.as_str()));
                if t.len() > 0 {
                    return Ok(Some(s.clone()));
                }
            }
            match v.as_u64() {
                Some(n) => {
                    if n > 0 {
                        Ok(Some(decimal_string(n)))
                    } else {
                        Err(CliError::with(ErrorKind::InvalidProjectSetting, path.to_owned()))
                    }
                },
                None => Err(CliError::with(ErrorKind::InvalidProjectSetting, path.to_owned())),
            }
        },
    }
}

/// Reads `credential_store` from global settings.
pub fn credential_store_setting(settings: &Settings, path: &str) -> (r: Result<
    Option<CredentialStoreKind>,
    CliError,
>)
    ensures
        outcome(r, |k: Option<CredentialStoreKind>| k) == store_setting_of(model_entries(settings@), path@),
{
    match crate::json::entries_get(settings, "credential_store") {
        None => Ok(None),
        Some(value) => match value.as_str() {
            Some(s) => {
                if str_eq(s.as_str(), "native") {
                    Ok(Some(CredentialStoreKind::Native))
                } else if str_eq(s.as_str(), "file") {
                    Ok(Some(CredentialStoreKind::File))
                } else {
                    Err(CliError::with(ErrorKind::InvalidCredentialStoreSetting, path.to_owned()))
                }
            },
            None => Err(CliError::with(ErrorKind::InvalidCredentialStoreSetting, path.to_owned())),
        },
    }
}

pub fn global_key_list() -> (r: Vec<&'static str>)
    ensures
        r@.map_values(|a: &str| a@) == global_keys(),
{
    let r = vec!["host", "credential_store"];
    assert(r@.map_values(|a: &str| a@) =~= global_keys());
    r
}

pub fn project_key_list() -> (r: Vec<&'static str>)
    ensures
        r@.map_values(|a: &str| a@) == project_keys(),
{
    let r = vec!["host", "project_id", "project"];
    assert(r@.map_values(|a: &str| a@) =~= project_keys());
    r
}

/// The effective configuration from the global and repository settings.
pub fn config_from_maps(global: &Settings, global_path: &str, project: &Settings, project_path: &str) -> (r: Result<Config, CliError>)
    ensures
        outcome(r, |c: Config| c@) == config_of(
            model_entries(global@),
            global_path@,
            model_entries(project@),
            project_path@,
        ),
{
    validate_keys(global, &global_key_list(), global_path)?;
    validate_keys(project, &project_key_list(), project_path)?;
    let project_host = host_setting(project, project_path)?;
    let global_host = host_setting(global, global_path)?;
    let project_ref = project_setting(project, project_path)?;
    let store = credential_store_setting(global, global_path)?;
    let host = match project_host {
        Some(h) => Some(h),
        None => global_host,
    };
    Ok(Config { host, project: project_ref, credential_store: store })
}

/// The effective configuration for a repository, given the settings read from
/// the global file (at `global_path`, when the platform has one) and from the
/// repository file.
pub fn config(global_path: Option<&str>, global: &Settings, project_path: &str, project: &Settings) -> (r: Result<Config, CliError>)
    ensures
        outcome(r, |c: Config| c@) == config_of(
            model_entries(global@),
            match global_path {
                Some(p) => p@,
                None => "<global config unavailable>"@,
            },
            model_entries(project@),
            project_path@,
        ),
{
    let path = match global_path {
        Some(p) => p,
        None => "<global config unavailable>",
    };
    config_from_maps(global, path, project, project_path)
}

/// The settings in a configuration file, given what the JSON parser made of its
/// text (the parser's message on failure).
pub fn settings_of_parsed(parsed: Result<JsonValue, String>, path: &str) -> (r: Result<Settings, CliError>)
    ensures
        match parsed {
            Err(detail) => failure_is(r, ErrorKind::InvalidConfigJson, seq![path@, detail@]),
            Ok(JsonValue::Object(es)) => r matches Ok(s) && model_entries(s@) == model_entries(es@),
            Ok(_) => failure_is(r, ErrorKind::ConfigNotObject, seq![path@]),
        },
{
    match parsed {
        Err(detail) => Err(CliError::with2(ErrorKind::InvalidConfigJson, path.to_owned(), detail)),
        Ok(JsonValue::Object(es)) => Ok(es),
        Ok(_) => Err(CliError::with(ErrorKind::ConfigNotObject, path.to_owned())),
    }
}

/// The settings that a configuration file's contents hold.
pub open spec fn config_text_of(contents: Seq<char>, path: Seq<char>) -> Result<Seq<(Seq<char>, Json)>, Failure> {
    match json_parse_model(contents) {
        Err(detail) => Err((ErrorKind::InvalidConfigJson, seq![path, detail])),
        Ok(Json::Object(es)) => Ok(es),
        Ok(_) => Err((ErrorKind::ConfigNotObject, seq![path])),
    }
}

/// Parses a configuration file's contents; it must be a JSON object.
pub fn parse_config(contents: &str, path: &str) -> (r: Result<Settings, CliError>)
    ensures
        outcome(r, |s: Settings| model_entries(s@)) == config_text_of(contents@, path@),
{
    let parsed = parse_json(contents);
    let r = settings_of_parsed(parsed, path);
    r
}

pub open spec fn failure_is<T>(r: Result<T, CliError>, kind: ErrorKind, args: Seq<Seq<char>>) -> bool {
    r matches Err(e) && e@ == (kind, args)
}

/// The path a host URL keeps, given what the URL parser made of it: only an
/// http(s) URL with a host is accepted, and its path loses trailing slashes.
pub open spec fn host_path_of(parsed: Result<UrlPartsView, Seq<char>>) -> Result<Seq<char>, Failure> {
    match parsed {
        Err(detail) => Err((ErrorKind::InvalidHostUrl, seq![detail])),
        Ok(parts) => if !(parts.scheme == "http"@ || parts.scheme == "https"@) || parts.host is None {
            Err((ErrorKind::InvalidHostUrl, Seq::<Seq<char>>::empty()))
        } else {
            Ok(trim_end_char(parts.path, '/'))
        },
    }
}

/// The canonical host, given the URL's serialization with that path and
/// without query or fragment: the serialization without trailing slashes.
pub open spec fn host_of_serialized(serialized: Option<Seq<char>>) -> Result<Seq<char>, Failure> {
    match serialized {
        Some(s) => Ok(trim_end_char(s, '/')),
        None => Err((ErrorKind::InvalidHostUrl, Seq::<Seq<char>>::empty())),
    }
}

/// Canonical form of a host URL: an absolute http(s) URL with a host, without
/// query, fragment or trailing slashes.
pub open spec fn canonical_host_of(value: Seq<char>) -> Result<Seq<char>, Failure> {
    match host_path_of(url_parse_model(trim(value))) {
        Err(e) => Err(e),
        Ok(path) => host_of_serialized(url_with_path_model(trim(value), path)),
    }
}

/// The path a host URL keeps, given what the URL parser made of it.
pub fn host_path(parsed: Result<UrlParts, String>) -> (r: Result<String, CliError>)
    ensures
        outcome(r, |s: String| s@) == host_path_of(url_result_view(parsed)),
{
    match parsed {
        Err(detail) => Err(CliError::with(ErrorKind::InvalidHostUrl, detail)),
        Ok(parts) => {
            let scheme = parts.scheme.as_str();
            if !(str_eq(scheme, "http") || str_eq(scheme, "https")) || parts.host.is_none() {
                return Err(CliError::new(ErrorKind::InvalidHostUrl));
            }
            Ok(string_of(&trim_end_matching(&chars_of(parts.path.as_str()), '/')))
        },
    }
}

/// The canonical host, given the URL's serialization with its kept path.
pub fn host_from_serialized(serialized: Option<String>) -> (r: Result<String, CliError>)
    ensures
        outcome(r, |s: String| s@) == host_of_serialized(opt_view(serialized)),
{
    match serialized {
        Some(s) => Ok(string_of(&trim_end_matching(&chars_of(s.as_str()), '/'))),
        None => Err(CliError::new(ErrorKind::InvalidHostUrl)),
    }
}

/// Canonicalizes an OpenProject base URL.
pub fn canonical_host(value: &str) -> (r: Result<String, CliError>)
    ensures
        outcome(r, |s: String| s@) == canonical_host_of(value@),
{
    let trimmed = string_of(&trim_chars(&chars_of(value)));
    let path = match host_path(parse_url(trimmed.as_str())) {
        Ok(p) => p,
        Err(e) => return Err(e),
    };
    host_from_serialized(url_with_path(trimmed.as_str(), path.as_str()))
}

/// The credential scope of a host: its canonical form, form-urlencoded.
pub open spec fn credential_scope_of(host: Seq<char>) -> Result<Seq<char>, Failure> {
    match canonical_host_of(host) {
        Ok(h) => Ok(form_encoded(h)),
        Err(e) => Err(e),
    }
}

/// The name under which the system credential store keeps a host's token.
pub fn credential_scope(host: &str) -> (r: Result<String, CliError>)
    ensures
        outcome(r, |s: String| s@) == credential_scope_of(host@),
{
    let canonical = canonical_host(host)?;
    Ok(form_urlencode(canonical.as_str()))
}

proof fn lemma_hex_upper(a: u8, b: u8)
    requires
        a < 16,
        b < 16,
        crate::outside::hex_upper(a) == crate::outside::hex_upper(b),
    ensures
        a == b,
{
    let ca = crate::outside::hex_upper(a) as u32;
    let cb = crate::outside::hex_upper(b) as u32;
    if a < 10 {
        assert(ca == a + 0x30);
    } else {
        assert(ca == a + 0x37);
    }
    if b < 10 {
        assert(cb == b + 0x30);
    } else {
        assert(cb == b + 0x37);
    }
}

proof fn lemma_form_byte_shape(b: u8)
    ensures
        crate::outside::form_byte(b).len() > 0,
        crate::outside::form_unchanged(b) ==> crate::outside::form_byte(b)[0] != '%' && crate::outside::form_byte(b)[0] != '+',
        crate::outside::form_byte(b)[0] == '+' ==> b == 0x20,
        crate::outside::form_byte(b)[0] == '%' ==> !crate::outside::form_unchanged(b) && b != 0x20,
{
    if crate::outside::form_unchanged(b) {
        assert((b as char) as u32 == b as u32);
    }
}

proof fn lemma_form_byte_injective(a: u8, b: u8, ra: Seq<char>, rb: Seq<char>)
    requires
        crate::outside::form_byte(a) + ra == crate::outside::form_byte(b) + rb,
    ensures
        a == b,
        ra == rb,
{
    let fa = crate::outside::form_byte(a);
    let fb = crate::outside::form_byte(b);
    lemma_form_byte_shape(a);
    lemma_form_byte_shape(b);
    assert((fa + ra)[0] == fa[0]);
    assert((fb + rb)[0] == fb[0]);
    if fa[0] == '%' {
        assert(fb[0] == '%');
        assert((fa + ra)[1] == fa[1] && (fb + rb)[1] == fb[1]);
        assert((fa + ra)[2] == fa[2] && (fb + rb)[2] == fb[2]);
        lemma_hex_upper(a / 16, b / 16);
        lemma_hex_upper(a % 16, b % 16);
        assert(a == (a / 16) * 16 + a % 16);
        assert(b == (b / 16) * 16 + b % 16);
    } else if fa[0] == '+' {
        assert(fb[0] == '+');
    } else {
        assert(crate::outside::form_unchanged(a));
        assert(crate::outside::form_unchanged(b));
        assert((a as char) as u32 == a as u32);
        assert((b as char) as u32 == b as u32);
    }
    assert(fa.len() == fb.len());
    assert(ra =~= (fa + ra).skip(fa.len() as int));
    assert(rb =~= (fb + rb).skip(fb.len() as int));
}

proof fn lemma_form_bytes_injective(a: Seq<u8>, b: Seq<u8>)
    requires
        crate::outside::form_bytes(a) == crate::outside::form_bytes(b),
    ensures
        a == b,
    decreases a.len(),
{
    if a.len() == 0 {
        if b.len() > 0 {
            lemma_form_byte_shape(b[0]);
            assert(crate::outside::form_bytes(b) == crate::outside::form_byte(b[0]) + crate::outside::form_bytes(b.drop_first()));
            assert(crate::outside::form_bytes(b).len() > 0);
        }
        assert(b.len() == 0);
        assert(a =~= b);
    } else {
        if b.len() == 0 {
            lemma_form_byte_shape(a[0]);
            assert(crate::outside::form_bytes(a) == crate::outside::form_byte(a[0]) + crate::outside::form_bytes(a.drop_first()));
            assert(crate::outside::form_bytes(a).len() > 0);
            assert(false);
        }
        lemma_form_byte_injective(
            a[0],
            b[0],
            crate::outside::form_bytes(a.drop_first()),
            crate::outside::form_bytes(b.drop_first()),
        );
        lemma_form_bytes_injective(a.drop_first(), b.drop_first());
        assert(a =~= seq![a[0]] + a.drop_first());
        assert(b =~= seq![b[0]] + b.drop_first());
    }
}

/// Different hosts never share a stored token: the credential scopes of two
/// hosts with different canonical forms differ.
pub proof fn law_credential_scopes_are_isolated(a: Seq<char>, b: Seq<char>)
    requires
        canonical_host_of(a) is Ok,
        canonical_host_of(b) is Ok,
        canonical_host_of(a)->Ok_0 != canonical_host_of(b)->Ok_0,
    ensures
        credential_scope_of(a) != credential_scope_of(b),
{
    let ha = canonical_host_of(a)->Ok_0;
    let hb = canonical_host_of(b)->Ok_0;
    if form_encoded(ha) == form_encoded(hb) {
        lemma_form_bytes_injective(vstd::utf8::encode_utf8(ha), vstd::utf8::encode_utf8(hb));
        vstd::utf8::encode_utf8_decode_utf8(ha);
        vstd::utf8::encode_utf8_decode_utf8(hb);
    }
}

/// The first of the command-line host, the environment host and the configured host.
pub open spec fn chosen_host(cli_host: Option<Seq<char>>, env_host: Option<Seq<char>>, configured: Option<Seq<char>>) -> Option<Seq<char>> {
    match cli_host {
        Some(h) => Some(h),
        None => match env_host {
            Some(h) => Some(h),
            None => configured,
        },
    }
}

pub open spec fn opt_str_view(o: Option<&str>) -> Option<Seq<char>> {
    match o {
        Some(s) => Some(s@),
        None => None,
    }
}

/// The OpenProject host: `--host`, then `OPENPROJECT_URL`, then configuration,
/// canonicalized.
pub fn resolve_host(cli_host: Option<&str>, env_host: Option<String>, config: &Config) -> (r: Result<String, CliError>)
    ensures
        outcome(r, |s: String| s@) == match chosen_host(opt_str_view(cli_host), opt_view(env_host), config@.host) {
            Some(h) => canonical_host_of(h),
            None => Err((ErrorKind::MissingHost, Seq::<Seq<char>>::empty())),
        },
{
    let chosen: Option<String> = match cli_host {
        Some(h) => Some(h.to_owned()),
        None => match env_host {
            Some(h) => Some(h),
            None => match &config.host {
                Some(h) => Some(h.clone()),
                None => None,
            },
        },
    };
    match chosen {
        Some(h) => canonical_host(h.as_str()),
        None => Err(CliError::new(ErrorKind::MissingHost)),
    }
}

/// `Path::join` of a relative name onto a directory, with `/` as separator.
pub open spec fn join_path(base: Seq<char>, name: Seq<char>) -> Seq<char> {
    if base.len() == 0 {
        name
    } else if base.last() == '/' {
        base + name
    } else {
        base + seq!['/'] + name
    }
}

pub fn join(base: &str, name: &str) -> (r: String)
    ensures
        r@ == join_path(base@, name@),
{
    let mut v = chars_of(base);
    if v.len() == 0 {
        return name.to_owned();
    }
    if v[v.len() - 1] != '/' {
        v.push('/');
    }
    crate::text::push_str(&mut v, name);
    string_of(&v)
}

/// The repository configuration file: `.openproject.json` in the Git root, or in
/// the working directory outside Git.
pub fn project_config_path(git_root: Option<String>, cwd: &str) -> (r: String)
    ensures
        r@ == join_path(
            match git_root {
                Some(root) => root@,
                None => cwd@,
            },
            ".openproject.json"@,
        ),
{
    match git_root {
        Some(root) => join(root.as_str(), ".openproject.json"),
        None => join(cwd, ".openproject.json"),
    }
}

/// The global configuration file: `openproject/config.json` under the platform
/// configuration directory, when there is one.
pub fn global_config_path(config_dir: Option<String>) -> (r: Option<String>)
    ensures
        match config_dir {
            Some(d) => r matches Some(p) && p@ == join_path(join_path(d@, "openproject"@), "config.json"@),
            None => r is None,
        },
{
    match config_dir {
        Some(d) => Some(join(join(d.as_str(), "openproject").as_str(), "config.json")),
        None => None,
    }
}

/// The global settings after login or logout: the keys are checked, the host is
/// stored, and the store selection is stored or removed.
pub open spec fn global_update_of(es: Seq<(Seq<char>, Json)>, path: Seq<char>, host: Seq<char>, store: Option<CredentialStoreKind>) -> Result<Seq<(Seq<char>, Json)>, Failure> {
    match keys_check(es, global_keys(), path) {
        Err(e) => Err(e),
        Ok(_) => {
            let with_host = entries_insert(es, "host"@, Json::Str(host));
            Ok(
                match store {
                    Some(kind) => entries_insert(
                        with_host,
                        "credential_store"@,
                        Json::Str(crate::credentials::store_kind_name(kind)),
                    ),
                    None => entries_remove(with_host, "credential_store"@),
                },
            )
        },
    }
}

/// What login saves reads back: after the global settings are updated with a
/// host and a store (or without one, at logout), the host read from them is
/// that host and the store is that store.
pub proof fn law_saved_global_settings_read_back(
    es: Seq<(Seq<char>, Json)>,
    path: Seq<char>,
    host: Seq<char>,
    store: Option<CredentialStoreKind>,
)
    requires
        keys_unique(es),
        global_update_of(es, path, host, store) is Ok,
        trim(host).len() > 0,
    ensures
        host_setting_of(global_update_of(es, path, host, store)->Ok_0, path) == Ok::<Option<Seq<char>>, Failure>(Some(host)),
        store_setting_of(global_update_of(es, path, host, store)->Ok_0, path) == Ok::<Option<CredentialStoreKind>, Failure>(store),
{
    reveal_strlit("host");
    reveal_strlit("credential_store");
    reveal_strlit("native");
    reveal_strlit("file");
    let with_host = entries_insert(es, "host"@, Json::Str(host));
    assert("host"@ != "credential_store"@) by {
        assert("host"@.len() != "credential_store"@.len());
    }
    crate::json::law_lookup_after_insert(es, "host"@, Json::Str(host), "credential_store"@);
    match store {
        Some(kind) => {
            let v = Json::Str(crate::credentials::store_kind_name(kind));
            crate::json::law_lookup_after_insert(with_host, "credential_store"@, v, "host"@);
            assert("native"@ != "file"@) by {
                assert("native"@.len() != "file"@.len());
            }
        },
        None => {
            lemma_insert_keeps_keys_unique(es, "host"@, Json::Str(host));
            crate::json::law_lookup_after_remove(with_host, "credential_store"@, "host"@);
        },
    }
}

/// Inserting keeps keys unique.
pub proof fn lemma_insert_keeps_keys_unique(es: Seq<(Seq<char>, Json)>, key: Seq<char>, value: Json)
    requires
        keys_unique(es),
    ensures
        keys_unique(entries_insert(es, key, value)),
{
    crate::json::lemma_key_index(es, key);
    let ins = entries_insert(es, key, value);
    match key_index(es, key) {
        Some(i) => {
            assert forall|a: int, b: int| 0 <= a < ins.len() && 0 <= b < ins.len() && a != b implies ins[a].0
                != ins[b].0 by {
                assert(ins[a].0 == es[a].0);
                assert(ins[b].0 == es[b].0);
            }
        },
        None => {
            assert forall|a: int, b: int| 0 <= a < ins.len() && 0 <= b < ins.len() && a != b implies ins[a].0
                != ins[b].0 by {
                if a < es.len() && b < es.len() {
                } else if a < es.len() {
                    assert(es[a].0 != key);
                } else if b < es.len() {
                    assert(es[b].0 != key);
                }
            }
        },
    }
}

/// What binding saves reads back: after the repository settings are bound to
/// a project ID, the project read from them is that ID (an ID of zero would
/// read back as invalid).
pub proof fn law_bound_project_reads_back(es: Seq<(Seq<char>, Json)>, path: Seq<char>, project_id: u64)
    requires
        keys_unique(es),
        bind_of(es, path, project_id) is Ok,
        project_id > 0,
    ensures
        project_setting_of(bind_of(es, path, project_id)->Ok_0, path) == Ok::<Option<Seq<char>>, Failure>(
            Some(decimal(project_id as nat)),
        ),
        lookup(bind_of(es, path, project_id)->Ok_0, "project"@) is None,
{
    reveal_strlit("project_id");
    reveal_strlit("project");
    let v = Json::Number(Num::Unsigned(project_id));
    let ins = entries_insert(es, "project_id"@, v);
    assert("project_id"@ != "project"@) by {
        assert("project_id"@.len() != "project"@.len());
    }
    crate::json::law_lookup_after_insert(es, "project_id"@, v, "project"@);
    lemma_insert_keeps_keys_unique(es, "project_id"@, v);
    crate::json::law_lookup_after_remove(ins, "project"@, "project_id"@);
}

/// The global settings to write after login (with the store that saved the
/// token) or logout (without a store).
pub fn global_config_update(settings: Settings, path: &str, host: &str, store: Option<CredentialStoreKind>) -> (r: Result<Settings, CliError>)
    ensures
        outcome(r, |s: Settings| model_entries(s@)) == global_update_of(model_entries(settings@), path@, host@, store),
{
    validate_keys(&settings, &global_key_list(), path)?;
    let mut settings = settings;
    object_insert(&mut settings, "host".to_owned(), JsonValue::text(host));
    match store {
        Some(kind) => {
            object_insert(&mut settings, "credential_store".to_owned(), JsonValue::text(kind.as_str()));
        },
        None => {
            object_remove(&mut settings, "credential_store");
        },
    }
    Ok(settings)
}

/// The repository settings after binding a project: the keys are checked,
/// `project_id` is stored and `project` is removed.
pub open spec fn bind_of(es: Seq<(Seq<char>, Json)>, path: Seq<char>, project_id: u64) -> Result<Seq<(Seq<char>, Json)>, Failure> {
    match keys_check(es, project_keys(), path) {
        Err(e) => Err(e),
        Ok(_) => Ok(
            entries_remove(
                entries_insert(es, "project_id"@, Json::Number(Num::Unsigned(project_id))),
                "project"@,
            ),
        ),
    }
}

/// The repository settings to write for `project --bind`.
pub fn bind_settings(settings: Settings, path: &str, project_id: u64) -> (r: Result<Settings, CliError>)
    ensures
        outcome(r, |s: Settings| model_entries(s@)) == bind_of(model_entries(settings@), path@, project_id),
{
    validate_keys(&settings, &project_key_list(), path)?;
    let mut settings = settings;
    object_insert(&mut settings, "project_id".to_owned(), JsonValue::unsigned(project_id));
    object_remove(&mut settings, "project");
    Ok(settings)
}

} // verus!
