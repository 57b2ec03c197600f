//! Self-management: commit links for the current repository, release and
//! installer locations, upgrade decisions and the uninstall purge plan.

use vstd::prelude::*;

use crate::activities::after_last_slash;
use crate::config::{canonical_host, canonical_host_of, chosen_host, opt_str_view, Settings};
use crate::credentials::CredentialStoreKind;
use crate::error::{outcome, CliError, ErrorKind, Failure};
use crate::json::{lemma_model_entries, model_entries, push_entry, Json, JsonValue};
use crate::outside::{
    opt_view, parse_url, regex_capture_pair, regex_two_groups, url_parse_model, url_result_view, UrlParts,
    UrlPartsView,
};
use crate::summaries::opt_str_json;
use crate::text::{
    chars_of, contains_seq, ends_with, has_piece, has_prefix, has_suffix, lower_seq, lowercase,
    push_chars, push_str, slice_chars, starts_with, string_of, trim, trim_chars,
    trim_end_char, trim_end_matching, trim_start_char, trim_start_matching, chars_eq,
};

verus! {

/// `s` with every trailing occurrence of `suffix` removed
/// (`str::trim_end_matches` with a string).
pub open spec fn trim_end_seq(s: Seq<char>, suffix: Seq<char>) -> Seq<char>
    decreases s.len(),
{
    if suffix.len() > 0 && ends_with(s, suffix) {
        trim_end_seq(s.take(s.len() - suffix.len()), suffix)
    } else {
        s
    }
}

/// `str::trim_matches` with a char: both ends.
pub open spec fn trim_both_char(s: Seq<char>, c: char) -> Seq<char> {
    trim_end_char(trim_start_char(s, c), c)
}

/// Removes every trailing `suffix`.
pub fn trim_end_text(s: &Vec<char>, suffix: &Vec<char>) -> (r: Vec<char>)
    ensures
        r@ == trim_end_seq(s@, suffix@),
{
    let mut cur = slice_chars(s, 0, s.len());
    assert(cur@ =~= s@);
    if suffix.len() == 0 {
        return cur;
    }
    while has_suffix(&cur, suffix)
        invariant
            suffix.len() > 0,
            trim_end_seq(s@, suffix@) == trim_end_seq(cur@, suffix@),
        decreases cur.len(),
    {
        let n = cur.len() - suffix.len();
        cur = slice_chars(&cur, 0, n);
    }
    cur
}

/// The web base and host of a repository with a URL remote, given what the URL
/// parser made of it: `https://`, the host, and the path without surrounding
/// slashes or a trailing `.git`.
pub open spec fn url_repository_of(parsed: Result<UrlPartsView, Seq<char>>) -> Result<(Seq<char>, Seq<char>), Failure> {
    match parsed {
        Err(d) => Err((ErrorKind::UrlParse, seq![d])),
        Ok(u) => match u.host {
            None => Err((ErrorKind::RemoteWithoutHost, Seq::<Seq<char>>::empty())),
            Some(h) => Ok(("https://"@ + h + "/"@ + trim_end_seq(trim_both_char(u.path, '/'), ".git"@), h)),
        },
    }
}

/// The web base and host of a repository with an scp-like remote, given what
/// the remote pattern captured: the host and the path without a trailing `.git`.
pub open spec fn scp_repository_of(captured: Option<Option<(Seq<char>, Seq<char>)>>) -> Result<(Seq<char>, Seq<char>), Failure> {
    match captured {
        None => Err((ErrorKind::InvalidPattern, Seq::<Seq<char>>::empty())),
        Some(None) => Err((ErrorKind::UnsupportedRemote, Seq::<Seq<char>>::empty())),
        Some(Some((h, path))) => Ok(("https://"@ + h + "/"@ + trim_end_seq(path, ".git"@), h)),
    }
}

/// The web base of a repository and its host, from a Git remote: a URL
/// (`scheme://host/path`) or an scp-like `user@host:path`.
pub open spec fn repository_of(remote: Seq<char>) -> Result<(Seq<char>, Seq<char>), Failure> {
    if contains_seq(remote, "://"@) {
        url_repository_of(url_parse_model(remote))
    } else {
        scp_repository_of(regex_two_groups(remote_pattern(), remote))
    }
}

/// The scp-like remote syntax: an optional `user@`, the host, `:`, the path.
pub open spec fn remote_pattern() -> Seq<char> {
    "^(?:[^@]+@)?([^:]+):(.+)$"@
}

/// The commit route of a Git host's web interface.
pub open spec fn commit_route_of(host: Seq<char>) -> Option<Seq<char>> {
    if contains_seq(host, "gitlab"@) {
        Some("/-/commit/"@)
    } else if contains_seq(host, "github"@) || contains_seq(host, "gitea"@) {
        Some("/commit/"@)
    } else if contains_seq(host, "bitbucket"@) {
        Some("/commits/"@)
    } else {
        None
    }
}

/// The link HTML: the URL around the short hash in code.
pub open spec fn commit_html(url: Seq<char>, short: Seq<char>) -> Seq<char> {
    "<a href=\""@ + url + "\"><code>"@ + short + "</code></a>"@
}

/// A commit's links (members in key order).
pub open spec fn commit_link_of(commit: Seq<char>, short: Seq<char>, remote: Seq<char>) -> Result<Json, Failure> {
    match repository_of(remote) {
        Err(e) => Err(e),
        Ok((base, host)) => match commit_route_of(host) {
            None => Err((ErrorKind::UnknownCommitRoute, seq![host])),
            Some(route) => {
                let url = base + route + commit;
                Ok(
                    Json::Object(
                        seq![
                            ("commit"@, Json::Str(commit)),
                            ("html"@, Json::Str(commit_html(url, short))),
                            ("repository"@, Json::Str(base)),
                            ("shortCommit"@, Json::Str(short)),
                            ("url"@, Json::Str(url)),
                        ],
                    ),
                )
            },
        },
    }
}

/// The web base and host of a repository with a URL remote, given what the
/// URL parser made of it.
pub fn url_repository(parsed: Result<UrlParts, String>) -> (r: Result<(String, String), CliError>)
    ensures
        outcome(r, |x: (String, String)| (x.0@, x.1@)) == url_repository_of(url_result_view(parsed)),
{
    let u = match parsed {
        Ok(u) => u,
        Err(d) => return Err(CliError::with(ErrorKind::UrlParse, d)),
    };
    let h = match u.host {
        Some(h) => h,
        None => return Err(CliError::new(ErrorKind::RemoteWithoutHost)),
    };
    let path = trim_end_matching(&trim_start_matching(&chars_of(u.path.as_str()), '/'), '/');
    let mut b: Vec<char> = Vec::new();
    push_str(&mut b, "https://");
    push_str(&mut b, h.as_str());
    push_str(&mut b, "/");
    push_chars(&mut b, &trim_end_text(&path, &chars_of(".git")));
    Ok((string_of(&b), h))
}

/// The web base and host of a repository with an scp-like remote, given what
/// the remote pattern captured (`None` when the pattern did not compile).
pub fn scp_repository(captured: Option<Option<(String, String)>>) -> (r: Result<(String, String), CliError>)
    ensures
        outcome(r, |x: (String, String)| (x.0@, x.1@)) == scp_repository_of(
            match captured {
                None => None,
                Some(None) => Some(None),
                Some(Some((h, p))) => Some(Some((h@, p@))),
            },
        ),
{
    match captured {
        None => Err(CliError::new(ErrorKind::InvalidPattern)),
        Some(None) => Err(CliError::new(ErrorKind::UnsupportedRemote)),
        Some(Some((h, path))) => {
            let mut b: Vec<char> = Vec::new();
            push_str(&mut b, "https://");
            push_str(&mut b, h.as_str());
            push_str(&mut b, "/");
            push_chars(&mut b, &trim_end_text(&chars_of(path.as_str()), &chars_of(".git")));
            Ok((string_of(&b), h))
        },
    }
}

/// The web base and host of a repository from its Git remote.
pub fn repository(remote: &str) -> (r: Result<(String, String), CliError>)
    ensures
        outcome(r, |x: (String, String)| (x.0@, x.1@)) == repository_of(remote@),
{
    if has_piece(&chars_of(remote), &chars_of("://")) {
        url_repository(parse_url(remote))
    } else {
        scp_repository(regex_capture_pair("^(?:[^@]+@)?([^:]+):(.+)$", remote))
    }
}

/// The commit route of a Git host.
pub fn commit_route(host: &str) -> (r: Option<&'static str>)
    ensures
        match r {
            Some(s) => commit_route_of(host@) == Some(s@),
            None => commit_route_of(host@) is None,
        },
{
    let h = chars_of(host);
    if has_piece(&h, &chars_of("gitlab")) {
        Some("/-/commit/")
    } else if has_piece(&h, &chars_of("github")) || has_piece(&h, &chars_of("gitea")) {
        Some("/commit/")
    } else if has_piece(&h, &chars_of("bitbucket")) {
        Some("/commits/")
    } else {
        None
    }
}

/// The web links of a commit, from its full hash, its short hash and the
/// repository's Git remote.
pub fn commit_link(commit: &str, short: &str, remote: &str) -> (r: Result<JsonValue, CliError>)
    ensures
        outcome(r, |v: JsonValue| v.model()) == commit_link_of(commit@, short@, remote@),
{
    let (base, host) = match repository(remote) {
        Ok(x) => x,
        Err(e) => return Err(e),
    };
    let route = match commit_route(host.as_str()) {
        Some(r) => r,
        None => return Err(CliError::with(ErrorKind::UnknownCommitRoute, host)),
    };
    let mut u: Vec<char> = Vec::new();
    push_str(&mut u, base.as_str());
    push_str(&mut u, route);
    push_str(&mut u, commit);
    let url = string_of(&u);
    let mut h: Vec<char> = Vec::new();
    push_str(&mut h, "<a href=\"");
    push_str(&mut h, url.as_str());
    push_str(&mut h, "\"><code>");
    push_str(&mut h, short);
    push_str(&mut h, "</code></a>");
    let html = string_of(&h);
    assert(html@ =~= commit_html(url@, short@));
    let mut es: Settings = Vec::new();
    proof {
        lemma_model_entries(es@);
    }
    push_entry(&mut es, "commit", JsonValue::text(commit));
    push_entry(&mut es, "html", JsonValue::String(html));
    push_entry(&mut es, "repository", JsonValue::String(base));
    push_entry(&mut es, "shortCommit", JsonValue::text(short));
    push_entry(&mut es, "url", JsonValue::String(url));
    proof {
        let want = commit_link_of(commit@, short@, remote@);
        assert(model_entries(es@) =~= want->Ok_0->Object_0);
    }
    Ok(JsonValue::Object(es))
}

/// The release repository: `OPENPROJECT_RELEASE_REPOSITORY` when set, else the
/// project's own, without surrounding slashes.
pub open spec fn release_repository_of(configured: Option<Seq<char>>) -> Seq<char> {
    trim_both_char(
        match configured {
            Some(r) => r,
            None => "yungts97/openproject-skill"@,
        },
        '/',
    )
}

/// The repository releases are taken from, given `OPENPROJECT_RELEASE_REPOSITORY`.
pub fn release_repository(configured: Option<String>) -> (r: String)
    ensures
        r@ == release_repository_of(opt_view(configured)),
{
    let chosen = match configured {
        Some(r) => r,
        None => "yungts97/openproject-skill".to_owned(),
    };
    string_of(&trim_end_matching(&trim_start_matching(&chars_of(chosen.as_str()), '/'), '/'))
}

/// The installer script of a repository for the platform.
pub open spec fn installer_url_of(repository: Seq<char>, windows: bool) -> Seq<char> {
    "https://raw.githubusercontent.com/"@ + trim_both_char(repository, '/') + "/main/scripts/"@ + (if windows {
        "install.ps1"@
    } else {
        "install.sh"@
    })
}

/// The URL of the installer script: PowerShell on Windows, shell elsewhere.
pub fn installer_url(repository: &str, windows: bool) -> (r: String)
    ensures
        r@ == installer_url_of(repository@, windows),
{
    let mut v: Vec<char> = Vec::new();
    push_str(&mut v, "https://raw.githubusercontent.com/");
    push_chars(&mut v, &trim_end_matching(&trim_start_matching(&chars_of(repository), '/'), '/'));
    push_str(&mut v, "/main/scripts/");
    push_str(&mut v, if windows { "install.ps1" } else { "install.sh" });
    string_of(&v)
}

/// The release an upgrade asks for.
#[derive(Debug, PartialEq)]
pub enum ReleaseRequest {
    /// The latest release, found by asking the release host.
    Latest,
    /// This version.
    Exact(String),
}

/// `latest` in any ASCII case asks for the latest release; anything else is a
/// version, without leading `v`s.
pub open spec fn release_request_of(version: Seq<char>) -> Option<Seq<char>> {
    if lower_seq(version) == "latest"@ {
        None
    } else {
        Some(trim_start_char(version, 'v'))
    }
}

/// The release an upgrade asks for.
pub fn requested_release_version(version: &str) -> (r: ReleaseRequest)
    ensures
        match r {
            ReleaseRequest::Latest => release_request_of(version@) is None,
            ReleaseRequest::Exact(v) => release_request_of(version@) == Some(v@),
        },
{
    let v = chars_of(version);
    if chars_eq(&lowercase(&v), &chars_of("latest")) {
        ReleaseRequest::Latest
    } else {
        ReleaseRequest::Exact(string_of(&trim_start_matching(&v, 'v')))
    }
}

/// The version the latest-release redirect names: the last segment of its
/// path, without leading `v`s; `location` is `None` without the header and
/// `Some(None)` when it is not text.
pub open spec fn latest_version_of(
    url: Seq<char>,
    status: Seq<char>,
    redirected: bool,
    location: Option<Option<Seq<char>>>,
) -> Result<Seq<char>, Failure> {
    if !redirected {
        Err((ErrorKind::ReleaseNotRedirected, seq![url, status]))
    } else {
        match location {
            None => Err((ErrorKind::ReleaseNoLocation, Seq::<Seq<char>>::empty())),
            Some(None) => Err((ErrorKind::ReleaseLocationUnreadable, Seq::<Seq<char>>::empty())),
            Some(Some(l)) => match url_parse_model(l) {
                Err(d) => Err((ErrorKind::ReleaseLocationInvalid, seq![l, d])),
                Ok(u) => {
                    let last = after_last_slash(u.path);
                    if starts_with(u.path, seq!['/']) && last.len() > 0 {
                        Ok(trim_start_char(last, 'v'))
                    } else {
                        Err((ErrorKind::ReleaseNoVersion, Seq::<Seq<char>>::empty()))
                    }
                },
            },
        }
    }
}

/// The latest release version from the release host's answer to
/// `releases/latest` at `url`: whether it redirected (its status otherwise),
/// and its `Location`.
pub fn latest_release_version(
    url: &str,
    status: &str,
    redirected: bool,
    location: Option<Option<String>>,
) -> (r: Result<String, CliError>)
    ensures
        outcome(r, |s: String| s@) == latest_version_of(
            url@,
            status@,
            redirected,
            match location {
                None => None,
                Some(None) => Some(None),
                Some(Some(l)) => Some(Some(l@)),
            },
        ),
{
    if !redirected {
        return Err(CliError::with2(ErrorKind::ReleaseNotRedirected, url.to_owned(), status.to_owned()));
    }
    let l = match location {
        None => return Err(CliError::new(ErrorKind::ReleaseNoLocation)),
        Some(None) => return Err(CliError::new(ErrorKind::ReleaseLocationUnreadable)),
        Some(Some(l)) => l,
    };
    let u = match parse_url(l.as_str()) {
        Ok(u) => u,
        Err(d) => return Err(CliError::with2(ErrorKind::ReleaseLocationInvalid, l, d)),
    };
    let path = chars_of(u.path.as_str());
    let last = crate::activities::last_path_segment(&path);
    if path.len() > 0 && path[0] == '/' && last.len() > 0 {
        assert(starts_with(u.path@, seq!['/'])) by {
            assert(u.path@.take(1) =~= seq!['/']);
        }
        Ok(string_of(&trim_start_matching(&last, 'v')))
    } else {
        assert(!starts_with(u.path@, seq!['/']) || last@.len() == 0) by {
            if path.len() > 0 && starts_with(u.path@, seq!['/']) {
                assert(u.path@.take(1)[0] == '/');
            }
        }
        Err(CliError::new(ErrorKind::ReleaseNoVersion))
    }
}

/// The host whose stored credentials a purge removes: `--host`, then
/// `OPENPROJECT_URL`, then the global configuration's host, canonicalized;
/// none when none is set.
pub open spec fn purge_host_of(
    cli_host: Option<Seq<char>>,
    env_host: Option<Seq<char>>,
    configured: Option<Seq<char>>,
) -> Result<Option<Seq<char>>, Failure> {
    match chosen_host(cli_host, env_host, configured) {
        None => Ok(None),
        Some(h) => match canonical_host_of(h) {
            Ok(c) => Ok(Some(c)),
            Err(e) => Err(e),
        },
    }
}

/// The host whose stored credentials a purge removes.
pub fn purge_credential_host(
    cli_host: Option<&str>,
    env_host: Option<String>,
    configured: Option<String>,
) -> (r: Result<Option<String>, CliError>)
    ensures
        outcome(r, |o: Option<String>| opt_view(o)) == purge_host_of(
            opt_str_view(cli_host),
            opt_view(env_host),
            opt_view(configured),
        ),
{
    let chosen: Option<String> = match cli_host {
        Some(h) => Some(h.to_owned()),
        None => match env_host {
            Some(h) => Some(h),
            None => configured,
        },
    };
    match chosen {
        None => Ok(None),
        Some(h) => match canonical_host(h.as_str()) {
            Ok(c) => Ok(Some(c)),
            Err(e) => Err(e),
        },
    }
}

/// The stores a purge removes the host's token from: the system store only
/// where it is available, then the file.
pub open spec fn purge_stores_of(native_available: bool) -> Seq<CredentialStoreKind> {
    if native_available {
        seq![CredentialStoreKind::Native, CredentialStoreKind::File]
    } else {
        seq![CredentialStoreKind::File]
    }
}

/// The stores a purge visits.
pub fn purge_stores(native_available: bool) -> (r: Vec<CredentialStoreKind>)
    ensures
        r@ == purge_stores_of(native_available),
{
    if native_available {
        let v = vec![CredentialStoreKind::Native, CredentialStoreKind::File];
        assert(v@ =~= seq![CredentialStoreKind::Native, CredentialStoreKind::File]);
        v
    } else {
        let v = vec![CredentialStoreKind::File];
        assert(v@ =~= seq![CredentialStoreKind::File]);
        v
    }
}

/// What a purge would remove (members in key order).
pub open spec fn purge_plan_of(config_path: Seq<char>, config_directory: Seq<char>, host: Option<Seq<char>>) -> Json {
    Json::Object(
        seq![
            ("configDirectory"@, Json::Str(config_directory)),
            ("configPath"@, Json::Str(config_path)),
            ("credentialHost"@, opt_str_json(host)),
        ],
    )
}

/// What a purge would remove.
pub fn purge_plan_value(config_path: &str, config_directory: &str, host: &Option<String>) -> (r: JsonValue)
    ensures
        r.model() == purge_plan_of(config_path@, config_directory@, opt_view(*host)),
{
    let mut es: Settings = Vec::new();
    proof {
        lemma_model_entries(es@);
    }
    push_entry(&mut es, "configDirectory", JsonValue::text(config_directory));
    push_entry(&mut es, "configPath", JsonValue::text(config_path));
    push_entry(
        &mut es,
        "credentialHost",
        match host {
            Some(h) => JsonValue::String(h.clone()),
            None => JsonValue::Null,
        },
    );
    assert(model_entries(es@) =~= purge_plan_of(config_path@, config_directory@, opt_view(*host))->Object_0);
    JsonValue::Object(es)
}

/// What a purge removed (members in key order).
pub open spec fn purge_report_of(
    config_path: Seq<char>,
    config_status: Seq<char>,
    config_directory: Seq<char>,
    directory_status: Seq<char>,
    host: Option<Seq<char>>,
    removed: Seq<Seq<char>>,
) -> Json {
    Json::Object(
        seq![
            ("configDirectory"@, Json::Str(config_directory)),
            ("configDirectoryStatus"@, Json::Str(directory_status)),
            ("configPath"@, Json::Str(config_path)),
            ("configStatus"@, Json::Str(config_status)),
            ("credentialHost"@, opt_str_json(host)),
            ("credentialStoresRemoved"@, Json::Array(removed.map_values(|s: Seq<char>| Json::Str(s)))),
        ],
    )
}

/// What a purge removed: the global configuration file and directory with
/// their statuses, the host, and the stores a token was removed from.
pub fn purge_report(
    config_path: &str,
    config_status: &str,
    config_directory: &str,
    directory_status: &str,
    host: &Option<String>,
    removed: &Vec<String>,
) -> (r: JsonValue)
    ensures
        r.model() == purge_report_of(
            config_path@,
            config_status@,
            config_directory@,
            directory_status@,
            opt_view(*host),
            crate::projects::string_views(removed@),
        ),
{
    let mut items: Vec<JsonValue> = Vec::new();
    proof {
        crate::json::lemma_model_items(items@);
    }
    let mut i: usize = 0;
    while i < removed.len()
        invariant
            i <= removed.len(),
            crate::json::model_items(items@) =~= crate::projects::string_views(removed@).take(
                i as int,
            ).map_values(|s: Seq<char>| Json::Str(s)),
        decreases removed.len() - i,
    {
        let x = JsonValue::String(removed[i].clone());
        proof {
            crate::json::lemma_model_items_push(items@, x);
        }
        items.push(x);
        i = i + 1;
    }
    assert(crate::projects::string_views(removed@).take(removed.len() as int) =~= crate::projects::string_views(
        removed@,
    ));
    let mut es: Settings = Vec::new();
    proof {
        lemma_model_entries(es@);
    }
    push_entry(&mut es, "configDirectory", JsonValue::text(config_directory));
    push_entry(&mut es, "configDirectoryStatus", JsonValue::text(directory_status));
    push_entry(&mut es, "configPath", JsonValue::text(config_path));
    push_entry(&mut es, "configStatus", JsonValue::text(config_status));
    push_entry(
        &mut es,
        "credentialHost",
        match host {
            Some(h) => JsonValue::String(h.clone()),
            None => JsonValue::Null,
        },
    );
    push_entry(&mut es, "credentialStoresRemoved", JsonValue::Array(items));
    proof {
        let want = purge_report_of(
            config_path@,
            config_status@,
            config_directory@,
            directory_status@,
            opt_view(*host),
            crate::projects::string_views(removed@),
        );
        assert(model_entries(es@) =~= want->Object_0);
    }
    JsonValue::Object(es)
}

} // verus!
