//! The command line's decisions and reports: what each command needs before it
//! runs, interactive login checks, the text form of results, and the JSON
//! reports of authentication, upgrade and uninstall.

use vstd::prelude::*;

use crate::config::{canonical_host, canonical_host_of, Settings};
use crate::credentials::CredentialStoreKind;
use crate::error::{outcome, CliError, ErrorKind, Failure};
use crate::json::{
    array_of, at_path, key_views, lemma_model_entries, lemma_model_items, member, model_entries,
    model_items, object1, object2, or_null, pointer, push_entry, str_of, u64_of, Json, JsonValue, Num,
};
use crate::outside::{json_string_model, json_to_string};
use crate::summaries::{item_label, item_label_of, opt_json, opt_str_json};
use crate::text::{
    chars_eq, chars_of, decimal, decimal_chars, push_chars, push_str, str_eq, string_of, trim,
    trim_chars,
};

verus! {

/// The commands, grouped by what they need before they run.
#[derive(Debug, Clone, Copy, PartialEq, Eq, Structural)]
pub enum CommandKind {
    Upgrade,
    Uninstall,
    CommitLink,
    AuthLogin,
    AuthStatus,
    AuthLogout,
    /// Every command that talks to the OpenProject API.
    Api,
}

/// What a command needs before it runs.
#[derive(Debug, Clone, Copy, PartialEq, Eq, Structural)]
pub enum Startup {
    /// Nothing: it manages the executable or reads the repository.
    Direct,
    /// The configuration.
    Config,
    /// The configuration and a resolved host.
    Host,
    /// A host and a token: an API client.
    Client,
}

pub open spec fn startup_of(kind: CommandKind) -> Startup {
    match kind {
        CommandKind::Upgrade | CommandKind::Uninstall | CommandKind::CommitLink => Startup::Direct,
        CommandKind::AuthLogin => Startup::Config,
        CommandKind::AuthStatus | CommandKind::AuthLogout => Startup::Host,
        CommandKind::Api => Startup::Client,
    }
}

/// What a command needs before it runs.
pub fn startup(kind: CommandKind) -> (r: Startup)
    ensures
        r == startup_of(kind),
{
    match kind {
        CommandKind::Upgrade | CommandKind::Uninstall | CommandKind::CommitLink => Startup::Direct,
        CommandKind::AuthLogin => Startup::Config,
        CommandKind::AuthStatus | CommandKind::AuthLogout => Startup::Host,
        CommandKind::Api => Startup::Client,
    }
}

/// Upgrading, uninstalling and commit links never need OpenProject
/// credentials (nor configuration); only API commands need a token.
pub proof fn law_self_management_needs_no_credentials(kind: CommandKind)
    ensures
        (kind == CommandKind::Upgrade || kind == CommandKind::Uninstall || kind == CommandKind::CommitLink)
            ==> startup_of(kind) == Startup::Direct,
        startup_of(kind) == Startup::Client <==> kind == CommandKind::Api,
{
}

/// An answer that accepts a `[y/N]` question: `y`, `Y`, `yes` or `YES`. No is
/// the default, so an empty answer declines.
pub open spec fn confirms(response: Seq<char>) -> bool {
    response == "y"@ || response == "Y"@ || response == "yes"@ || response == "YES"@
}

/// Whether the (trimmed) answer to a `[y/N]` confirmation prompt accepts.
pub fn prompt_confirmation(response: &str) -> (r: bool)
    ensures
        r == confirms(response@),
        response@.len() == 0 ==> !r,
{
    proof {
        reveal_strlit("y");
        reveal_strlit("Y");
        reveal_strlit("yes");
        reveal_strlit("YES");
    }
    str_eq(response, "y") || str_eq(response, "Y") || str_eq(response, "yes") || str_eq(response, "YES")
}

/// The example server URL of the documentation, refused by login.
pub open spec fn example_host() -> Seq<char> {
    "https://openproject.example.com"@
}

/// The server login verifies and saves: given, canonical, and not the example.
pub open spec fn login_host_of(entered: Seq<char>) -> Result<Seq<char>, Failure> {
    if entered.len() == 0 {
        Err((ErrorKind::LoginHostRequired, Seq::<Seq<char>>::empty()))
    } else {
        match canonical_host_of(entered) {
            Err(e) => Err(e),
            Ok(h) => if h == example_host() {
                Err((ErrorKind::ExampleHost, Seq::<Seq<char>>::empty()))
            } else {
                Ok(h)
            },
        }
    }
}

/// Checks the server URL given to login.
pub fn login_host(entered: &str) -> (r: Result<String, CliError>)
    ensures
        outcome(r, |s: String| s@) == login_host_of(entered@),
{
    if chars_of(entered).len() == 0 {
        return Err(CliError::new(ErrorKind::LoginHostRequired));
    }
    let h = match canonical_host(entered) {
        Ok(h) => h,
        Err(e) => return Err(e),
    };
    if str_eq(h.as_str(), "https://openproject.example.com") {
        return Err(CliError::new(ErrorKind::ExampleHost));
    }
    Ok(h)
}

/// Login refuses JSON output, then a token of white space only.
pub fn login_token_check(token: &str) -> (r: Result<(), CliError>)
    ensures
        outcome(r, |u: ()| u) == if trim(token@).len() == 0 {
            Err((ErrorKind::LoginTokenRequired, Seq::<Seq<char>>::empty()))
        } else {
            Ok(())
        },
{
    if trim_chars(&chars_of(token)).len() == 0 {
        Err(CliError::new(ErrorKind::LoginTokenRequired))
    } else {
        Ok(())
    }
}

/// Login cannot print JSON.
pub fn login_output_check(json: bool) -> (r: Result<(), CliError>)
    ensures
        outcome(r, |u: ()| u) == if json {
            Err((ErrorKind::LoginJson, Seq::<Seq<char>>::empty()))
        } else {
            Ok(())
        },
{
    if json {
        Err(CliError::new(ErrorKind::LoginJson))
    } else {
        Ok(())
    }
}

/// The stores login tries, in order, until one keeps the token: the preferred
/// store, then the file.
pub fn login_store_order(preferred: CredentialStoreKind) -> (r: Vec<CredentialStoreKind>)
    ensures
        r@ == seq![preferred, CredentialStoreKind::File],
{
    let v = vec![preferred, CredentialStoreKind::File];
    assert(v@ =~= seq![preferred, CredentialStoreKind::File]);
    v
}

/// A store kept the token when saving succeeded and loading gives it back.
pub fn token_kept(saved: bool, loaded: &Option<String>, token: &str) -> (r: bool)
    ensures
        r == (saved && (loaded matches Some(t) && t@ == token@)),
{
    saved && match loaded {
        Some(t) => str_eq(t.as_str(), token),
        None => false,
    }
}

/// The output of `git`: its trimmed standard output, or its trimmed standard
/// error as the failure.
pub open spec fn git_output_of(success: bool, stdout: Seq<char>, stderr: Seq<char>) -> Result<Seq<char>, Failure> {
    if success {
        Ok(trim(stdout))
    } else {
        Err((ErrorKind::Git, seq![trim(stderr)]))
    }
}

/// The result of a `git` command from its exit status and output text.
pub fn git_output(success: bool, stdout: &str, stderr: &str) -> (r: Result<String, CliError>)
    ensures
        outcome(r, |s: String| s@) == git_output_of(success, stdout@, stderr@),
{
    if success {
        Ok(string_of(&trim_chars(&chars_of(stdout))))
    } else {
        Err(CliError::with(ErrorKind::Git, string_of(&trim_chars(&chars_of(stderr)))))
    }
}

/// The repository root from `git rev-parse --show-toplevel`: none outside a repository.
pub fn git_root(rev_parse: Result<String, CliError>) -> (r: Option<String>)
    ensures
        match rev_parse {
            Ok(s) => r matches Some(t) && t@ == s@,
            Err(_) => r is None,
        },
{
    match rev_parse {
        Ok(s) => Some(s),
        Err(_) => None,
    }
}

/// The text a commit link prints in the `url` and `html` formats; none for JSON.
pub fn commit_link_text(link: &JsonValue, format: &str) -> (r: Option<String>)
    ensures
        r matches Some(s) ==> (format@ == "url"@ && str_of(member(link.model(), "url"@)) == Some(s@)) || (
        format@ == "html"@ && str_of(member(link.model(), "html"@)) == Some(s@)),
        (format@ != "url"@ && format@ != "html"@) ==> r is None,
        (format@ == "url"@ && str_of(member(link.model(), "url"@)) is Some) ==> r is Some,
        (format@ == "html"@ && str_of(member(link.model(), "html"@)) is Some) ==> r is Some,
{
    let key = if str_eq(format, "url") {
        "url"
    } else if str_eq(format, "html") {
        "html"
    } else {
        return None;
    };
    match link.get(key) {
        Some(v) => match v.as_str() {
            Some(s) => Some(s.clone()),
            None => None,
        },
        None => None,
    }
}

/// The line of one listed item: `#ID label`, or the label alone without a
/// numeric ID; `(untitled)` without a label.
pub open spec fn item_line_of(item: Json) -> Seq<char> {
    let label = match item_label_of(item) {
        Some(l) => l,
        None => "(untitled)"@,
    };
    match u64_of(member(item, "id"@)) {
        Some(n) => "#"@ + decimal(n as nat) + " "@ + label,
        None => label,
    }
}

/// The line of one listed item.
pub fn item_line(item: &JsonValue) -> (r: String)
    ensures
        r@ == item_line_of(item.model()),
{
    let id = match item.get("id") {
        Some(x) => x.as_u64(),
        None => None,
    };
    let mut v: Vec<char> = Vec::new();
    match id {
        Some(n) => {
            push_str(&mut v, "#");
            push_chars(&mut v, &decimal_chars(n));
            push_str(&mut v, " ");
        },
        None => {},
    }
    match item_label(item) {
        Some(l) => push_str(&mut v, l.as_str()),
        None => push_str(&mut v, "(untitled)"),
    }
    string_of(&v)
}

/// The lines of a list of items.
pub fn item_lines(items: &Vec<JsonValue>) -> (r: Vec<String>)
    ensures
        crate::projects::string_views(r@) == model_items(items@).map_values(|j: Json| item_line_of(j)),
{
    let ghost ms = model_items(items@);
    proof {
        lemma_model_items(items@);
    }
    let mut out: Vec<String> = Vec::new();
    let mut i: usize = 0;
    while i < items.len()
        invariant
            i <= items.len(),
            ms == model_items(items@),
            ms.len() == items.len(),
            forall|k: int| 0 <= k < items.len() ==> #[trigger] ms[k] == items@[k].model(),
            crate::projects::string_views(out@) =~= ms.take(i as int).map_values(|j: Json| item_line_of(j)),
        decreases items.len() - i,
    {
        let l = item_line(&items[i]);
        let ghost before = out@;
        out.push(l);
        proof {
            assert(crate::projects::string_views(out@) =~= crate::projects::string_views(before).push(l@));
            assert(ms.take(i + 1) =~= ms.take(i as int).push(ms[i as int]));
        }
        i = i + 1;
    }
    assert(ms.take(items.len() as int) =~= ms);
    out
}

/// The "more results" line of a page with a next link.
pub open spec fn more_line(next: Option<Seq<char>>) -> Seq<Seq<char>> {
    match next {
        Some(n) => seq!["More results: "@ + n],
        None => Seq::empty(),
    }
}

/// How a result prints without `--json`: the lines of a list (an array, an
/// `items` page, an embedded collection) with the link to more results, or the
/// line of one labelled item; `None` when it prints as pretty JSON.
pub open spec fn display_lines_of(v: Json) -> Option<Seq<Seq<char>>> {
    if v is Array {
        Some(v->Array_0.map_values(|j: Json| item_line_of(j)))
    } else if array_of(member(v, "items"@)) is Some {
        Some(
            array_of(member(v, "items"@))->Some_0.map_values(|j: Json| item_line_of(j)) + more_line(
                str_of(member(v, "next"@)),
            ),
        )
    } else if array_of(at_path(v, seq!["_embedded"@, "elements"@])) is Some {
        Some(
            array_of(at_path(v, seq!["_embedded"@, "elements"@]))->Some_0.map_values(
                |j: Json| item_line_of(j),
            ) + more_line(str_of(at_path(v, seq!["_links"@, "nextByOffset"@, "href"@]))),
        )
    } else if item_label_of(v) is Some {
        Some(seq![item_line_of(v)])
    } else {
        None
    }
}

fn push_more(lines: &mut Vec<String>, next: Option<&JsonValue>)
    ensures
        crate::projects::string_views(final(lines)@) == crate::projects::string_views(old(lines)@) + more_line(
            match next {
                Some(x) => str_of(Some(x.model())),
                None => None,
            },
        ),
{
    let ghost before = crate::projects::string_views(lines@);
    match next {
        Some(x) => match x.as_str() {
            Some(n) => {
                let mut v = chars_of("More results: ");
                push_str(&mut v, n.as_str());
                lines.push(string_of(&v));
                assert(crate::projects::string_views(lines@) =~= before + seq!["More results: "@ + n@]);
            },
            None => {
                assert(crate::projects::string_views(lines@) =~= before);
            },
        },
        None => {
            assert(crate::projects::string_views(lines@) =~= before);
        },
    }
}

/// How a result prints without `--json` (see `display_lines_of`).
pub fn display_lines(v: &JsonValue) -> (r: Option<Vec<String>>)
    ensures
        match r {
            Some(lines) => display_lines_of(v.model()) == Some(crate::projects::string_views(lines@)),
            None => display_lines_of(v.model()) is None,
        },
{
    if let JsonValue::Array(items) = v {
        return Some(item_lines(items));
    }
    match v.get("items") {
        Some(x) => match x.as_array() {
            Some(items) => {
                let mut lines = item_lines(items);
                push_more(&mut lines, v.get("next"));
                return Some(lines);
            },
            None => {},
        },
        None => {},
    }
    let ek = vec!["_embedded", "elements"];
    assert(key_views(ek@) =~= seq!["_embedded"@, "elements"@]);
    match pointer(v, &ek) {
        Some(x) => match x.as_array() {
            Some(items) => {
                let mut lines = item_lines(items);
                let nk = vec!["_links", "nextByOffset", "href"];
                assert(key_views(nk@) =~= seq!["_links"@, "nextByOffset"@, "href"@]);
                push_more(&mut lines, pointer(v, &nk));
                return Some(lines);
            },
            None => {},
        },
        None => {},
    }
    if item_label(v).is_some() {
        let mut lines: Vec<String> = Vec::new();
        lines.push(item_line(v));
        assert(crate::projects::string_views(lines@) =~= seq![item_line_of(v.model())]);
        return Some(lines);
    }
    None
}

/// The user of a valid credential: `{"id", "name"}` with the login when there
/// is no name member.
pub open spec fn user_summary_of(user: Json) -> Json {
    Json::Object(
        seq![
            ("id"@, opt_json(member(user, "id"@))),
            ("name"@, opt_json(
                if member(user, "name"@) is Some {
                    member(user, "name"@)
                } else {
                    member(user, "login"@)
                },
            )),
        ],
    )
}

/// The authentication report (members in key order). `source` is where the
/// token came from (none without a credential); `user` the account the API
/// returned for it (none when the check failed).
pub open spec fn auth_status_of(host: Seq<char>, source: Option<Seq<char>>, user: Option<Json>) -> Json {
    let (authenticated, u) = match source {
        None => (false, Json::Null),
        Some(_) => match user {
            Some(x) => (true, user_summary_of(x)),
            None => (false, Json::Null),
        },
    };
    Json::Object(
        seq![
            ("authenticated"@, Json::Bool(authenticated)),
            ("credential_source"@, opt_str_json(source)),
            ("host"@, Json::Str(host)),
            ("user"@, u),
        ],
    )
}

/// The JSON authentication report.
pub fn auth_status_value(host: &str, source: Option<&str>, user: Option<&JsonValue>) -> (r: JsonValue)
    ensures
        r.model() == auth_status_of(
            host@,
            crate::config::opt_str_view(source),
            match user {
                Some(u) => Some(u.model()),
                None => None,
            },
        ),
{
    let (authenticated, u) = match source {
        None => (false, JsonValue::Null),
        Some(_) => match user {
            Some(x) => {
                let name = match x.get("name") {
                    Some(n) => Some(n),
                    None => x.get("login"),
                };
                (true, object2("id", or_null(x.get("id")), "name", or_null(name)))
            },
            None => (false, JsonValue::Null),
        },
    };
    let mut es: Settings = Vec::new();
    proof {
        lemma_model_entries(es@);
    }
    push_entry(&mut es, "authenticated", JsonValue::Bool(authenticated));
    push_entry(
        &mut es,
        "credential_source",
        match source {
            Some(s) => JsonValue::text(s),
            None => JsonValue::Null,
        },
    );
    push_entry(&mut es, "host", JsonValue::text(host));
    push_entry(&mut es, "user", u);
    proof {
        let want = auth_status_of(
            host@,
            crate::config::opt_str_view(source),
            match user {
                Some(u) => Some(u.model()),
                None => None,
            },
        );
        assert(model_entries(es@) =~= want->Object_0);
    }
    JsonValue::Object(es)
}

/// `s` with every `_` shown as a space.
pub open spec fn spaced(s: Seq<char>) -> Seq<char> {
    s.map_values(|c: char| if c == '_' { ' ' } else { c })
}

/// The text authentication report.
pub open spec fn auth_status_text_of(host: Seq<char>, source: Option<Seq<char>>, authenticated: bool) -> Seq<char> {
    match source {
        None => "OpenProject authentication\n\nHost:       "@ + host
            + "\nCredential: unavailable\nStatus:     not authenticated"@,
        Some(s) => "OpenProject authentication\n\nHost:       "@ + host + "\nCredential: available\nStorage:    "@
            + spaced(s) + "\nStatus:     "@ + (if authenticated {
            "authenticated"@
        } else {
            "authentication failed"@
        }),
    }
}

/// The text authentication report.
pub fn auth_status_text(host: &str, source: Option<&str>, authenticated: bool) -> (r: String)
    ensures
        r@ == auth_status_text_of(host@, crate::config::opt_str_view(source), authenticated),
{
    let mut v = chars_of("OpenProject authentication\n\nHost:       ");
    push_str(&mut v, host);
    match source {
        None => {
            push_str(&mut v, "\nCredential: unavailable\nStatus:     not authenticated");
        },
        Some(s) => {
            push_str(&mut v, "\nCredential: available\nStorage:    ");
            let cs = chars_of(s);
            let ghost start = v@;
            let mut i: usize = 0;
            while i < cs.len()
                invariant
                    i <= cs.len(),
                    cs@ == s@,
                    v@ =~= start + spaced(cs@.take(i as int)),
                decreases cs.len() - i,
            {
                let c = cs[i];
                v.push(if c == '_' { ' ' } else { c });
                assert(cs@.take(i + 1) =~= cs@.take(i as int).push(c));
                i = i + 1;
            }
            assert(cs@.take(cs.len() as int) =~= cs@);
            push_str(&mut v, "\nStatus:     ");
            push_str(&mut v, if authenticated { "authenticated" } else { "authentication failed" });
        },
    }
    string_of(&v)
}

/// The report of a logout: the host and whether a token was removed.
pub fn logout_report(host: &str, removed: bool) -> (r: JsonValue)
    ensures
        r.model() == Json::Object(seq![("credentialRemoved"@, Json::Bool(removed)), ("host"@, Json::Str(host@))]),
{
    object2("credentialRemoved", JsonValue::Bool(removed), "host", JsonValue::text(host))
}

/// What a dry-run `project --bind` reports: the project, the file it would be
/// bound in, and its id (members in key order).
pub fn bind_preview(project: JsonValue, path: &str, project_id: u64) -> (r: JsonValue)
    ensures
        r.model() == Json::Object(
            seq![
                ("bind"@, Json::Str(path@)),
                ("dryRun"@, Json::Bool(true)),
                ("project"@, project.model()),
                ("projectId"@, Json::Number(Num::Unsigned(project_id))),
            ],
        ),
{
    let ghost pm = project.model();
    let mut es: Settings = Vec::new();
    proof {
        lemma_model_entries(es@);
    }
    push_entry(&mut es, "bind", JsonValue::text(path));
    push_entry(&mut es, "dryRun", JsonValue::Bool(true));
    push_entry(&mut es, "project", project);
    push_entry(&mut es, "projectId", JsonValue::unsigned(project_id));
    assert(model_entries(es@) =~= seq![
        ("bind"@, Json::Str(path@)),
        ("dryRun"@, Json::Bool(true)),
        ("project"@, pm),
        ("projectId"@, Json::Number(Num::Unsigned(project_id))),
    ]);
    JsonValue::Object(es)
}

/// What `project --bind` reports once the project is bound in `path`.
pub fn bind_report(project: JsonValue, path: &str) -> (r: JsonValue)
    ensures
        r.model() == Json::Object(seq![("bound"@, Json::Str(path@)), ("project"@, project.model())]),
{
    object2("bound", JsonValue::text(path), "project", project)
}

/// The error report of `--json` runs: `{"error": {"message": ...}}`.
pub fn error_payload(message: &str) -> (r: JsonValue)
    ensures
        r.model() == Json::Object(seq![("error"@, Json::Object(seq![("message"@, Json::Str(message@))]))]),
{
    object1("error", object1("message", JsonValue::text(message)))
}

/// What a dry-run upgrade reports (members in key order).
pub fn upgrade_preview(path: &str, version: &str, installer: &str) -> (r: JsonValue)
    ensures
        r.model() == Json::Object(
            seq![
                ("dryRun"@, Json::Bool(true)),
                ("installer"@, Json::Str(installer@)),
                ("operation"@, Json::Str("upgrade"@)),
                ("path"@, Json::Str(path@)),
                ("version"@, Json::Str(version@)),
            ],
        ),
{
    let mut es: Settings = Vec::new();
    proof {
        lemma_model_entries(es@);
    }
    push_entry(&mut es, "dryRun", JsonValue::Bool(true));
    push_entry(&mut es, "installer", JsonValue::text(installer));
    push_entry(&mut es, "operation", JsonValue::text("upgrade"));
    push_entry(&mut es, "path", JsonValue::text(path));
    push_entry(&mut es, "version", JsonValue::text(version));
    assert(model_entries(es@) =~= seq![
        ("dryRun"@, Json::Bool(true)),
        ("installer"@, Json::Str(installer@)),
        ("operation"@, Json::Str("upgrade"@)),
        ("path"@, Json::Str(path@)),
        ("version"@, Json::Str(version@)),
    ]);
    JsonValue::Object(es)
}

/// What an upgrade reports: `already-current`, `updated` or `scheduled`.
pub fn upgrade_report(path: &str, status: &str, version: &str) -> (r: JsonValue)
    ensures
        r.model() == Json::Object(
            seq![
                ("operation"@, Json::Str("upgrade"@)),
                ("path"@, Json::Str(path@)),
                ("status"@, Json::Str(status@)),
                ("version"@, Json::Str(version@)),
            ],
        ),
{
    let mut es: Settings = Vec::new();
    proof {
        lemma_model_entries(es@);
    }
    push_entry(&mut es, "operation", JsonValue::text("upgrade"));
    push_entry(&mut es, "path", JsonValue::text(path));
    push_entry(&mut es, "status", JsonValue::text(status));
    push_entry(&mut es, "version", JsonValue::text(version));
    assert(model_entries(es@) =~= seq![
        ("operation"@, Json::Str("upgrade"@)),
        ("path"@, Json::Str(path@)),
        ("status"@, Json::Str(status@)),
        ("version"@, Json::Str(version@)),
    ]);
    JsonValue::Object(es)
}

/// An upgrade installs only a version other than the running one.
pub fn upgrade_needed(target: &str, current: &str) -> (r: bool)
    ensures
        r == (target@ != current@),
{
    !str_eq(target, current)
}

/// A value, or null.
pub open spec fn opt_model(o: Option<JsonValue>) -> Json {
    match o {
        Some(p) => p.model(),
        None => Json::Null,
    }
}

/// What a dry-run uninstall reports (members in key order).
pub fn uninstall_preview(path: &str, purge: Option<JsonValue>) -> (r: JsonValue)
    ensures
        r.model() == Json::Object(
            seq![
                ("dryRun"@, Json::Bool(true)),
                ("operation"@, Json::Str("uninstall"@)),
                ("path"@, Json::Str(path@)),
                ("purge"@, opt_model(purge)),
            ],
        ),
{
    let mut es: Settings = Vec::new();
    proof {
        lemma_model_entries(es@);
    }
    let ghost pm = opt_model(purge);
    push_entry(&mut es, "dryRun", JsonValue::Bool(true));
    push_entry(&mut es, "operation", JsonValue::text("uninstall"));
    push_entry(&mut es, "path", JsonValue::text(path));
    push_entry(
        &mut es,
        "purge",
        match purge {
            Some(p) => p,
            None => JsonValue::Null,
        },
    );
    assert(model_entries(es@) =~= seq![
        ("dryRun"@, Json::Bool(true)),
        ("operation"@, Json::Str("uninstall"@)),
        ("path"@, Json::Str(path@)),
        ("purge"@, pm),
    ]);
    JsonValue::Object(es)
}

/// What an uninstall reports (members in key order).
pub fn uninstall_report(path: &str, purge: Option<JsonValue>, status: &str) -> (r: JsonValue)
    ensures
        r.model() == Json::Object(
            seq![
                ("path"@, Json::Str(path@)),
                ("purge"@, opt_model(purge)),
                ("status"@, Json::Str(status@)),
            ],
        ),
{
    let mut es: Settings = Vec::new();
    proof {
        lemma_model_entries(es@);
    }
    let ghost pm = opt_model(purge);
    push_entry(&mut es, "path", JsonValue::text(path));
    push_entry(
        &mut es,
        "purge",
        match purge {
            Some(p) => p,
            None => JsonValue::Null,
        },
    );
    push_entry(&mut es, "status", JsonValue::text(status));
    assert(model_entries(es@) =~= seq![
        ("path"@, Json::Str(path@)),
        ("purge"@, pm),
        ("status"@, Json::Str(status@)),
    ]);
    JsonValue::Object(es)
}

/// The lines of a dry-run uninstall: the executable, and with a purge the
/// configuration file, its directory and the stored credentials.
pub open spec fn uninstall_preview_lines_of(
    path: Seq<char>,
    purge: Option<(Seq<char>, Seq<char>, Option<Seq<char>>)>,
) -> Seq<Seq<char>> {
    seq!["Would remove "@ + path] + match purge {
        None => Seq::empty(),
        Some((config_path, config_directory, host)) => seq![
            "Would remove global config "@ + config_path,
            "Would remove global config directory "@ + config_directory + " if it is empty"@,
            match host {
                Some(h) => "Would remove stored credentials for "@ + h,
                None => "No configured host found; stored credentials would be preserved"@,
            },
        ],
    }
}

fn joined(a: &str, b: &str) -> (r: String)
    ensures
        r@ == a@ + b@,
{
    let mut v = chars_of(a);
    push_str(&mut v, b);
    string_of(&v)
}

/// The lines of a dry-run uninstall.
pub fn uninstall_preview_lines(
    path: &str,
    purge: &Option<(String, String, Option<String>)>,
) -> (r: Vec<String>)
    ensures
        crate::projects::string_views(r@) == uninstall_preview_lines_of(
            path@,
            match purge {
                Some((a, b, h)) => Some((a@, b@, crate::outside::opt_view(*h))),
                None => None,
            },
        ),
{
    let mut out: Vec<String> = Vec::new();
    out.push(joined("Would remove ", path));
    match purge {
        Some((config_path, config_directory, host)) => {
            out.push(joined("Would remove global config ", config_path.as_str()));
            let mut d = chars_of("Would remove global config directory ");
            push_str(&mut d, config_directory.as_str());
            push_str(&mut d, " if it is empty");
            out.push(string_of(&d));
            match host {
                Some(h) => out.push(joined("Would remove stored credentials for ", h.as_str())),
                None => out.push("No configured host found; stored credentials would be preserved".to_owned()),
            }
        },
        None => {},
    }
    proof {
        let want = uninstall_preview_lines_of(
            path@,
            match purge {
                Some((a, b, h)) => Some((a@, b@, crate::outside::opt_view(*h))),
                None => None,
            },
        );
        assert(crate::projects::string_views(out@) =~= want);
    }
    out
}

/// `items` joined by `sep`.
pub open spec fn join_with(items: Seq<Seq<char>>, sep: Seq<char>) -> Seq<char>
    decreases items.len(),
{
    if items.len() == 0 {
        Seq::empty()
    } else if items.len() == 1 {
        items[0]
    } else {
        join_with(items.drop_last(), sep) + sep + items.last()
    }
}

/// `items` joined by `sep`.
pub fn join_texts(items: &Vec<String>, sep: &str) -> (r: String)
    ensures
        r@ == join_with(crate::projects::string_views(items@), sep@),
{
    let ghost vs = crate::projects::string_views(items@);
    let mut v: Vec<char> = Vec::new();
    let mut i: usize = 0;
    assert(vs.take(0) =~= Seq::<Seq<char>>::empty());
    while i < items.len()
        invariant
            i <= items.len(),
            vs == crate::projects::string_views(items@),
            v@ == join_with(vs.take(i as int), sep@),
        decreases items.len() - i,
    {
        let ghost before = v@;
        if i > 0 {
            push_str(&mut v, sep);
        }
        push_str(&mut v, items[i].as_str());
        proof {
            let t = vs.take(i + 1);
            assert(t.drop_last() =~= vs.take(i as int));
            if i == 0 {
                assert(v@ =~= t[0]);
            } else {
                assert(v@ =~= join_with(t.drop_last(), sep@) + sep@ + t.last());
            }
        }
        i = i + 1;
    }
    assert(vs.take(items.len() as int) =~= vs);
    string_of(&v)
}

/// The lines a purge adds after an uninstall: the configuration's status and,
/// where the directory was kept, its path (both given as JSON strings), and the
/// stores a token was removed from.
pub open spec fn purge_lines_of(
    quoted_status: Seq<char>,
    quoted_directory: Seq<char>,
    directory_status: Seq<char>,
    removed: Seq<Seq<char>>,
) -> Seq<Seq<char>> {
    seq![
        "Global config: "@ + quoted_status,
        if directory_status == "not_empty"@ {
            "Global config directory retained because it is not empty: "@ + quoted_directory
        } else {
            "Global config directory: "@ + directory_status
        },
        if removed.len() == 0 {
            "Stored credentials: none removed"@
        } else {
            "Stored credentials removed from: "@ + join_with(removed, ", "@)
        },
    ]
}

/// The lines after an uninstall: the executable's fate, then with a purge the
/// configuration's (its status and directory written as JSON strings) and the
/// stores a token was removed from.
pub open spec fn uninstall_lines_of(
    path: Seq<char>,
    status: Seq<char>,
    purge: Option<(Seq<char>, Seq<char>, Seq<char>, Seq<Seq<char>>)>,
) -> Seq<Seq<char>> {
    seq![
        if status == "scheduled"@ {
            "Scheduled removal of "@ + path + " after this process exits"@
        } else {
            "Removed "@ + path
        },
    ] + match purge {
        None => Seq::empty(),
        Some((config_status, config_directory, directory_status, removed)) => purge_lines_of(
            json_string_model(Json::Str(config_status)),
            json_string_model(Json::Str(config_directory)),
            directory_status,
            removed,
        ),
    }
}

/// The lines a purge adds, given the JSON strings of the configuration's
/// status and directory.
pub fn purge_lines(
    quoted_status: &str,
    quoted_directory: &str,
    directory_status: &str,
    removed: &Vec<String>,
) -> (r: Vec<String>)
    ensures
        crate::projects::string_views(r@) == purge_lines_of(
            quoted_status@,
            quoted_directory@,
            directory_status@,
            crate::projects::string_views(removed@),
        ),
{
    let mut out: Vec<String> = Vec::new();
    out.push(joined("Global config: ", quoted_status));
    if str_eq(directory_status, "not_empty") {
        out.push(joined("Global config directory retained because it is not empty: ", quoted_directory));
    } else {
        out.push(joined("Global config directory: ", directory_status));
    }
    if removed.len() == 0 {
        out.push("Stored credentials: none removed".to_owned());
    } else {
        let stores = join_texts(removed, ", ");
        out.push(joined("Stored credentials removed from: ", stores.as_str()));
    }
    proof {
        let want = purge_lines_of(
            quoted_status@,
            quoted_directory@,
            directory_status@,
            crate::projects::string_views(removed@),
        );
        assert(crate::projects::string_views(out@) =~= want);
    }
    out
}

/// The lines after an uninstall.
pub fn uninstall_lines(
    path: &str,
    status: &str,
    purge: &Option<(String, String, String, Vec<String>)>,
) -> (r: Vec<String>)
    ensures
        crate::projects::string_views(r@) == uninstall_lines_of(
            path@,
            status@,
            match purge {
                Some((a, b, c, d)) => Some((a@, b@, c@, crate::projects::string_views(d@))),
                None => None,
            },
        ),
{
    let mut out: Vec<String> = Vec::new();
    if str_eq(status, "scheduled") {
        let mut v = chars_of("Scheduled removal of ");
        push_str(&mut v, path);
        push_str(&mut v, " after this process exits");
        out.push(string_of(&v));
    } else {
        out.push(joined("Removed ", path));
    }
    let ghost first = out@;
    match purge {
        Some((config_status, config_directory, directory_status, removed)) => {
            let quoted_status = json_to_string(&JsonValue::String(config_status.clone()));
            let quoted_directory = json_to_string(&JsonValue::String(config_directory.clone()));
            let mut more = purge_lines(quoted_status.as_str(), quoted_directory.as_str(), directory_status.as_str(), removed);
            let ghost added = more@;
            out.append(&mut more);
            proof {
                assert(out@ =~= first + added);
                assert(crate::projects::string_views(out@) =~= crate::projects::string_views(first)
                    + crate::projects::string_views(added));
            }
        },
        None => {},
    }
    proof {
        let want = uninstall_lines_of(
            path@,
            status@,
            match purge {
                Some((a, b, c, d)) => Some((a@, b@, c@, crate::projects::string_views(d@))),
                None => None,
            },
        );
        assert(crate::projects::string_views(out@) =~= want);
    }
    out
}

} // verus!
