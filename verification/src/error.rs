//! The failures the client reports, each with the data its message names.

use vstd::prelude::*;

use crate::cli::{join_texts, join_with};
use crate::outside::{debug_quoted, debug_text};
use crate::text::{push_str, string_of};

verus! {

#[derive(Debug, Clone, Copy, PartialEq, Eq, Structural)]
pub enum ErrorKind {
    /// A configuration file holds a key that its scope does not support.
    UnsupportedSetting,
    /// `host` is present but not a non-blank string.
    InvalidHostSetting,
    /// `project_id`/`project` is present but neither a non-blank string nor a positive integer.
    InvalidProjectSetting,
    /// `credential_store` is present but not `"native"` or `"file"`.
    InvalidCredentialStoreSetting,
    /// A configuration file is not valid JSON; `detail` is the parser's message.
    InvalidConfigJson,
    /// A configuration file holds JSON other than an object.
    ConfigNotObject,
    /// No host from the command line, the environment or configuration.
    MissingHost,
    /// A host that is not an absolute http(s) URL; `detail` is the URL parser's
    /// message when parsing failed.
    InvalidHostUrl,
    /// The platform configuration directory is unknown (credential file).
    NoCredentialDirectory,
    /// The platform configuration directory is unknown (global configuration).
    NoGlobalConfigDirectory,
    /// `OPENPROJECT_TOKEN_FILE` could not be read.
    TokenFileUnreadable,
    /// `OPENPROJECT_TOKEN_FILE` holds only white space.
    TokenFileEmpty,
    /// The configured persistent store failed and no other store had a token.
    ConfiguredCredentialUnreadable,
    /// No credential anywhere.
    NoCredential,
    /// Logout without a configured persistent store.
    NoPersistentStore,
    /// Interactive login was given no server URL.
    LoginHostRequired,
    /// Interactive login was given the documentation's example URL.
    ExampleHost,
    /// An absolute request URL points at another origin than the configured host.
    CrossHostUrl,
    /// A URL could not be parsed; `detail` is the parser's message.
    UrlParse,
    /// A non-success HTTP status with the server's detail.
    Http,
    /// A success response whose body is not JSON; `detail` is the parser's message.
    InvalidResponseJson,
    /// A response object without a numeric `id`.
    MissingId,
    NoProjectMatch,
    AmbiguousProject,
    UnresolvedDirectory,
    RelatedProjectsOnly,
    AmbiguousDirectory,
    NoItemMatch,
    AmbiguousItem,
    InvalidUser,
    NoActivitySchema,
    NoAllowedActivities,
    ActivityWithoutLink,
    ActivityWithoutName,
    NoActivityMatch,
    AmbiguousActivity,
    NoProjectLink,
    InvalidCustomFieldKey,
    CustomFieldFormat,
    LinkedCustomFieldFormat,
    DuplicateCustomField,
    LinkedCustomFieldHref,
    InvalidUpdatedSince,
    ZeroUpdatedSince,
    UnsupportedSortField,
    InvalidSortDirection,
    InvalidDueBefore,
    InvalidDate,
    NoUpdateFields,
    ConflictingClear,
    InvalidPattern,
    RemoteWithoutHost,
    UnsupportedRemote,
    UnknownCommitRoute,
    Git,
    /// Interactive login was asked for JSON output.
    LoginJson,
    /// Interactive login was given an empty token.
    LoginTokenRequired,
    /// The latest-release check got no redirect; `args` are the URL and the status.
    ReleaseNotRedirected,
    /// The latest-release redirect had no `Location`.
    ReleaseNoLocation,
    /// The latest-release `Location` was not visible text.
    ReleaseLocationUnreadable,
    /// The latest-release `Location` is not a URL; `args` are it and the parser's message.
    ReleaseLocationInvalid,
    /// The latest-release `Location` names no version.
    ReleaseNoVersion,
    /// The system credential store cannot be reached from this session.
    StoreUnavailable,
    /// The system credential store's entry could not be opened; `args` may hold the reason.
    StoreAccess,
    /// The system credential store refused to give the token.
    StoreRead,
    /// The system credential store refused the token; `args` hold the reason.
    StoreSave,
    /// The system credential store refused to remove the token; `args` hold the reason.
    StoreRemove,
    /// The credential file exists but cannot be read or parsed.
    CredentialFileUnreadable,
    /// Writing the credential file failed; `args` hold what failed and why.
    CredentialFileWrite,
    /// The emptied credential file could not be removed; `args` are its path and the reason.
    CredentialFileRemove,
}


/// A failure: its kind and the texts its message names, in order.
#[derive(Debug)]
pub struct CliError {
    pub kind: ErrorKind,
    pub args: Vec<String>,
}

pub open spec fn views(v: Seq<String>) -> Seq<Seq<char>> {
    v.map_values(|s: String| s@)
}

impl View for CliError {
    type V = (ErrorKind, Seq<Seq<char>>);

    open spec fn view(&self) -> (ErrorKind, Seq<Seq<char>>) {
        (self.kind, views(self.args@))
    }
}

/// A failure's kind and the texts its message names.
pub type Failure = (ErrorKind, Seq<Seq<char>>);

/// The view of a result: the view of its value, or its failure.
pub open spec fn outcome<T, V>(r: Result<T, CliError>, f: spec_fn(T) -> V) -> Result<V, Failure> {
    match r {
        Ok(v) => Ok(f(v)),
        Err(e) => Err(e@),
    }
}

/// The failure of a result, if it failed.
pub open spec fn failure<T>(r: Result<T, CliError>) -> Option<(ErrorKind, Seq<Seq<char>>)> {
    match r {
        Ok(_) => None,
        Err(e) => Some(e@),
    }
}

impl CliError {
    pub fn new(kind: ErrorKind) -> (e: CliError)
        ensures
            e@ == (kind, Seq::<Seq<char>>::empty()),
    {
        let args: Vec<String> = Vec::new();
        assert(views(args@) =~= Seq::<Seq<char>>::empty());
        CliError { kind, args }
    }

    pub fn with(kind: ErrorKind, a: String) -> (e: CliError)
        ensures
            e@ == (kind, seq![a@]),
    {
        let mut args: Vec<String> = Vec::new();
        args.push(a);
        assert(views(args@) =~= seq![a@]);
        CliError { kind, args }
    }

    pub fn with2(kind: ErrorKind, a: String, b: String) -> (e: CliError)
        ensures
            e@ == (kind, seq![a@, b@]),
    {
        let mut args: Vec<String> = Vec::new();
        args.push(a);
        args.push(b);
        assert(views(args@) =~= seq![a@, b@]);
        CliError { kind, args }
    }
}

/// The `i`-th text a failure names (empty when it names fewer).
pub open spec fn arg_of(f: Failure, i: int) -> Seq<char> {
    if 0 <= i < f.1.len() {
        f.1[i]
    } else {
        Seq::empty()
    }
}

/// The message a failure prints (`{value:?}` being the quoted, escaped text).
pub open spec fn message_of(f: Failure) -> Seq<char> {
    let a0 = arg_of(f, 0);
    let a1 = arg_of(f, 1);
    match f.0 {
        ErrorKind::UnsupportedSetting => "unsupported setting "@ + debug_quoted(a0) + " in "@ + a1,
        ErrorKind::InvalidHostSetting => "host in "@ + a0 + " must be a non-empty string"@,
        ErrorKind::InvalidProjectSetting => "project_id or project in "@ + a0 + " must be a non-empty string or positive integer"@,
        ErrorKind::InvalidCredentialStoreSetting => "credential_store in "@ + a0 + " must be \"native\" or \"file\""@,
        ErrorKind::InvalidConfigJson => "invalid JSON in "@ + a0 + ": "@ + a1,
        ErrorKind::ConfigNotObject => "configuration in "@ + a0 + " must be a JSON object"@,
        ErrorKind::MissingHost => "set OPENPROJECT_URL, pass --host, or configure a host"@,
        ErrorKind::NoCredentialDirectory => "cannot determine the OpenProject config directory"@,
        ErrorKind::NoGlobalConfigDirectory => "cannot determine the global config directory"@,
        ErrorKind::TokenFileUnreadable => "OPENPROJECT_TOKEN_FILE could not be read"@,
        ErrorKind::TokenFileEmpty => "OPENPROJECT_TOKEN_FILE is empty"@,
        ErrorKind::ConfiguredCredentialUnreadable => "The configured system credential could not be read.\n\nRun:\n  openproject auth login\n\nor use OPENPROJECT_TOKEN / OPENPROJECT_TOKEN_FILE."@,
        ErrorKind::NoCredential => "No OpenProject credential found.\n\nRun:\n  openproject auth login\n\nFor CI or containers, set:\n  OPENPROJECT_TOKEN\nor:\n  OPENPROJECT_TOKEN_FILE"@,
        ErrorKind::NoPersistentStore => "no persistent credential store is configured"@,
        ErrorKind::LoginHostRequired => "an OpenProject URL is required"@,
        ErrorKind::ExampleHost => "replace the example URL with your real OpenProject server"@,
        ErrorKind::CrossHostUrl => "refusing to send credentials to a different host"@,
        ErrorKind::UrlParse => a0,
        ErrorKind::Http => "OpenProject HTTP "@ + a0 + ": "@ + a1,
        ErrorKind::InvalidResponseJson => "OpenProject returned invalid JSON: "@ + a0,
        ErrorKind::MissingId => "OpenProject response has no numeric id"@,
        ErrorKind::NoProjectMatch => "no OpenProject project exactly matches "@ + debug_quoted(a0),
        ErrorKind::AmbiguousProject => "multiple OpenProject projects match "@ + debug_quoted(a0) + "; use a numeric --project"@,
        ErrorKind::UnresolvedDirectory => "cannot resolve this directory to one project safely; use --project or .openproject.json"@,
        ErrorKind::RelatedProjectsOnly => "no exact project match for this directory; related projects: "@ + join_with(f.1, "; "@) + ". Select one with --project or .openproject.json"@,
        ErrorKind::AmbiguousDirectory => "multiple OpenProject projects exactly match this directory; use a numeric --project"@,
        ErrorKind::NoItemMatch => "no "@ + a0 + " exactly matches "@ + debug_quoted(a1),
        ErrorKind::AmbiguousItem => "multiple "@ + a0 + " values match "@ + debug_quoted(a1) + "; use a numeric ID"@,
        ErrorKind::InvalidUser => "user must be a numeric ID or 'me'"@,
        ErrorKind::NoActivitySchema => "OpenProject time-entry form has no activity schema"@,
        ErrorKind::NoAllowedActivities => "OpenProject time-entry form has no allowed activity values"@,
        ErrorKind::ActivityWithoutLink => "time-entry activity has no link"@,
        ErrorKind::ActivityWithoutName => "time-entry activity has no name"@,
        ErrorKind::NoActivityMatch => "no available time-entry activity exactly matches "@ + debug_quoted(a0),
        ErrorKind::AmbiguousActivity => "multiple time-entry activities match "@ + debug_quoted(a0) + "; use a numeric ID"@,
        ErrorKind::NoProjectLink => "work package response has no project link"@,
        ErrorKind::InvalidCustomFieldKey => "custom field keys must use the OpenProject customFieldN property name"@,
        ErrorKind::CustomFieldFormat => "custom fields must use customFieldN=JSON"@,
        ErrorKind::LinkedCustomFieldFormat => "linked custom fields must use customFieldN=HREF"@,
        ErrorKind::DuplicateCustomField => "custom field "@ + a0 + " was supplied more than once"@,
        ErrorKind::LinkedCustomFieldHref => "linked custom field hrefs must start with /api/v3/"@,
        ErrorKind::InvalidUpdatedSince => "--updated-since must be a positive day count such as 7 or 7d: "@ + a0,
        ErrorKind::ZeroUpdatedSince => "--updated-since must be at least one day"@,
        ErrorKind::UnsupportedSortField => "unsupported sort field "@ + debug_quoted(a0) + "; use id, type, status, priority, subject, assignee, responsible, start-date, due-date, created-at, updated-at, percentage-done, or estimated-time"@,
        ErrorKind::InvalidSortDirection => "sort direction must be asc or desc"@,
        ErrorKind::InvalidDueBefore => "--due-before must be YYYY-MM-DD: "@ + a0,
        ErrorKind::InvalidDate => "date must be YYYY-MM-DD: "@ + a0,
        ErrorKind::NoUpdateFields => "no update fields were supplied"@,
        ErrorKind::ConflictingClear => "a value and its corresponding --clear-* option cannot be used together"@,
        ErrorKind::InvalidPattern => "invalid regular expression"@,
        ErrorKind::RemoteWithoutHost => "Git remote URL has no hostname"@,
        ErrorKind::UnsupportedRemote => "unsupported Git remote URL format"@,
        ErrorKind::UnknownCommitRoute => "cannot determine commit route for Git host "@ + debug_quoted(a0),
        ErrorKind::Git => a0,
        ErrorKind::LoginJson => "auth login cannot be used with --json"@,
        ErrorKind::LoginTokenRequired => "an OpenProject API token is required"@,
        ErrorKind::ReleaseNotRedirected => "latest release check expected a redirect from "@ + a0 + ", got "@ + a1,
        ErrorKind::ReleaseNoLocation => "latest release redirect did not include a location"@,
        ErrorKind::ReleaseLocationUnreadable => "latest release redirect location was invalid: failed to convert header to a str"@,
        ErrorKind::ReleaseLocationInvalid => "latest release redirect location was invalid: "@ + a0 + ": "@ + a1,
        ErrorKind::ReleaseNoVersion => "latest release redirect did not include a version"@,
        ErrorKind::StoreUnavailable => "system credential store is unavailable; check access to your desktop credential service from this session"@,
        ErrorKind::StoreAccess => if f.1.len() > 0 {
            "cannot access the system credential store: "@ + a0
        } else {
            "cannot access the system credential store"@
        },
        ErrorKind::StoreRead => "cannot read the stored OpenProject token; check that the system credential store is unlocked and accessible from this session"@,
        ErrorKind::StoreSave => "cannot save the OpenProject token in the system credential store: "@ + a0,
        ErrorKind::StoreRemove => "cannot remove the OpenProject token from the system credential store: "@ + a0,
        ErrorKind::CredentialFileUnreadable => "cannot read the OpenProject credential file"@,
        ErrorKind::CredentialFileWrite => a0,
        ErrorKind::CredentialFileRemove => "cannot remove empty OpenProject credential file "@ + a0 + ": "@ + a1,
        ErrorKind::InvalidHostUrl => if f.1.len() > 0 {
            "OpenProject URL must be an absolute http(s) URL: "@ + a0
        } else {
            "OpenProject URL must be an absolute http(s) URL"@
        },
    }
}

fn c2(a: &str, b: &str) -> (r: String)
    ensures
        r@ == a@ + b@,
{
    let mut v: Vec<char> = Vec::new();
    push_str(&mut v, a);
    push_str(&mut v, b);
    string_of(&v)
}

fn c3(a: &str, b: &str, c: &str) -> (r: String)
    ensures
        r@ == a@ + b@ + c@,
{
    let mut v: Vec<char> = Vec::new();
    push_str(&mut v, a);
    push_str(&mut v, b);
    push_str(&mut v, c);
    string_of(&v)
}

fn c4(a: &str, b: &str, c: &str, d: &str) -> (r: String)
    ensures
        r@ == a@ + b@ + c@ + d@,
{
    let mut v: Vec<char> = Vec::new();
    push_str(&mut v, a);
    push_str(&mut v, b);
    push_str(&mut v, c);
    push_str(&mut v, d);
    string_of(&v)
}

fn c5(a: &str, b: &str, c: &str, d: &str, e: &str) -> (r: String)
    ensures
        r@ == a@ + b@ + c@ + d@ + e@,
{
    let mut v: Vec<char> = Vec::new();
    push_str(&mut v, a);
    push_str(&mut v, b);
    push_str(&mut v, c);
    push_str(&mut v, d);
    push_str(&mut v, e);
    string_of(&v)
}

impl CliError {
    fn arg(&self, i: usize) -> (r: &str)
        ensures
            r@ == arg_of(self@, i as int),
    {
        if i < self.args.len() {
            self.args[i].as_str()
        } else {
            proof {
                reveal_strlit("");
            }
            ""
        }
    }

    /// The message this failure prints.
    pub fn message(&self) -> (r: String)
        ensures
            r@ == message_of(self@),
    {
        let a0 = self.arg(0);
        let a1 = self.arg(1);
        proof {
            reveal_strlit("");
        }
        match self.kind {
            ErrorKind::UnsupportedSetting => c4("unsupported setting ", debug_text(a0).as_str(), " in ", a1),
            ErrorKind::InvalidHostSetting => c3("host in ", a0, " must be a non-empty string"),
            ErrorKind::InvalidProjectSetting => c3("project_id or project in ", a0, " must be a non-empty string or positive integer"),
            ErrorKind::InvalidCredentialStoreSetting => c3("credential_store in ", a0, " must be \"native\" or \"file\""),
            ErrorKind::InvalidConfigJson => c4("invalid JSON in ", a0, ": ", a1),
            ErrorKind::ConfigNotObject => c3("configuration in ", a0, " must be a JSON object"),
            ErrorKind::MissingHost => c2("set OPENPROJECT_URL, pass --host, or configure a host", ""),
            ErrorKind::NoCredentialDirectory => c2("cannot determine the OpenProject config directory", ""),
            ErrorKind::NoGlobalConfigDirectory => c2("cannot determine the global config directory", ""),
            ErrorKind::TokenFileUnreadable => c2("OPENPROJECT_TOKEN_FILE could not be read", ""),
            ErrorKind::TokenFileEmpty => c2("OPENPROJECT_TOKEN_FILE is empty", ""),
            ErrorKind::ConfiguredCredentialUnreadable => c2("The configured system credential could not be read.\n\nRun:\n  openproject auth login\n\nor use OPENPROJECT_TOKEN / OPENPROJECT_TOKEN_FILE.", ""),
            ErrorKind::NoCredential => c2("No OpenProject credential found.\n\nRun:\n  openproject auth login\n\nFor CI or containers, set:\n  OPENPROJECT_TOKEN\nor:\n  OPENPROJECT_TOKEN_FILE", ""),
            ErrorKind::NoPersistentStore => c2("no persistent credential store is configured", ""),
            ErrorKind::LoginHostRequired => c2("an OpenProject URL is required", ""),
            ErrorKind::ExampleHost => c2("replace the example URL with your real OpenProject server", ""),
            ErrorKind::CrossHostUrl => c2("refusing to send credentials to a different host", ""),
            ErrorKind::UrlParse => c2(a0, ""),
            ErrorKind::Http => c4("OpenProject HTTP ", a0, ": ", a1),
            ErrorKind::InvalidResponseJson => c2("OpenProject returned invalid JSON: ", a0),
            ErrorKind::MissingId => c2("OpenProject response has no numeric id", ""),
            ErrorKind::NoProjectMatch => c2("no OpenProject project exactly matches ", debug_text(a0).as_str()),
            ErrorKind::AmbiguousProject => c3("multiple OpenProject projects match ", debug_text(a0).as_str(), "; use a numeric --project"),
            ErrorKind::UnresolvedDirectory => c2("cannot resolve this directory to one project safely; use --project or .openproject.json", ""),
            ErrorKind::RelatedProjectsOnly => c3("no exact project match for this directory; related projects: ", join_texts(&self.args, "; ").as_str(), ". Select one with --project or .openproject.json"),
            ErrorKind::AmbiguousDirectory => c2("multiple OpenProject projects exactly match this directory; use a numeric --project", ""),
            ErrorKind::NoItemMatch => c4("no ", a0, " exactly matches ", debug_text(a1).as_str()),
            ErrorKind::AmbiguousItem => c5("multiple ", a0, " values match ", debug_text(a1).as_str(), "; use a numeric ID"),
            ErrorKind::InvalidUser => c2("user must be a numeric ID or 'me'", ""),
            ErrorKind::NoActivitySchema => c2("OpenProject time-entry form has no activity schema", ""),
            ErrorKind::NoAllowedActivities => c2("OpenProject time-entry form has no allowed activity values", ""),
            ErrorKind::ActivityWithoutLink => c2("time-entry activity has no link", ""),
            ErrorKind::ActivityWithoutName => c2("time-entry activity has no name", ""),
            ErrorKind::NoActivityMatch => c2("no available time-entry activity exactly matches ", debug_text(a0).as_str()),
            ErrorKind::AmbiguousActivity => c3("multiple time-entry activities match ", debug_text(a0).as_str(), "; use a numeric ID"),
            ErrorKind::NoProjectLink => c2("work package response has no project link", ""),
            ErrorKind::InvalidCustomFieldKey => c2("custom field keys must use the OpenProject customFieldN property name", ""),
            ErrorKind::CustomFieldFormat => c2("custom fields must use customFieldN=JSON", ""),
            ErrorKind::LinkedCustomFieldFormat => c2("linked custom fields must use customFieldN=HREF", ""),
            ErrorKind::DuplicateCustomField => c3("custom field ", a0, " was supplied more than once"),
            ErrorKind::LinkedCustomFieldHref => c2("linked custom field hrefs must start with /api/v3/", ""),
            ErrorKind::InvalidUpdatedSince => c2("--updated-since must be a positive day count such as 7 or 7d: ", a0),
            ErrorKind::ZeroUpdatedSince => c2("--updated-since must be at least one day", ""),
            ErrorKind::UnsupportedSortField => c3("unsupported sort field ", debug_text(a0).as_str(), "; use id, type, status, priority, subject, assignee, responsible, start-date, due-date, created-at, updated-at, percentage-done, or estimated-time"),
            ErrorKind::InvalidSortDirection => c2("sort direction must be asc or desc", ""),
            ErrorKind::InvalidDueBefore => c2("--due-before must be YYYY-MM-DD: ", a0),
            ErrorKind::InvalidDate => c2("date must be YYYY-MM-DD: ", a0),
            ErrorKind::NoUpdateFields => c2("no update fields were supplied", ""),
            ErrorKind::ConflictingClear => c2("a value and its corresponding --clear-* option cannot be used together", ""),
            ErrorKind::InvalidPattern => c2("invalid regular expression", ""),
            ErrorKind::RemoteWithoutHost => c2("Git remote URL has no hostname", ""),
            ErrorKind::UnsupportedRemote => c2("unsupported Git remote URL format", ""),
            ErrorKind::UnknownCommitRoute => c2("cannot determine commit route for Git host ", debug_text(a0).as_str()),
            ErrorKind::Git => c2(a0, ""),
            ErrorKind::LoginJson => c2("auth login cannot be used with --json", ""),
            ErrorKind::LoginTokenRequired => c2("an OpenProject API token is required", ""),
            ErrorKind::ReleaseNotRedirected => c4("latest release check expected a redirect from ", a0, ", got ", a1),
            ErrorKind::ReleaseNoLocation => c2("latest release redirect did not include a location", ""),
            ErrorKind::ReleaseLocationUnreadable => c2("latest release redirect location was invalid: failed to convert header to a str", ""),
            ErrorKind::ReleaseLocationInvalid => c4("latest release redirect location was invalid: ", a0, ": ", a1),
            ErrorKind::ReleaseNoVersion => c2("latest release redirect did not include a version", ""),
            ErrorKind::StoreUnavailable => c2("system credential store is unavailable; check access to your desktop credential service from this session", ""),
            ErrorKind::StoreAccess => if self.args.len() > 0 {
                c2("cannot access the system credential store: ", a0)
            } else {
                c2("cannot access the system credential store", "")
            },
            ErrorKind::StoreRead => c2("cannot read the stored OpenProject token; check that the system credential store is unlocked and accessible from this session", ""),
            ErrorKind::StoreSave => c2("cannot save the OpenProject token in the system credential store: ", a0),
            ErrorKind::StoreRemove => c2("cannot remove the OpenProject token from the system credential store: ", a0),
            ErrorKind::CredentialFileUnreadable => c2("cannot read the OpenProject credential file", ""),
            ErrorKind::CredentialFileWrite => c2(a0, ""),
            ErrorKind::CredentialFileRemove => c4("cannot remove empty OpenProject credential file ", a0, ": ", a1),
            ErrorKind::InvalidHostUrl => if self.args.len() > 0 {
                c2("OpenProject URL must be an absolute http(s) URL: ", a0)
            } else {
                c2("OpenProject URL must be an absolute http(s) URL", "")
            },
        }
    }
}

} // verus!
