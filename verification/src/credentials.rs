use vstd::prelude::*;

use crate::config::{canonical_host, canonical_host_of, credential_scope, credential_scope_of, join, join_path};
use crate::error::{outcome, CliError, ErrorKind, Failure};
use crate::text::{chars_of, str_eq, string_of, trim, trim_chars};

verus! {

/// The persistent credential backends a token may be kept in.
#[derive(Debug, Clone, Copy, PartialEq, Eq, Structural)]
pub enum CredentialStoreKind {
    Native,
    File,
}

/// The configuration spelling of a backend.
pub open spec fn store_kind_name(kind: CredentialStoreKind) -> Seq<char> {
    match kind {
        CredentialStoreKind::Native => "native"@,
        CredentialStoreKind::File => "file"@,
    }
}

impl CredentialStoreKind {
    pub fn as_str(self) -> (name: &'static str)
        ensures
            name@ == store_kind_name(self),
    {
        match self {
            CredentialStoreKind::Native => "native",
            CredentialStoreKind::File => "file",
        }
    }
}


/// A backend that keeps OpenProject tokens. The library models the protected
/// credential file (`CredentialFile`); the operating-system store and the file
/// itself are reached by the program around it.
pub trait CredentialStore {
    fn name(&self) -> &'static str;

    fn load(&self) -> Result<Option<String>, CliError>;

    fn save(&mut self, token: &str) -> Result<(), CliError>;

    fn delete(&mut self) -> Result<bool, CliError>;
}

/// The system credential store entry of one host, named by its credential scope.
#[derive(Debug)]
pub struct NativeCredentialStore {
    pub scope: String,
}

impl NativeCredentialStore {
    pub fn new(scope: String) -> (r: Self)
        ensures
            r.scope@ == scope@,
    {
        NativeCredentialStore { scope }
    }

    pub fn name(&self) -> (r: &'static str)
        ensures
            r@ == "system credential store"@,
    {
        "system credential store"
    }
}

/// The protected credential file's entry for one canonical host.
#[derive(Debug)]
pub struct FileCredentialStore {
    pub host: String,
    pub path: String,
}

impl FileCredentialStore {
    /// The store for `host` in the credential file at `path`; `host` must be a
    /// valid OpenProject URL.
    pub fn at(host: &str, path: String) -> (r: Self)
        requires
            canonical_host_of(host@) is Ok,
        ensures
            r.host@ == canonical_host_of(host@)->Ok_0,
            r.path@ == path@,
    {
        let h = canonical_host(host);
        match h {
            Ok(h) => FileCredentialStore { host: h, path },
            Err(_) => {
                assert(false);
                FileCredentialStore { host: String::new(), path }
            },
        }
    }

    /// The store for `host` in `credentials.json` of the `openproject` directory
    /// under the platform configuration directory.
    pub fn new(host: &str, config_dir: Option<String>) -> (r: Result<Self, CliError>)
        ensures
            match config_dir {
                None => outcome(r, |s: Self| s.host@) == Err::<Seq<char>, Failure>((ErrorKind::NoCredentialDirectory, Seq::<Seq<char>>::empty())),
                Some(dir) => outcome(r, |s: Self| s.host@) == canonical_host_of(host@)
                    && (r matches Ok(s) ==> s.path@ == credential_file_path(dir@)),
            },
    {
        let dir = match config_dir {
            Some(d) => d,
            None => return Err(CliError::new(ErrorKind::NoCredentialDirectory)),
        };
        let path = join(join(dir.as_str(), "openproject").as_str(), "credentials.json");
        match canonical_host(host) {
            Ok(_) => Ok(FileCredentialStore::at(host, path)),
            Err(e) => Err(e),
        }
    }

    pub fn name(&self) -> (r: &'static str)
        ensures
            r@ == "protected credential file"@,
    {
        "protected credential file"
    }
}

pub open spec fn credential_file_path(dir: Seq<char>) -> Seq<char> {
    join_path(join_path(dir, "openproject"@), "credentials.json"@)
}

/// The store a backend kind designates for a host.
#[derive(Debug)]
pub enum CredentialBackend {
    Native(NativeCredentialStore),
    File(FileCredentialStore),
}

/// What `store_for` designates: the backend kind and its key (scope or canonical host).
pub open spec fn backend_of(kind: CredentialStoreKind, host: Seq<char>, config_dir: Option<Seq<char>>) -> Result<(CredentialStoreKind, Seq<char>), Failure> {
    match kind {
        CredentialStoreKind::Native => match credential_scope_of(host) {
            Ok(scope) => Ok((kind, scope)),
            Err(e) => Err(e),
        },
        CredentialStoreKind::File => match config_dir {
            None => Err((ErrorKind::NoCredentialDirectory, Seq::<Seq<char>>::empty())),
            Some(_) => match canonical_host_of(host) {
                Ok(h) => Ok((kind, h)),
                Err(e) => Err(e),
            },
        },
    }
}

impl CredentialBackend {
    pub open spec fn designates(&self) -> (CredentialStoreKind, Seq<char>) {
        match self {
            CredentialBackend::Native(s) => (CredentialStoreKind::Native, s.scope@),
            CredentialBackend::File(s) => (CredentialStoreKind::File, s.host@),
        }
    }
}

/// The store of the given kind for a host.
pub fn store_for(kind: CredentialStoreKind, host: &str, config_dir: Option<String>) -> (r: Result<CredentialBackend, CliError>)
    ensures
        outcome(r, |b: CredentialBackend| b.designates()) == backend_of(kind, host@, crate::outside::opt_view(config_dir)),
{
    match kind {
        CredentialStoreKind::Native => {
            let scope = credential_scope(host)?;
            Ok(CredentialBackend::Native(NativeCredentialStore::new(scope)))
        },
        CredentialStoreKind::File => Ok(CredentialBackend::File(FileCredentialStore::new(host, config_dir)?)),
    }
}

/// Index of the first record for `host`.
pub open spec fn record_index(es: Seq<(Seq<char>, Seq<char>)>, host: Seq<char>) -> Option<int> {
    if exists|i: int| 0 <= i < es.len() && es[i].0 == host && record_absent_before(es, host, i) {
        Some(choose|i: int| 0 <= i < es.len() && es[i].0 == host && record_absent_before(es, host, i))
    } else {
        None
    }
}

pub open spec fn record_absent_before(es: Seq<(Seq<char>, Seq<char>)>, host: Seq<char>, i: int) -> bool {
    forall|j: int| 0 <= j < i ==> #[trigger] es[j].0 != host
}

/// The token recorded for `host`.
pub open spec fn token_of(es: Seq<(Seq<char>, Seq<char>)>, host: Seq<char>) -> Option<Seq<char>> {
    match record_index(es, host) {
        Some(i) => Some(es[i].1),
        None => None,
    }
}

/// Records after storing `token` for `host` (replacing its record, or adding one).
pub open spec fn with_token(es: Seq<(Seq<char>, Seq<char>)>, host: Seq<char>, token: Seq<char>) -> Seq<(Seq<char>, Seq<char>)> {
    match record_index(es, host) {
        Some(i) => es.update(i, (host, token)),
        None => es.push((host, token)),
    }
}

/// Records after removing `host`'s record.
pub open spec fn without_token(es: Seq<(Seq<char>, Seq<char>)>, host: Seq<char>) -> Seq<(Seq<char>, Seq<char>)> {
    match record_index(es, host) {
        Some(i) => es.remove(i),
        None => es,
    }
}

/// No host has two records.
pub open spec fn hosts_unique(es: Seq<(Seq<char>, Seq<char>)>) -> bool {
    forall|i: int, j: int| 0 <= i < es.len() && 0 <= j < es.len() && i != j ==> es[i].0 != es[j].0
}

/// The contents of the protected credential file: a format version and one token
/// per canonical host.
#[derive(Debug)]
pub struct CredentialFile {
    pub version: u8,
    pub credentials: Vec<(String, String)>,
}

pub open spec fn record_views(v: Seq<(String, String)>) -> Seq<(Seq<char>, Seq<char>)> {
    v.map_values(|e: (String, String)| (e.0@, e.1@))
}

impl View for CredentialFile {
    type V = Seq<(Seq<char>, Seq<char>)>;

    open spec fn view(&self) -> Seq<(Seq<char>, Seq<char>)> {
        record_views(self.credentials@)
    }
}

/// What to do with the file after a host's record is removed.
#[derive(Debug, Clone, Copy, PartialEq, Eq, Structural)]
pub enum DeleteAction {
    /// There was no record: leave the file alone.
    Unchanged,
    /// The last record went: remove the file.
    RemoveFile,
    /// Other records remain: write the file again.
    Rewrite,
}

impl CredentialFile {
    pub open spec fn wf(&self) -> bool {
        hosts_unique(self@)
    }

    /// The contents assumed when no file exists yet.
    pub fn empty() -> (r: CredentialFile)
        ensures
            r.version == 1,
            r@ == Seq::<(Seq<char>, Seq<char>)>::empty(),
            r.wf(),
    {
        let credentials: Vec<(String, String)> = Vec::new();
        assert(record_views(credentials@) =~= Seq::<(Seq<char>, Seq<char>)>::empty());
        CredentialFile { version: 1, credentials }
    }

    /// Index of `host`'s record.
    fn position(&self, host: &str) -> (r: Option<usize>)
        ensures
            match r {
                Some(i) => i < self.credentials.len() && record_index(self@, host@) == Some(i as int),
                None => record_index(self@, host@) is None,
            },
    {
        let ghost es = self@;
        let mut i: usize = 0;
        while i < self.credentials.len()
            invariant
                i <= self.credentials.len(),
                es == self@,
                es.len() == self.credentials.len(),
                record_absent_before(es, host@, i as int),
            decreases self.credentials.len() - i,
        {
            assert(es[i as int] == (self.credentials@[i as int].0@, self.credentials@[i as int].1@));
            if str_eq(self.credentials[i].0.as_str(), host) {
                proof {
                    let w = choose|k: int| 0 <= k < es.len() && es[k].0 == host@ && record_absent_before(es, host@, k);
                    if w < i {
                        assert(es[w].0 != host@);
                    } else if w > i {
                        assert(es[i as int].0 != host@);
                    }
                }
                return Some(i);
            }
            proof {
                assert forall|j: int| 0 <= j < i + 1 implies #[trigger] es[j].0 != host@ by {
                    if j < i {
                    }
                }
            }
            i = i + 1;
        }
        None
    }

    /// The token recorded for `host`.
    pub fn token_for(&self, host: &str) -> (r: Option<String>)
        ensures
            crate::outside::opt_view(r) == token_of(self@, host@),
    {
        match self.position(host) {
            Some(i) => Some(self.credentials[i].1.clone()),
            None => None,
        }
    }

    /// Records `token` for `host`, replacing any earlier token, and marks the
    /// current format version.
    pub fn store(&mut self, host: &str, token: &str)
        requires
            old(self).wf(),
        ensures
            final(self).wf(),
            final(self).version == 1,
            final(self)@ == with_token(old(self)@, host@, token@),
    {
        self.version = 1;
        let ghost before = self@;
        match self.position(host) {
            Some(i) => {
                self.credentials.set(i, (host.to_owned(), token.to_owned()));
                assert(self@ =~= before.update(i as int, (host@, token@)));
                proof {
                    assert forall|a: int, b: int| 0 <= a < self@.len() && 0 <= b < self@.len() && a != b implies self@[a].0 != self@[b].0 by {
                        if a == i {
                            assert(before[b].0 != host@) by {
                                if b < i {
                                } else {
                                    assert(before[i as int].0 == host@);
                                }
                            }
                        } else if b == i {
                            assert(before[a].0 != host@) by {
                                assert(before[i as int].0 == host@);
                            }
                        }
                    }
                }
            },
            None => {
                self.credentials.push((host.to_owned(), token.to_owned()));
                assert(self@ =~= before.push((host@, token@)));
                proof {
                    assert forall|j: int| 0 <= j < before.len() implies #[trigger] before[j].0 != host@ by {
                        if before[j].0 == host@ {
                            lemma_first_record(before, host@, j);
                        }
                    }
                }
            },
        }
    }

    /// Removes `host`'s record; whether there was one.
    pub fn forget(&mut self, host: &str) -> (r: bool)
        requires
            old(self).wf(),
        ensures
            final(self).wf(),
            final(self).version == old(self).version,
            final(self)@ == without_token(old(self)@, host@),
            r == (token_of(old(self)@, host@) is Some),
    {
        let ghost before = self@;
        match self.position(host) {
            Some(i) => {
                self.credentials.remove(i);
                assert(self@ =~= before.remove(i as int));
                true
            },
            None => false,
        }
    }

    /// Whether no record remains.
    pub fn is_empty(&self) -> (r: bool)
        ensures
            r == (self@.len() == 0),
    {
        self.credentials.len() == 0
    }
}

impl FileCredentialStore {
    /// The token this store's host has in the file's contents.
    pub fn load_from(&self, file: &CredentialFile) -> (r: Option<String>)
        ensures
            crate::outside::opt_view(r) == token_of(file@, self.host@),
    {
        file.token_for(self.host.as_str())
    }

    /// Records a token for this store's host in the file's contents.
    pub fn save_into(&self, file: &mut CredentialFile, token: &str)
        requires
            old(file).wf(),
        ensures
            final(file).wf(),
            final(file).version == 1,
            final(file)@ == with_token(old(file)@, self.host@, token@),
    {
        file.store(self.host.as_str(), token)
    }

    /// Removes this store's host from the file's contents and says what becomes
    /// of the file.
    pub fn delete_from(&self, file: &mut CredentialFile) -> (r: DeleteAction)
        requires
            old(file).wf(),
        ensures
            final(file).wf(),
            final(file).version == old(file).version,
            final(file)@ == without_token(old(file)@, self.host@),
            r == (if token_of(old(file)@, self.host@) is None {
                DeleteAction::Unchanged
            } else if final(file)@.len() == 0 {
                DeleteAction::RemoveFile
            } else {
                DeleteAction::Rewrite
            }),
    {
        let existed = file.forget(self.host.as_str());
        if !existed {
            DeleteAction::Unchanged
        } else if file.is_empty() {
            DeleteAction::RemoveFile
        } else {
            DeleteAction::Rewrite
        }
    }
}

/// Storing a token makes it the host's token.
pub proof fn law_token_after_store(es: Seq<(Seq<char>, Seq<char>)>, host: Seq<char>, token: Seq<char>)
    requires
        hosts_unique(es),
    ensures
        token_of(with_token(es, host, token), host) == Some(token),
{
    let after = with_token(es, host, token);
    match record_index(es, host) {
        Some(i) => {
            assert(after[i].0 == host);
            assert(record_absent_before(after, host, i));
            lemma_record_index_is(after, host, i);
        },
        None => {
            let n = es.len() as int;
            assert(after[n].0 == host);
            assert(record_absent_before(after, host, n)) by {
                assert forall|j: int| 0 <= j < n implies #[trigger] after[j].0 != host by {
                    assert(after[j] == es[j]);
                    if es[j].0 == host {
                        assert(exists|k: int| 0 <= k < es.len() && es[k].0 == host && record_absent_before(es, host, k)) by {
                            lemma_first_record(es, host, j);
                        }
                    }
                }
            }
            lemma_record_index_is(after, host, n);
        },
    }
}

/// If `host` has a record at `j`, some record of `host` is the first one.
proof fn lemma_first_record(es: Seq<(Seq<char>, Seq<char>)>, host: Seq<char>, j: int)
    requires
        0 <= j < es.len(),
        es[j].0 == host,
    ensures
        exists|k: int| 0 <= k < es.len() && es[k].0 == host && record_absent_before(es, host, k),
    decreases j,
{
    if record_absent_before(es, host, j) {
    } else {
        let k = choose|k: int| 0 <= k < j && es[k].0 == host;
        lemma_first_record(es, host, k);
    }
}

proof fn lemma_record_index_is(es: Seq<(Seq<char>, Seq<char>)>, host: Seq<char>, i: int)
    requires
        0 <= i < es.len(),
        es[i].0 == host,
        record_absent_before(es, host, i),
    ensures
        record_index(es, host) == Some(i),
{
    let w = choose|k: int| 0 <= k < es.len() && es[k].0 == host && record_absent_before(es, host, k);
    if w < i {
        assert(es[w].0 != host);
    } else if w > i {
        assert(es[i].0 != host);
    }
}

/// Storing a token for one host leaves every other host's token as it was.
pub proof fn law_store_keeps_other_hosts(es: Seq<(Seq<char>, Seq<char>)>, host: Seq<char>, token: Seq<char>, other: Seq<char>)
    requires
        hosts_unique(es),
        other != host,
    ensures
        token_of(with_token(es, host, token), other) == token_of(es, other),
{
    let after = with_token(es, host, token);
    assert forall|j: int| 0 <= j < after.len() && after[j].0 == other implies j < es.len() && es[j] == after[j] by {
        match record_index(es, host) {
            Some(i) => {
                if j == i {
                    assert(after[j].0 == host);
                }
            },
            None => {
                if j == es.len() {
                    assert(after[j].0 == host);
                }
            },
        }
    }
    assert forall|j: int| 0 <= j < es.len() && es[j].0 == other implies j < after.len() && es[j] == after[j] by {
        match record_index(es, host) {
            Some(i) => {
                if j == i {
                    assert(es[i].0 == host);
                }
            },
            None => {},
        }
    }
    match record_index(es, other) {
        Some(k) => {
            assert(record_absent_before(after, other, k)) by {
                assert forall|j: int| 0 <= j < k implies #[trigger] after[j].0 != other by {
                    if after[j].0 == other {
                        assert(es[j].0 == other);
                    }
                }
            }
            lemma_record_index_is(after, other, k);
        },
        None => {
            if record_index(after, other) is Some {
                let k = record_index(after, other)->Some_0;
                let w = choose|w: int| 0 <= w < after.len() && after[w].0 == other && record_absent_before(after, other, w);
                assert(es[w].0 == other);
                lemma_first_record(es, other, w);
            }
        },
    }
}

/// Once a host's record is removed, the host has no token; removal reports
/// whether there was one.
pub proof fn law_no_token_after_forget(es: Seq<(Seq<char>, Seq<char>)>, host: Seq<char>)
    requires
        hosts_unique(es),
    ensures
        token_of(without_token(es, host), host) is None,
        hosts_unique(without_token(es, host)),
{
    let after = without_token(es, host);
    match record_index(es, host) {
        Some(i) => {
            assert forall|j: int| 0 <= j < after.len() implies after[j].0 != host by {
                if j < i {
                    assert(after[j] == es[j]);
                } else {
                    assert(after[j] == es[j + 1]);
                    assert(es[i].0 == host);
                }
            }
            assert forall|a: int, b: int| 0 <= a < after.len() && 0 <= b < after.len() && a != b implies after[a].0 != after[b].0 by {
                let a2 = if a < i { a } else { a + 1 };
                let b2 = if b < i { b } else { b + 1 };
                assert(after[a] == es[a2]);
                assert(after[b] == es[b2]);
            }
        },
        None => {
            assert forall|j: int| 0 <= j < after.len() implies after[j].0 != host by {
                if after[j].0 == host {
                    lemma_first_record(es, host, j);
                }
            }
        },
    }
}

/// Where a token came from.
#[derive(Debug)]
pub struct ResolvedCredential {
    pub token: String,
    pub source: &'static str,
}

/// What loading from one persistent store gave.
#[derive(Debug)]
pub enum StoreAttempt {
    /// The store could not be set up for this host.
    Unavailable(CliError),
    /// The store holds a token.
    Found(String),
    /// The store holds no token.
    Missing,
    /// Reading the store failed.
    Failed,
}

pub enum AttemptView {
    Unavailable(Failure),
    Found(Seq<char>),
    Missing,
    Failed,
}

impl View for StoreAttempt {
    type V = AttemptView;

    open spec fn view(&self) -> AttemptView {
        match self {
            StoreAttempt::Unavailable(e) => AttemptView::Unavailable(e@),
            StoreAttempt::Found(t) => AttemptView::Found(t@),
            StoreAttempt::Missing => AttemptView::Missing,
            StoreAttempt::Failed => AttemptView::Failed,
        }
    }
}

/// The persistent stores consulted, in order: the configured native store falls
/// back to the file; a configured file store is used alone; without a
/// configuration both are tried, native first.
pub open spec fn store_order(configured: Option<CredentialStoreKind>) -> Seq<CredentialStoreKind> {
    match configured {
        Some(CredentialStoreKind::File) => seq![CredentialStoreKind::File],
        _ => seq![CredentialStoreKind::Native, CredentialStoreKind::File],
    }
}

pub fn credential_kinds(configured: Option<CredentialStoreKind>) -> (r: Vec<CredentialStoreKind>)
    ensures
        r@ == store_order(configured),
{
    match configured {
        Some(CredentialStoreKind::File) => {
            let r = vec![CredentialStoreKind::File];
            assert(r@ =~= seq![CredentialStoreKind::File]);
            r
        },
        _ => {
            let r = vec![CredentialStoreKind::Native, CredentialStoreKind::File];
            assert(r@ =~= seq![CredentialStoreKind::Native, CredentialStoreKind::File]);
            r
        },
    }
}

/// The outcome of consulting the stores from attempt `i` on; `failed` says
/// whether the configured store has failed so far.
pub open spec fn scan_stores(attempts: Seq<(CredentialStoreKind, AttemptView)>, configured: Option<CredentialStoreKind>, i: int, failed: bool) -> Result<(Seq<char>, Seq<char>), Failure>
    decreases attempts.len() - i,
{
    if i >= attempts.len() {
        if failed {
            Err((ErrorKind::ConfiguredCredentialUnreadable, Seq::<Seq<char>>::empty()))
        } else {
            Err((ErrorKind::NoCredential, Seq::<Seq<char>>::empty()))
        }
    } else {
        match attempts[i].1 {
            AttemptView::Unavailable(e) => Err(e),
            AttemptView::Found(t) => Ok((t, store_kind_name(attempts[i].0))),
            AttemptView::Missing => scan_stores(attempts, configured, i + 1, failed),
            AttemptView::Failed => scan_stores(
                attempts,
                configured,
                i + 1,
                failed || configured == Some(attempts[i].0),
            ),
        }
    }
}

/// Removing one host's record leaves every other host's token as it was.
pub proof fn law_forget_keeps_other_hosts(es: Seq<(Seq<char>, Seq<char>)>, host: Seq<char>, other: Seq<char>)
    requires
        hosts_unique(es),
        other != host,
    ensures
        token_of(without_token(es, host), other) == token_of(es, other),
{
    let after = without_token(es, host);
    match record_index(es, host) {
        Some(i) => {
            match record_index(es, other) {
                Some(k) => {
                    let k2 = if k < i { k } else { k - 1 };
                    assert(k != i);
                    assert(after[k2] == es[k]);
                    assert(record_absent_before(after, other, k2)) by {
                        assert forall|j: int| 0 <= j < k2 implies #[trigger] after[j].0 != other by {
                            let j2 = if j < i { j } else { j + 1 };
                            assert(after[j] == es[j2]);
                        }
                    }
                    lemma_record_index_is(after, other, k2);
                },
                None => {
                    if record_index(after, other) is Some {
                        let w = choose|w: int| 0 <= w < after.len() && after[w].0 == other && record_absent_before(after, other, w);
                        let w2 = if w < i { w } else { w + 1 };
                        assert(after[w] == es[w2]);
                        lemma_first_record(es, other, w2);
                    }
                },
            }
        },
        None => {},
    }
}

/// The token and its source: `OPENPROJECT_TOKEN`, then the file named by
/// `OPENPROJECT_TOKEN_FILE` (trimmed; `None` inside when it could not be read),
/// then the persistent stores in the order attempted.
pub open spec fn credential_of(
    env_token: Option<Seq<char>>,
    token_file: Option<Option<Seq<char>>>,
    configured: Option<CredentialStoreKind>,
    attempts: Seq<(CredentialStoreKind, AttemptView)>,
) -> Result<(Seq<char>, Seq<char>), Failure> {
    match env_token {
        Some(t) => Ok((t, "environment"@)),
        None => match token_file {
            Some(None) => Err((ErrorKind::TokenFileUnreadable, Seq::<Seq<char>>::empty())),
            Some(Some(text)) => if trim(text).len() == 0 {
                Err((ErrorKind::TokenFileEmpty, Seq::<Seq<char>>::empty()))
            } else {
                Ok((trim(text), "token_file"@))
            },
            None => scan_stores(attempts, configured, 0, false),
        },
    }
}

/// Deleting a host's credential from the protected file: the host has no token
/// afterwards, every other host keeps its token, and the file is left empty
/// (and so removed by `delete_from`) exactly when the host's record was its only one.
pub proof fn law_file_delete(es: Seq<(Seq<char>, Seq<char>)>, host: Seq<char>)
    requires
        hosts_unique(es),
    ensures
        token_of(without_token(es, host), host) is None,
        forall|other: Seq<char>| other != host ==> #[trigger] token_of(without_token(es, host), other) == token_of(es, other),
        (token_of(es, host) is Some && without_token(es, host).len() == 0) <==> (es.len() == 1 && es[0].0 == host),
{
    law_no_token_after_forget(es, host);
    assert forall|other: Seq<char>| other != host implies #[trigger] token_of(without_token(es, host), other) == token_of(es, other) by {
        law_forget_keeps_other_hosts(es, host, other);
    }
    if es.len() == 1 && es[0].0 == host {
        assert(record_absent_before(es, host, 0));
        lemma_record_index_is(es, host, 0);
    }
}

/// Token precedence: `OPENPROJECT_TOKEN` overrides `OPENPROJECT_TOKEN_FILE`,
/// which overrides the saved credentials. An environment token is used as it
/// is, whatever else is set; without one, a token file decides the outcome
/// whatever the stores hold.
pub proof fn law_token_precedence(
    env_token: Option<Seq<char>>,
    token_file: Option<Option<Seq<char>>>,
    configured: Option<CredentialStoreKind>,
    attempts: Seq<(CredentialStoreKind, AttemptView)>,
    other_configured: Option<CredentialStoreKind>,
    other_attempts: Seq<(CredentialStoreKind, AttemptView)>,
)
    ensures
        env_token matches Some(t) ==> credential_of(env_token, token_file, configured, attempts)
            == Ok::<(Seq<char>, Seq<char>), Failure>((t, "environment"@)),
        env_token is None && token_file is Some ==> credential_of(env_token, token_file, configured, attempts)
            == credential_of(env_token, token_file, other_configured, other_attempts),
{
}

pub open spec fn attempt_views(a: Seq<(CredentialStoreKind, StoreAttempt)>) -> Seq<(CredentialStoreKind, AttemptView)> {
    a.map_values(|x: (CredentialStoreKind, StoreAttempt)| (x.0, x.1@))
}

pub open spec fn token_file_view(f: Option<Option<String>>) -> Option<Option<Seq<char>>> {
    match f {
        Some(Some(t)) => Some(Some(t@)),
        Some(None) => Some(None),
        None => None,
    }
}

/// The stores were attempted in `store_order` (`credential_kinds`), each at
/// most once: their kinds are a prefix of that order.
pub open spec fn in_store_order(attempts: Seq<(CredentialStoreKind, StoreAttempt)>, configured: Option<CredentialStoreKind>) -> bool {
    &&& attempts.len() <= store_order(configured).len()
    &&& forall|i: int| 0 <= i < attempts.len() ==> #[trigger] attempts[i].0 == store_order(configured)[i]
}

/// Resolves the token to use, given the environment, the token file's text and
/// the outcomes of the persistent stores consulted, in `credential_kinds` order
/// up to the first that gave a token or could not be set up.
pub fn resolve_credential(
    env_token: Option<String>,
    token_file: Option<Option<String>>,
    configured: Option<CredentialStoreKind>,
    attempts: Vec<(CredentialStoreKind, StoreAttempt)>,
) -> (r: Result<ResolvedCredential, CliError>)
    requires
        in_store_order(attempts@, configured),
    ensures
        outcome(r, |c: ResolvedCredential| (c.token@, c.source@)) == credential_of(
            crate::outside::opt_view(env_token),
            token_file_view(token_file),
            configured,
            attempt_views(attempts@),
        ),
{
    let ghost goal = credential_of(
        crate::outside::opt_view(env_token),
        token_file_view(token_file),
        configured,
        attempt_views(attempts@),
    );
    if let Some(token) = env_token {
        return Ok(ResolvedCredential { token, source: "environment" });
    }
    if let Some(read) = token_file {
        return match read {
            None => Err(CliError::new(ErrorKind::TokenFileUnreadable)),
            Some(text) => {
                let t = trim_chars(&chars_of(text.as_str()));
                if t.len() == 0 {
                    Err(CliError::new(ErrorKind::TokenFileEmpty))
                } else {
                    Ok(ResolvedCredential { token: string_of(&t), source: "token_file" })
                }
            },
        };
    }
    let ghost views = attempt_views(attempts@);
    assert(goal == scan_stores(views, configured, 0, false));
    let mut attempts = attempts;
    let mut failed = false;
    let mut i: usize = 0;
    let n = attempts.len();
    #[verifier::loop_isolation(false)]
    while attempts.len() > 0
        invariant
            n == views.len(),
            i + attempts.len() == n,
            forall|k: int| 0 <= k < attempts.len() ==> (#[trigger] attempts@[k]).0 == views[i + k].0 && attempts@[k].1@ == views[i + k].1,
            goal == scan_stores(views, configured, i as int, failed),
        decreases attempts.len(),
    {
        let ghost before = attempts@;
        let (kind, attempt) = attempts.remove(0);
        assert(kind == views[i as int].0 && attempt@ == views[i as int].1);
        assert forall|k: int| 0 <= k < attempts.len() implies (#[trigger] attempts@[k]).0 == views[i + 1 + k].0 && attempts@[k].1@ == views[i + 1 + k].1 by {
            assert(attempts@[k] == before[k + 1]);
        }
        assert(i < views.len());
        match attempt {
            StoreAttempt::Unavailable(e) => {
                assert(scan_stores(views, configured, i as int, failed) == Err::<(Seq<char>, Seq<char>), Failure>(e@));
                return Err(e);
            },
            StoreAttempt::Found(token) => {
                assert(scan_stores(views, configured, i as int, failed) == Ok::<(Seq<char>, Seq<char>), Failure>((token@, store_kind_name(kind))));
                return Ok(ResolvedCredential { token, source: kind.as_str() });
            },
            StoreAttempt::Missing => {},
            StoreAttempt::Failed => {
                let is_configured = match configured {
                    Some(c) => c == kind,
                    None => false,
                };
                failed = failed || is_configured;
            },
        }
        i = i + 1;
    }
    if failed {
        Err(CliError::new(ErrorKind::ConfiguredCredentialUnreadable))
    } else {
        Err(CliError::new(ErrorKind::NoCredential))
    }
}

/// The token to use (see `resolve_credential`).
pub fn resolve_token(
    env_token: Option<String>,
    token_file: Option<Option<String>>,
    configured: Option<CredentialStoreKind>,
    attempts: Vec<(CredentialStoreKind, StoreAttempt)>,
) -> (r: Result<String, CliError>)
    requires
        in_store_order(attempts@, configured),
    ensures
        outcome(r, |t: String| t@) == match credential_of(
            crate::outside::opt_view(env_token),
            token_file_view(token_file),
            configured,
            attempt_views(attempts@),
        ) {
            Ok((t, _)) => Ok(t),
            Err(e) => Err(e),
        },
{
    let c = resolve_credential(env_token, token_file, configured, attempts)?;
    Ok(c.token)
}

/// The store interactive login tries first: the file under WSL and on Linux
/// without a desktop session bus, the system store elsewhere.
pub fn preferred_store(wsl: bool, linux: bool, session_bus: bool) -> (r: CredentialStoreKind)
    ensures
        r == (if wsl || (linux && !session_bus) {
            CredentialStoreKind::File
        } else {
            CredentialStoreKind::Native
        }),
{
    if wsl || (linux && !session_bus) {
        CredentialStoreKind::File
    } else {
        CredentialStoreKind::Native
    }
}

/// The store that logout removes the token from: the configured one.
pub fn logout_store(configured: Option<CredentialStoreKind>) -> (r: Result<CredentialStoreKind, CliError>)
    ensures
        outcome(r, |k: CredentialStoreKind| k) == match configured {
            Some(k) => Ok(k),
            None => Err((ErrorKind::NoPersistentStore, Seq::<Seq<char>>::empty())),
        },
{
    match configured {
        Some(k) => Ok(k),
        None => Err(CliError::new(ErrorKind::NoPersistentStore)),
    }
}

} // verus!
