//! Sessions of the simulator and their bookkeeping: creation, removal,
//! configuration, catalog, logs, open/closed state, listing, snapshots.
//! The links themselves are run by the caller.

use vstd::prelude::*;
use crate::config::{SessionConfig, SessionConfigV, default_config};
use crate::catalog::{MessageCatalog, CatalogV, PrefabMessage, PrefabV, upserted, without_id, tree_sml};
use crate::log::{SessionLog, LogEntry, LogEntryV, entries_view, pushed, system_note, DEFAULT_LOG_CAPACITY};
use crate::persistence::{AppSettings, AppPersistState, SessionSnapshot, ScenarioFile};
use crate::smd::{SmdError, SmdFault, smd_document, prefab_shape};
use crate::flow_model::{first_index, lemma_first_index, lemma_first_index_at};
use crate::flow_eval::text_lt;
use crate::text::{chars_of, chars_eq, string_of, push_all, trim, trim_chars};
use crate::numbers::{dec_str, u64_text};
use crate::ids::new_id;

verus! {

// ---------------------------------------------------------------------------
// Text order

pub proof fn lemma_text_lt_irreflexive(a: Seq<char>)
    ensures
        !text_lt(a, a),
    decreases a.len(),
{
    if a.len() > 0 {
        lemma_text_lt_irreflexive(a.drop_first());
    }
}

pub proof fn lemma_text_lt_transitive(a: Seq<char>, b: Seq<char>, c: Seq<char>)
    requires
        text_lt(a, b),
        text_lt(b, c),
    ensures
        text_lt(a, c),
    decreases a.len(),
{
    if a.len() > 0 && a[0] == b[0] && b[0] == c[0] {
        lemma_text_lt_transitive(a.drop_first(), b.drop_first(), c.drop_first());
    }
}

pub proof fn lemma_text_lt_total(a: Seq<char>, b: Seq<char>)
    requires
        a != b,
    ensures
        text_lt(a, b) || text_lt(b, a),
    decreases a.len(),
{
    if a.len() > 0 && b.len() > 0 && a[0] == b[0] {
        if a.drop_first() == b.drop_first() {
            assert(a =~= seq![a[0]] + a.drop_first());
            assert(b =~= seq![b[0]] + b.drop_first());
        }
        lemma_text_lt_total(a.drop_first(), b.drop_first());
    } else if a.len() == 0 && b.len() == 0 {
        assert(a =~= b);
    }
}

pub proof fn lemma_text_lt_asymmetric(a: Seq<char>, b: Seq<char>)
    requires
        text_lt(a, b),
    ensures
        !text_lt(b, a),
{
    if text_lt(b, a) {
        lemma_text_lt_transitive(a, b, a);
        lemma_text_lt_irreflexive(a);
    }
}

/// Listing order: by name, then by id.
pub open spec fn key_lt(name_a: Seq<char>, id_a: Seq<char>, name_b: Seq<char>, id_b: Seq<char>) -> bool {
    text_lt(name_a, name_b) || (name_a == name_b && text_lt(id_a, id_b))
}

pub proof fn lemma_key_lt_transitive(na: Seq<char>, ia: Seq<char>, nb: Seq<char>, ib: Seq<char>, nc: Seq<char>, ic: Seq<char>)
    requires
        key_lt(na, ia, nb, ib),
        key_lt(nb, ib, nc, ic),
    ensures
        key_lt(na, ia, nc, ic),
{
    if text_lt(na, nb) && text_lt(nb, nc) {
        lemma_text_lt_transitive(na, nb, nc);
    } else if text_lt(na, nb) {
    } else if text_lt(nb, nc) {
    } else {
        lemma_text_lt_transitive(ia, ib, ic);
    }
}

pub proof fn lemma_key_lt_total(na: Seq<char>, ia: Seq<char>, nb: Seq<char>, ib: Seq<char>)
    requires
        ia != ib,
    ensures
        key_lt(na, ia, nb, ib) || key_lt(nb, ib, na, ia),
{
    if na != nb {
        lemma_text_lt_total(na, nb);
    } else {
        lemma_text_lt_total(ia, ib);
    }
}

pub proof fn lemma_key_lt_asymmetric(na: Seq<char>, ia: Seq<char>, nb: Seq<char>, ib: Seq<char>)
    requires
        key_lt(na, ia, nb, ib),
    ensures
        !key_lt(nb, ib, na, ia),
{
    if text_lt(na, nb) {
        lemma_text_lt_asymmetric(na, nb);
        if nb == na {
            lemma_text_lt_irreflexive(na);
        }
    } else {
        lemma_text_lt_asymmetric(ia, ib);
        lemma_text_lt_irreflexive(na);
    }
}

/// `a` sorts before `b` as text.
pub fn text_before(a: &str, b: &str) -> (r: bool)
    ensures
        r == text_lt(a@, b@),
{
    crate::flow_eval::text_less(&chars_of(a), &chars_of(b))
}

// ---------------------------------------------------------------------------
// Sessions

/// What the session list shows of a session.
#[derive(Debug)]
pub struct SessionSummary {
    pub id: String,
    pub name: String,
    pub open: bool,
    pub hsms_state: String,
}

/// A session: configuration, catalog, log, and whether its link is open.
#[derive(Debug)]
pub struct Session {
    pub id: String,
    pub config: SessionConfig,
    pub open: bool,
    pub hsms_state: String,
    pub logs: SessionLog,
    pub catalog: MessageCatalog,
}

/// Model of a [`Session`].
pub struct SessionV {
    pub id: Seq<char>,
    pub config: SessionConfigV,
    pub open: bool,
    pub hsms_state: Seq<char>,
    pub logs: Seq<LogEntryV>,
    pub log_cap: nat,
    pub catalog: CatalogV,
}

impl View for Session {
    type V = SessionV;

    open spec fn view(&self) -> SessionV {
        SessionV {
            id: self.id@,
            config: self.config@,
            open: self.open,
            hsms_state: self.hsms_state@,
            logs: self.logs.contents(),
            log_cap: self.logs.cap(),
            catalog: self.catalog@,
        }
    }
}

/// `r` is the summary of `s`.
pub open spec fn summary_of(r: SessionSummary, s: SessionV) -> bool {
    r.id@ == s.id && r.name@ == s.config.name && r.open == s.open && r.hsms_state@ == s.hsms_state
}

impl Session {
    pub fn summary(&self) -> (r: SessionSummary)
        ensures
            summary_of(r, self@),
    {
        SessionSummary {
            id: self.id.clone(),
            name: self.config.name.clone(),
            open: self.open,
            hsms_state: self.hsms_state.clone(),
        }
    }
}

/// Why a session operation was refused.
#[derive(Debug)]
pub enum SessionError {
    NotFound(String),
    AlreadyOpen,
    NotOpen,
    /// Removing an open session.
    OpenOnRemove,
    /// Replacing the configuration of an open session.
    OpenOnUpdate,
    /// Restoring or importing while a session is open.
    OpenOnRestore,
    /// The SMD document does not import.
    Smd(SmdError),
}

/// Message of a session error.
pub open spec fn session_error_text(e: SessionError) -> Seq<char> {
    match e {
        SessionError::NotFound(id) => "session not found: "@ + id@,
        SessionError::AlreadyOpen => "session already open"@,
        SessionError::NotOpen => "session is not open"@,
        SessionError::OpenOnRemove => "session is open; close it before remove"@,
        SessionError::OpenOnUpdate => "cannot update full config while session is open"@,
        SessionError::OpenOnRestore => "close all sessions before restore/import"@,
        SessionError::Smd(e) => crate::smd::smd_fault_text(e@),
    }
}

impl SessionError {
    /// The error text; for an SMD error, that of the SMD error.
    pub fn message(&self) -> (r: String)
        ensures
            r@ == session_error_text(*self),
    {
        match self {
            SessionError::NotFound(id) => {
                let mut v = chars_of("session not found: ");
                push_all(&mut v, &chars_of(id.as_str()));
                string_of(&v)
            },
            SessionError::AlreadyOpen => "session already open".to_string(),
            SessionError::NotOpen => "session is not open".to_string(),
            SessionError::OpenOnRemove => "session is open; close it before remove".to_string(),
            SessionError::OpenOnUpdate => "cannot update full config while session is open".to_string(),
            SessionError::OpenOnRestore => "close all sessions before restore/import".to_string(),
            SessionError::Smd(e) => e.message(),
        }
    }
}

/// Views of sessions.
pub open spec fn sessions_view(v: Seq<Session>) -> Seq<SessionV> {
    Seq::new(v.len(), |i: int| v[i]@)
}

/// No two sessions share an id.
pub open spec fn unique_ids(ss: Seq<SessionV>) -> bool {
    forall|i: int, j: int| 0 <= i < j < ss.len() ==> (#[trigger] ss[i]).id != (#[trigger] ss[j]).id
}

/// Session with id `id`.
pub open spec fn has_id(id: Seq<char>) -> spec_fn(SessionV) -> bool {
    |s: SessionV| s.id == id
}

/// Index of the session with id `id`.
pub open spec fn index_of(ss: Seq<SessionV>, id: Seq<char>) -> Option<int> {
    first_index(ss, has_id(id))
}

/// `ss` with `s` in place of the session of the same id, or with `s` added.
pub open spec fn put(ss: Seq<SessionV>, s: SessionV) -> Seq<SessionV> {
    match index_of(ss, s.id) {
        Some(i) => ss.update(i, s),
        None => ss.push(s),
    }
}

/// `c`, named `Session <n>` when its name is blank.
pub open spec fn named(c: SessionConfigV, n: nat) -> SessionConfigV {
    if trim(c.name).len() == 0 {
        SessionConfigV { name: "Session "@ + dec_str(n), ..c }
    } else {
        c
    }
}

/// A closed session with an empty log of capacity `cap` (at least one).
pub open spec fn fresh(id: Seq<char>, config: SessionConfigV, catalog: CatalogV, cap: usize) -> SessionV {
    SessionV {
        id,
        config,
        open: false,
        hsms_state: "NotConnected"@,
        logs: Seq::empty(),
        log_cap: if cap >= 1 { cap as nat } else { 1 },
        catalog,
    }
}

/// Sessions restored from snapshots, in order; a later snapshot replaces an
/// earlier one with the same id.
pub open spec fn restored(snaps: Seq<SessionSnapshot>, cap: usize) -> Seq<SessionV>
    decreases snaps.len(),
{
    if snaps.len() == 0 {
        Seq::empty()
    } else {
        let s = snaps.last();
        put(restored(snaps.drop_last(), cap), fresh(s.id@, s.config@, s.catalog@, cap))
    }
}

/// Model of a [`SessionManager`].
pub struct ManagerV {
    pub sessions: Seq<SessionV>,
    pub theme: Seq<char>,
    pub log_capacity: usize,
    pub restore_sessions: bool,
}

/// Every session of the simulator, and the application settings.
pub struct SessionManager {
    sessions: Vec<Session>,
    settings: AppSettings,
}

pub proof fn lemma_put(ss: Seq<SessionV>, s: SessionV)
    requires
        unique_ids(ss),
    ensures
        unique_ids(put(ss, s)),
        index_of(put(ss, s), s.id) is Some,
        put(ss, s)[index_of(put(ss, s), s.id)->0] == s,
{
    lemma_first_index(ss, has_id(s.id));
    let r = put(ss, s);
    match index_of(ss, s.id) {
        Some(i) => {
            assert forall|a: int, b: int| 0 <= a < b < r.len() implies (#[trigger] r[a]).id != (#[trigger] r[b]).id by {
                if a == i {
                    assert(ss[b].id != ss[i].id);
                } else if b == i {
                    assert(ss[a].id != ss[i].id);
                }
            }
            lemma_first_index(r, has_id(s.id));
            if index_of(r, s.id) is None {
                assert((has_id(s.id))(r[i]));
            } else {
                let j = index_of(r, s.id)->0;
                if j != i {
                    assert(r[i].id == r[j].id);
                }
            }
        },
        None => {
            assert forall|a: int, b: int| 0 <= a < b < r.len() implies (#[trigger] r[a]).id != (#[trigger] r[b]).id by {
                if b == ss.len() {
                    assert(!(has_id(s.id))(ss[a]));
                }
            }
            lemma_first_index(r, has_id(s.id));
            if index_of(r, s.id) is None {
                assert((has_id(s.id))(r[ss.len() as int]));
            } else {
                let j = index_of(r, s.id)->0;
                if j != ss.len() {
                    assert(r[ss.len() as int].id == r[j].id);
                }
            }
        },
    }
}

pub proof fn lemma_restored(snaps: Seq<SessionSnapshot>, cap: usize)
    ensures
        unique_ids(restored(snaps, cap)),
        forall|k: int| 0 <= k < restored(snaps, cap).len() ==> !(#[trigger] restored(snaps, cap)[k]).open,
    decreases snaps.len(),
{
    if snaps.len() > 0 {
        let s = snaps.last();
        let prev = restored(snaps.drop_last(), cap);
        lemma_restored(snaps.drop_last(), cap);
        let f = fresh(s.id@, s.config@, s.catalog@, cap);
        lemma_put(prev, f);
        let r = restored(snaps, cap);
        assert(r == put(prev, f));
        lemma_first_index(prev, has_id(f.id));
        assert forall|k: int| 0 <= k < r.len() implies !(#[trigger] r[k]).open by {
            match index_of(prev, f.id) {
                Some(i) => {
                    assert(r == prev.update(i, f));
                    if k != i {
                        assert(r[k] == prev[k]);
                    }
                },
                None => {
                    assert(r == prev.push(f));
                    if k < prev.len() {
                        assert(r[k] == prev[k]);
                    }
                },
            }
        }
    }
}

/// `put` leaves the session of any other id where it was.
proof fn lemma_put_other(ss: Seq<SessionV>, s: SessionV, id: Seq<char>)
    requires
        id != s.id,
    ensures
        index_of(put(ss, s), id) == index_of(ss, id),
        index_of(ss, id) matches Some(k) ==> put(ss, s)[k] == ss[k],
        forall|k: int| 0 <= k < put(ss, s).len() ==> #[trigger] put(ss, s)[k] == s || (k < ss.len()
            && put(ss, s)[k] == ss[k]),
{
    lemma_first_index(ss, has_id(s.id));
    lemma_first_index(ss, has_id(id));
    let r = put(ss, s);
    match index_of(ss, s.id) {
        Some(i) => {
            assert(r == ss.update(i, s));
            match index_of(ss, id) {
                Some(k) => {
                    assert(k != i);
                    assert forall|q: int| 0 <= q < k implies !(has_id(id))(#[trigger] r[q]) by {
                        if q != i {
                            assert(r[q] == ss[q]);
                        }
                    }
                    lemma_first_index_at(r, has_id(id), k);
                },
                None => {
                    assert forall|q: int| 0 <= q < r.len() implies !(has_id(id))(#[trigger] r[q]) by {
                        if q != i {
                            assert(r[q] == ss[q]);
                        }
                    }
                    lemma_first_index_at(r, has_id(id), r.len() as int);
                },
            }
        },
        None => {
            assert(r == ss.push(s));
            match index_of(ss, id) {
                Some(k) => {
                    assert forall|q: int| 0 <= q < k implies !(has_id(id))(#[trigger] r[q]) by {
                        assert(r[q] == ss[q]);
                    }
                    lemma_first_index_at(r, has_id(id), k);
                },
                None => {
                    assert forall|q: int| 0 <= q < r.len() implies !(has_id(id))(#[trigger] r[q]) by {
                        if q < ss.len() {
                            assert(r[q] == ss[q]);
                        }
                    }
                    lemma_first_index_at(r, has_id(id), r.len() as int);
                },
            }
        },
    }
}

/// A session as a restore brings it back: closed, with an empty log of
/// capacity `cap`.
pub open spec fn reopened(s: SessionV, cap: usize) -> SessionV {
    fresh(s.id, s.config, s.catalog, cap)
}

/// The session a snapshot restores to.
pub open spec fn from_snapshot(x: SessionSnapshot, cap: usize) -> SessionV {
    fresh(x.id@, x.config@, x.catalog@, cap)
}

/// Two snapshots of sessions with unique ids that share an id restore to
/// the same session.
proof fn lemma_same_id_same_snapshot(snaps: Seq<SessionSnapshot>, ss: Seq<SessionV>, p: int, q: int, cap: usize)
    requires
        unique_ids(ss),
        0 <= p < snaps.len(),
        0 <= q < snaps.len(),
        saved_of_some(snaps[p], ss),
        saved_of_some(snaps[q], ss),
        snaps[p].id@ == snaps[q].id@,
    ensures
        from_snapshot(snaps[p], cap) == from_snapshot(snaps[q], cap),
{
    let a = choose|j: int| 0 <= j < ss.len() && #[trigger] snapshot_of(snaps[p], ss[j]);
    let b = choose|j: int| 0 <= j < ss.len() && #[trigger] snapshot_of(snaps[q], ss[j]);
    if a < b {
        assert(ss[a].id != ss[b].id);
    } else if b < a {
        assert(ss[b].id != ss[a].id);
    }
}

proof fn lemma_restored_prefix(snaps: Seq<SessionSnapshot>, ss: Seq<SessionV>, n: int, cap: usize)
    requires
        unique_ids(ss),
        forall|p: int| 0 <= p < snaps.len() ==> #[trigger] saved_of_some(snaps[p], ss),
        0 <= n <= snaps.len(),
    ensures
        forall|p: int| 0 <= p < n ==> ((#[trigger] index_of(restored(snaps.take(n), cap), snaps[p].id@)) matches Some(k)
            && restored(snaps.take(n), cap)[k] == from_snapshot(snaps[p], cap)),
        forall|k: int| 0 <= k < restored(snaps.take(n), cap).len() ==> exists|p: int| 0 <= p < n
            && #[trigger] restored(snaps.take(n), cap)[k] == from_snapshot(snaps[p], cap),
    decreases n,
{
    if n > 0 {
        lemma_restored_prefix(snaps, ss, n - 1, cap);
        let prev = restored(snaps.take(n - 1), cap);
        let f = from_snapshot(snaps[n - 1], cap);
        assert(snaps.take(n).drop_last() =~= snaps.take(n - 1));
        assert(snaps.take(n).last() == snaps[n - 1]);
        let r = restored(snaps.take(n), cap);
        assert(r == put(prev, f));
        lemma_restored(snaps.take(n - 1), cap);
        lemma_put(prev, f);
        assert forall|p: int| 0 <= p < n implies ((#[trigger] index_of(r, snaps[p].id@)) matches Some(k) && r[k]
            == from_snapshot(snaps[p], cap)) by {
            if snaps[p].id@ == f.id {
                lemma_same_id_same_snapshot(snaps, ss, p, n - 1, cap);
            } else {
                lemma_put_other(prev, f, snaps[p].id@);
            }
        }
        assert forall|k: int| 0 <= k < r.len() implies exists|p: int| 0 <= p < n && #[trigger] r[k]
            == from_snapshot(snaps[p], cap) by {
            lemma_first_index(prev, has_id(f.id));
            match index_of(prev, f.id) {
                Some(i) => {
                    assert(r == prev.update(i, f));
                    if k == i {
                        assert(r[k] == from_snapshot(snaps[n - 1], cap));
                    } else {
                        assert(r[k] == prev[k]);
                        let p = choose|p: int| 0 <= p < n - 1 && #[trigger] prev[k] == from_snapshot(snaps[p], cap);
                        assert(r[k] == from_snapshot(snaps[p], cap));
                    }
                },
                None => {
                    assert(r == prev.push(f));
                    if k == prev.len() {
                        assert(r[k] == from_snapshot(snaps[n - 1], cap));
                    } else {
                        assert(r[k] == prev[k]);
                        let p = choose|p: int| 0 <= p < n - 1 && #[trigger] prev[k] == from_snapshot(snaps[p], cap);
                        assert(r[k] == from_snapshot(snaps[p], cap));
                    }
                },
            }
        }
    } else {
        assert(snaps.take(0) =~= Seq::<SessionSnapshot>::empty());
    }
}

/// What a restore gives back of a snapshot: snapshots taken of sessions with
/// unique ids (each session saved, each snapshot that of a session) restore
/// every one of those sessions, closed with an empty log, under its id, and
/// nothing else.
pub proof fn lemma_snapshot_restore(snaps: Seq<SessionSnapshot>, ss: Seq<SessionV>, cap: usize)
    requires
        unique_ids(ss),
        forall|j: int| 0 <= j < ss.len() ==> #[trigger] saved(snaps, ss[j]),
        forall|p: int| 0 <= p < snaps.len() ==> #[trigger] saved_of_some(snaps[p], ss),
    ensures
        unique_ids(restored(snaps, cap)),
        forall|j: int| 0 <= j < ss.len() ==> ((#[trigger] index_of(restored(snaps, cap), ss[j].id)) matches Some(k)
            && restored(snaps, cap)[k] == reopened(ss[j], cap)),
        forall|k: int| 0 <= k < restored(snaps, cap).len() ==> exists|j: int| 0 <= j < ss.len()
            && #[trigger] restored(snaps, cap)[k] == reopened(ss[j], cap),
{
    let n = snaps.len() as int;
    lemma_restored_prefix(snaps, ss, n, cap);
    assert(snaps.take(n) =~= snaps);
    lemma_restored(snaps, cap);
    let r = restored(snaps, cap);
    assert forall|j: int| 0 <= j < ss.len() implies ((#[trigger] index_of(r, ss[j].id)) matches Some(k) && r[k]
        == reopened(ss[j], cap)) by {
        assert(saved(snaps, ss[j]));
        let p = choose|p: int| 0 <= p < snaps.len() && #[trigger] snapshot_of(snaps[p], ss[j]);
        assert((index_of(r, snaps[p].id@) matches Some(k) && r[k] == from_snapshot(snaps[p], cap)));
    }
    assert forall|k: int| 0 <= k < r.len() implies exists|j: int| 0 <= j < ss.len() && #[trigger] r[k] == reopened(
        ss[j],
        cap,
    ) by {
        let p = choose|p: int| 0 <= p < n && #[trigger] r[k] == from_snapshot(snaps[p], cap);
        assert(saved_of_some(snaps[p], ss));
        let j = choose|j: int| 0 <= j < ss.len() && #[trigger] snapshot_of(snaps[p], ss[j]);
        assert(r[k] == reopened(ss[j], cap));
    }
}

impl View for SessionManager {
    type V = ManagerV;

    closed spec fn view(&self) -> ManagerV {
        ManagerV {
            sessions: sessions_view(self.sessions@),
            theme: self.settings.theme@,
            log_capacity: self.settings.log_capacity,
            restore_sessions: self.settings.restore_sessions,
        }
    }
}

impl SessionManager {
    /// Ids are unique.
    pub closed spec fn wf(&self) -> bool {
        unique_ids(sessions_view(self.sessions@))
    }

    /// No sessions, default settings.
    pub fn new() -> (r: SessionManager)
        ensures
            r.wf(),
            r@.sessions.len() == 0,
            r@.theme == "dark"@,
            r@.log_capacity == 5000,
            r@.restore_sessions,
    {
        let r = SessionManager { sessions: Vec::new(), settings: AppSettings::default() };
        assert(sessions_view(r.sessions@) =~= Seq::<SessionV>::empty());
        r
    }

    /// Copy of the settings.
    pub fn settings(&self) -> (r: AppSettings)
        ensures
            r.theme@ == self@.theme,
            r.log_capacity == self@.log_capacity,
            r.restore_sessions == self@.restore_sessions,
    {
        self.settings.clone()
    }

    pub fn set_settings(&mut self, settings: AppSettings)
        requires
            old(self).wf(),
        ensures
            final(self).wf(),
            final(self)@.sessions == old(self)@.sessions,
            final(self)@.theme == settings.theme@,
            final(self)@.log_capacity == settings.log_capacity,
            final(self)@.restore_sessions == settings.restore_sessions,
    {
        self.settings = settings;
    }

    /// Index of the session with id `id`.
    fn position(&self, id: &str) -> (r: Option<usize>)
        ensures
            match r {
                Some(i) => index_of(self@.sessions, id@) == Some(i as int) && i < self@.sessions.len(),
                None => index_of(self@.sessions, id@) is None,
            },
    {
        let want = chars_of(id);
        let ghost ss = sessions_view(self.sessions@);
        let mut i: usize = 0;
        while i < self.sessions.len()
            invariant
                i <= self.sessions@.len(),
                want@ == id@,
                ss == sessions_view(self.sessions@),
                ss == self@.sessions,
                forall|k: int| 0 <= k < i ==> !(has_id(id@))(#[trigger] ss[k]),
            decreases self.sessions.len() - i,
        {
            let have = chars_of(self.sessions[i].id.as_str());
            assert(ss[i as int] == self.sessions@[i as int]@);
            if chars_eq(&have, &want) {
                proof {
                    lemma_first_index_at(ss, has_id(id@), i as int);
                }
                return Some(i);
            }
            i += 1;
        }
        proof {
            lemma_first_index_at(ss, has_id(id@), i as int);
        }
        None
    }

    /// Puts `s` in place of the session with its id, or adds it.
    fn put_session(&mut self, s: Session)
        requires
            old(self).wf(),
        ensures
            final(self).wf(),
            final(self)@.sessions == put(old(self)@.sessions, s@),
            final(self)@.theme == old(self)@.theme,
            final(self)@.log_capacity == old(self)@.log_capacity,
            final(self)@.restore_sessions == old(self)@.restore_sessions,
    {
        let ghost sv = s@;
        proof {
            lemma_put(old(self)@.sessions, sv);
        }
        match self.position(s.id.as_str()) {
            Some(i) => {
                self.sessions.set(i, s);
                assert(sessions_view(self.sessions@) =~= sessions_view(old(self).sessions@).update(i as int, sv));
            },
            None => {
                self.sessions.push(s);
                assert(sessions_view(self.sessions@) =~= sessions_view(old(self).sessions@).push(sv));
            },
        }
    }

    /// Takes session `i` out.
    fn take_at(&mut self, i: usize) -> (r: Session)
        requires
            i < old(self)@.sessions.len(),
        ensures
            r@ == old(self)@.sessions[i as int],
            final(self)@.sessions == old(self)@.sessions.remove(i as int),
            final(self)@.theme == old(self)@.theme,
            final(self)@.log_capacity == old(self)@.log_capacity,
            final(self)@.restore_sessions == old(self)@.restore_sessions,
    {
        let r = self.sessions.remove(i);
        assert(sessions_view(self.sessions@) =~= sessions_view(old(self).sessions@).remove(i as int));
        r
    }

    /// Puts `s` back at `i`.
    fn put_at(&mut self, i: usize, s: Session)
        requires
            i <= old(self)@.sessions.len(),
        ensures
            final(self)@.sessions == old(self)@.sessions.insert(i as int, s@),
            final(self)@.theme == old(self)@.theme,
            final(self)@.log_capacity == old(self)@.log_capacity,
            final(self)@.restore_sessions == old(self)@.restore_sessions,
    {
        let ghost sv = s@;
        self.sessions.insert(i, s);
        assert(sessions_view(self.sessions@) =~= sessions_view(old(self).sessions@).insert(i as int, sv));
    }

    /// Creates a closed session from `config` (the default when there is
    /// none) with a fresh id, an empty catalog and an empty log of the
    /// configured capacity; a blank name becomes `Session <n>`, `n` one more
    /// than the number of sessions.
    pub fn create(&mut self, config: Option<SessionConfig>) -> (r: SessionSummary)
        requires
            old(self).wf(),
            old(self)@.sessions.len() < 0xffff_ffff_ffff_ffff,
        ensures
            final(self).wf(),
            r.id@.len() == 36,
            final(self)@.sessions == put(
                old(self)@.sessions,
                fresh(
                    r.id@,
                    named(
                        match config {
                            Some(c) => c@,
                            None => default_config(),
                        },
                        (old(self)@.sessions.len() + 1) as nat,
                    ),
                    CatalogV { source: Seq::empty(), messages: Seq::empty() },
                    old(self)@.log_capacity,
                ),
            ),
            summary_of(r, final(self)@.sessions[index_of(final(self)@.sessions, r.id@)->0]),
            final(self)@.theme == old(self)@.theme,
            final(self)@.log_capacity == old(self)@.log_capacity,
            final(self)@.restore_sessions == old(self)@.restore_sessions,
    {
        let ghost config_in = config;
        let mut config = match config {
            Some(c) => c,
            None => SessionConfig::default(),
        };
        let t = trim_chars(&chars_of(config.name.as_str()));
        if t.len() == 0 {
            let mut v = chars_of("Session ");
            let n: u64 = self.sessions.len() as u64 + 1;
            push_all(&mut v, &u64_text(n));
            config.name = string_of(&v);
        }
        let id = new_id();
        let cap = if self.settings.log_capacity >= 1 {
            self.settings.log_capacity
        } else {
            1
        };
        let session = Session {
            id: id.clone(),
            config,
            open: false,
            hsms_state: "NotConnected".to_string(),
            logs: SessionLog::new(cap),
            catalog: MessageCatalog::new(),
        };
        let summary = session.summary();
        let ghost sv = session@;
        let ghost want_cfg = named(
            match config_in {
                Some(c) => c@,
                None => default_config(),
            },
            (old(self)@.sessions.len() + 1) as nat,
        );
        assert(sv.config == want_cfg);
        assert(sv.logs =~= Seq::<LogEntryV>::empty());
        assert(sv == fresh(
            summary.id@,
            want_cfg,
            CatalogV { source: Seq::empty(), messages: Seq::empty() },
            old(self)@.log_capacity,
        ));
        self.put_session(session);
        proof {
            lemma_put(old(self)@.sessions, sv);
            lemma_first_index(self@.sessions, has_id(sv.id));
        }
        summary
    }

    /// Removes a closed session.
    pub fn remove(&mut self, id: &str) -> (r: Result<(), SessionError>)
        requires
            old(self).wf(),
        ensures
            final(self).wf(),
            final(self)@.theme == old(self)@.theme,
            final(self)@.log_capacity == old(self)@.log_capacity,
            final(self)@.restore_sessions == old(self)@.restore_sessions,
            match index_of(old(self)@.sessions, id@) {
                None => r matches Err(SessionError::NotFound(x)) && x@ == id@ && final(self)@.sessions == old(self)@.sessions,
                Some(i) => if old(self)@.sessions[i].open {
                    r matches Err(SessionError::OpenOnRemove) && final(self)@.sessions == old(self)@.sessions
                } else {
                    r is Ok && final(self)@.sessions == old(self)@.sessions.remove(i)
                },
            },
    {
        let i = match self.position(id) {
            Some(i) => i,
            None => {
                return Err(SessionError::NotFound(id.to_string()));
            },
        };
        if self.sessions[i].open {
            return Err(SessionError::OpenOnRemove);
        }
        let _ = self.take_at(i);
        proof {
            let o = old(self)@.sessions;
            let n = self@.sessions;
            assert forall|a: int, b: int| 0 <= a < b < n.len() implies (#[trigger] n[a]).id != (#[trigger] n[b]).id by {
                let aa = if a < i { a } else { a + 1 };
                let bb = if b < i { b } else { b + 1 };
                assert(n[a] == o[aa]);
                assert(n[b] == o[bb]);
            }
        }
        Ok(())
    }

    /// Session `i` with `f` applied: the session is taken out, changed and
    /// put back (a helper for the field updates below).
    fn replace_config(&mut self, i: usize, config: SessionConfig) -> (r: SessionSummary)
        requires
            old(self).wf(),
            i < old(self)@.sessions.len(),
        ensures
            final(self).wf(),
            final(self)@.sessions == old(self)@.sessions.update(i as int, SessionV { config: config@, ..old(self)@.sessions[i as int] }),
            summary_of(r, final(self)@.sessions[i as int]),
            final(self)@.theme == old(self)@.theme,
            final(self)@.log_capacity == old(self)@.log_capacity,
            final(self)@.restore_sessions == old(self)@.restore_sessions,
    {
        let mut s = self.take_at(i);
        s.config = config;
        let r = s.summary();
        self.put_at(i, s);
        proof {
            assert(self@.sessions =~= old(self)@.sessions.update(i as int, SessionV { config: config@, ..old(self)@.sessions[i as int] }));
        }
        r
    }

    /// Replaces the configuration of a closed session.
    pub fn update_config(&mut self, id: &str, config: SessionConfig) -> (r: Result<SessionSummary, SessionError>)
        requires
            old(self).wf(),
        ensures
            final(self).wf(),
            final(self)@.theme == old(self)@.theme,
            final(self)@.log_capacity == old(self)@.log_capacity,
            final(self)@.restore_sessions == old(self)@.restore_sessions,
            match index_of(old(self)@.sessions, id@) {
                None => r matches Err(SessionError::NotFound(x)) && x@ == id@ && final(self)@.sessions == old(self)@.sessions,
                Some(i) => if old(self)@.sessions[i].open {
                    r matches Err(SessionError::OpenOnUpdate) && final(self)@.sessions == old(self)@.sessions
                } else {
                    &&& final(self)@.sessions == old(self)@.sessions.update(i, SessionV { config: config@, ..old(self)@.sessions[i] })
                    &&& r matches Ok(s) && summary_of(s, final(self)@.sessions[i])
                },
            },
    {
        let i = match self.position(id) {
            Some(i) => i,
            None => {
                return Err(SessionError::NotFound(id.to_string()));
            },
        };
        if self.sessions[i].open {
            return Err(SessionError::OpenOnUpdate);
        }
        Ok(self.replace_config(i, config))
    }

    /// Copy of a session's configuration.
    pub fn get_config(&self, id: &str) -> (r: Result<SessionConfig, SessionError>)
        ensures
            match index_of(self@.sessions, id@) {
                None => r matches Err(SessionError::NotFound(x)) && x@ == id@,
                Some(i) => r matches Ok(c) && c@ == self@.sessions[i].config,
            },
    {
        match self.position(id) {
            Some(i) => Ok(self.sessions[i].config.clone()),
            None => Err(SessionError::NotFound(id.to_string())),
        }
    }

    /// A session's summary.
    pub fn get_summary(&self, id: &str) -> (r: Result<SessionSummary, SessionError>)
        ensures
            match index_of(self@.sessions, id@) {
                None => r matches Err(SessionError::NotFound(x)) && x@ == id@,
                Some(i) => r matches Ok(s) && summary_of(s, self@.sessions[i]),
            },
    {
        match self.position(id) {
            Some(i) => Ok(self.sessions[i].summary()),
            None => Err(SessionError::NotFound(id.to_string())),
        }
    }

    /// Copy of a session's catalog.
    pub fn get_catalog(&self, id: &str) -> (r: Result<MessageCatalog, SessionError>)
        ensures
            match index_of(self@.sessions, id@) {
                None => r matches Err(SessionError::NotFound(x)) && x@ == id@,
                Some(i) => r matches Ok(c) && c@ == self@.sessions[i].catalog,
            },
    {
        match self.position(id) {
            Some(i) => Ok(self.sessions[i].catalog.clone()),
            None => Err(SessionError::NotFound(id.to_string())),
        }
    }

    /// Copy of a session's log entries, oldest first.
    pub fn get_logs(&self, id: &str) -> (r: Result<Vec<LogEntry>, SessionError>)
        ensures
            match index_of(self@.sessions, id@) {
                None => r matches Err(SessionError::NotFound(x)) && x@ == id@,
                Some(i) => r matches Ok(v) && entries_view(v@) == self@.sessions[i].logs,
            },
    {
        match self.position(id) {
            Some(i) => Ok(self.sessions[i].logs.entries()),
            None => Err(SessionError::NotFound(id.to_string())),
        }
    }
}


pub proof fn lemma_update_same_id(ss: Seq<SessionV>, i: int, s: SessionV)
    requires
        unique_ids(ss),
        0 <= i < ss.len(),
        s.id == ss[i].id,
    ensures
        unique_ids(ss.update(i, s)),
        index_of(ss.update(i, s), s.id) == Some(i),
{
    let r = ss.update(i, s);
    assert forall|a: int, b: int| 0 <= a < b < r.len() implies (#[trigger] r[a]).id != (#[trigger] r[b]).id by {
        assert(r[a].id == ss[a].id);
        assert(r[b].id == ss[b].id);
    }
    assert forall|k: int| 0 <= k < i implies !(has_id(s.id))(#[trigger] r[k]) by {
        assert(r[k].id == ss[k].id);
    }
    lemma_first_index_at(r, has_id(s.id), i);
}

impl SessionManager {
    /// Replaces a session's catalog.
    pub fn set_catalog(&mut self, id: &str, catalog: MessageCatalog) -> (r: Result<(), SessionError>)
        requires
            old(self).wf(),
        ensures
            final(self).wf(),
            final(self)@.theme == old(self)@.theme,
            final(self)@.log_capacity == old(self)@.log_capacity,
            final(self)@.restore_sessions == old(self)@.restore_sessions,
            match index_of(old(self)@.sessions, id@) {
                None => r matches Err(SessionError::NotFound(x)) && x@ == id@ && final(self)@.sessions == old(self)@.sessions,
                Some(i) => r is Ok && final(self)@.sessions == old(self)@.sessions.update(i, SessionV { catalog: catalog@, ..old(self)@.sessions[i] }),
            },
    {
        let i = match self.position(id) {
            Some(i) => i,
            None => {
                return Err(SessionError::NotFound(id.to_string()));
            },
        };
        let mut s = self.take_at(i);
        s.catalog = catalog;
        let ghost sv = s@;
        self.put_at(i, s);
        proof {
            assert(self@.sessions =~= old(self)@.sessions.update(i as int, sv));
            lemma_update_same_id(old(self)@.sessions, i as int, sv);
        }
        Ok(())
    }

    /// Adds or replaces a message (its SML text refreshed from its body
    /// tree) in a session's catalog; returns a copy of the catalog.
    pub fn upsert_message(&mut self, id: &str, msg: PrefabMessage) -> (r: Result<MessageCatalog, SessionError>)
        requires
            old(self).wf(),
        ensures
            final(self).wf(),
            final(self)@.theme == old(self)@.theme,
            final(self)@.log_capacity == old(self)@.log_capacity,
            final(self)@.restore_sessions == old(self)@.restore_sessions,
            match index_of(old(self)@.sessions, id@) {
                None => r matches Err(SessionError::NotFound(x)) && x@ == id@ && final(self)@.sessions == old(self)@.sessions,
                Some(i) => {
                    let m = if msg@.body_tree.len() == 0 {
                        msg@
                    } else {
                        PrefabV { body_sml: tree_sml(msg@.body_tree), ..msg@ }
                    };
                    let c = CatalogV {
                        source: old(self)@.sessions[i].catalog.source,
                        messages: upserted(old(self)@.sessions[i].catalog.messages, m),
                    };
                    &&& final(self)@.sessions == old(self)@.sessions.update(i, SessionV { catalog: c, ..old(self)@.sessions[i] })
                    &&& r matches Ok(x) && x@ == c
                },
            },
    {
        let i = match self.position(id) {
            Some(i) => i,
            None => {
                return Err(SessionError::NotFound(id.to_string()));
            },
        };
        let mut msg = msg;
        msg.sync_body_sml_from_tree();
        let mut s = self.take_at(i);
        s.catalog.upsert(msg);
        let out = s.catalog.clone();
        let ghost sv = s@;
        self.put_at(i, s);
        proof {
            assert(self@.sessions =~= old(self)@.sessions.update(i as int, sv));
            lemma_update_same_id(old(self)@.sessions, i as int, sv);
        }
        Ok(out)
    }

    /// Removes a message from a session's catalog; returns a copy of the
    /// catalog.
    pub fn remove_message(&mut self, id: &str, message_id: &str) -> (r: Result<MessageCatalog, SessionError>)
        requires
            old(self).wf(),
        ensures
            final(self).wf(),
            final(self)@.theme == old(self)@.theme,
            final(self)@.log_capacity == old(self)@.log_capacity,
            final(self)@.restore_sessions == old(self)@.restore_sessions,
            match index_of(old(self)@.sessions, id@) {
                None => r matches Err(SessionError::NotFound(x)) && x@ == id@ && final(self)@.sessions == old(self)@.sessions,
                Some(i) => {
                    let c = CatalogV {
                        source: old(self)@.sessions[i].catalog.source,
                        messages: without_id(old(self)@.sessions[i].catalog.messages, message_id@),
                    };
                    &&& final(self)@.sessions == old(self)@.sessions.update(i, SessionV { catalog: c, ..old(self)@.sessions[i] })
                    &&& r matches Ok(x) && x@ == c
                },
            },
    {
        let i = match self.position(id) {
            Some(i) => i,
            None => {
                return Err(SessionError::NotFound(id.to_string()));
            },
        };
        let mut s = self.take_at(i);
        let _ = s.catalog.remove(message_id);
        let out = s.catalog.clone();
        let ghost sv = s@;
        self.put_at(i, s);
        proof {
            assert(self@.sessions =~= old(self)@.sessions.update(i as int, sv));
            lemma_update_same_id(old(self)@.sessions, i as int, sv);
        }
        Ok(out)
    }

    /// Replaces a session's catalog with an SMD document's messages;
    /// returns their number and a copy of the catalog. On error nothing
    /// changes.
    pub fn import_smd(&mut self, id: &str, xml: &str, source: &str) -> (r: Result<(usize, MessageCatalog), SessionError>)
        requires
            old(self).wf(),
        ensures
            final(self).wf(),
            final(self)@.theme == old(self)@.theme,
            final(self)@.log_capacity == old(self)@.log_capacity,
            final(self)@.restore_sessions == old(self)@.restore_sessions,
            match index_of(old(self)@.sessions, id@) {
                None => r matches Err(SessionError::NotFound(x)) && x@ == id@ && final(self)@.sessions == old(self)@.sessions,
                Some(i) => match smd_document(xml@) {
                    Err(f) => r matches Err(SessionError::Smd(e)) && e@ == f && final(self)@.sessions == old(self)@.sessions,
                    Ok(shapes) => r matches Ok((n, c)) && {
                        &&& n == c@.messages.len()
                        &&& c@.source == source@
                        &&& shapes == Seq::new(c@.messages.len(), |k: int| prefab_shape(c@.messages[k]))
                        &&& final(self)@.sessions == old(self)@.sessions.update(i, SessionV { catalog: c@, ..old(self)@.sessions[i] })
                    },
                },
            },
    {
        let i = match self.position(id) {
            Some(i) => i,
            None => {
                return Err(SessionError::NotFound(id.to_string()));
            },
        };
        let mut s = self.take_at(i);
        let res = s.catalog.import_smd(xml, source);
        let ghost sv = s@;
        match res {
            Ok(n) => {
                let out = s.catalog.clone();
                self.put_at(i, s);
                proof {
                    assert(self@.sessions =~= old(self)@.sessions.update(i as int, sv));
                    lemma_update_same_id(old(self)@.sessions, i as int, sv);
                }
                Ok((n, out))
            },
            Err(e) => {
                self.put_at(i, s);
                proof {
                    assert(self@.sessions =~= old(self)@.sessions.update(i as int, sv));
                    assert(sv == old(self)@.sessions[i as int]);
                    assert(self@.sessions =~= old(self)@.sessions);
                }
                Err(SessionError::Smd(e))
            },
        }
    }

    /// Empties a session's log.
    pub fn clear_logs(&mut self, id: &str) -> (r: Result<(), SessionError>)
        requires
            old(self).wf(),
        ensures
            final(self).wf(),
            final(self)@.theme == old(self)@.theme,
            final(self)@.log_capacity == old(self)@.log_capacity,
            final(self)@.restore_sessions == old(self)@.restore_sessions,
            match index_of(old(self)@.sessions, id@) {
                None => r matches Err(SessionError::NotFound(x)) && x@ == id@ && final(self)@.sessions == old(self)@.sessions,
                Some(i) => r is Ok && final(self)@.sessions == old(self)@.sessions.update(i, SessionV { logs: Seq::empty(), ..old(self)@.sessions[i] }),
            },
    {
        let i = match self.position(id) {
            Some(i) => i,
            None => {
                return Err(SessionError::NotFound(id.to_string()));
            },
        };
        let mut s = self.take_at(i);
        s.logs.clear();
        let ghost sv = s@;
        self.put_at(i, s);
        proof {
            assert(sv.logs =~= Seq::<LogEntryV>::empty());
            assert(self@.sessions =~= old(self)@.sessions.update(i as int, sv));
            lemma_update_same_id(old(self)@.sessions, i as int, sv);
        }
        Ok(())
    }

    /// Appends an entry to a session's log; `false` when there is no such
    /// session.
    pub fn push_log(&mut self, id: &str, entry: LogEntry) -> (r: bool)
        requires
            old(self).wf(),
        ensures
            final(self).wf(),
            final(self)@.theme == old(self)@.theme,
            final(self)@.log_capacity == old(self)@.log_capacity,
            final(self)@.restore_sessions == old(self)@.restore_sessions,
            match index_of(old(self)@.sessions, id@) {
                None => !r && final(self)@.sessions == old(self)@.sessions,
                Some(i) => {
                    let o = old(self)@.sessions[i];
                    r && final(self)@.sessions == old(self)@.sessions.update(i, SessionV { logs: pushed(o.logs, entry@, o.log_cap), ..o })
                },
            },
    {
        let i = match self.position(id) {
            Some(i) => i,
            None => {
                return false;
            },
        };
        let mut s = self.take_at(i);
        s.logs.push(entry);
        let ghost sv = s@;
        self.put_at(i, s);
        proof {
            assert(self@.sessions =~= old(self)@.sessions.update(i as int, sv));
            lemma_update_same_id(old(self)@.sessions, i as int, sv);
        }
        true
    }

    /// Records a session's link state; `false` when there is no such session.
    pub fn set_hsms_state(&mut self, id: &str, state: &str) -> (r: bool)
        requires
            old(self).wf(),
        ensures
            final(self).wf(),
            final(self)@.theme == old(self)@.theme,
            final(self)@.log_capacity == old(self)@.log_capacity,
            final(self)@.restore_sessions == old(self)@.restore_sessions,
            match index_of(old(self)@.sessions, id@) {
                None => !r && final(self)@.sessions == old(self)@.sessions,
                Some(i) => r && final(self)@.sessions == old(self)@.sessions.update(i, SessionV { hsms_state: state@, ..old(self)@.sessions[i] }),
            },
    {
        let i = match self.position(id) {
            Some(i) => i,
            None => {
                return false;
            },
        };
        let mut s = self.take_at(i);
        s.hsms_state = state.to_string();
        let ghost sv = s@;
        self.put_at(i, s);
        proof {
            assert(self@.sessions =~= old(self)@.sessions.update(i as int, sv));
            lemma_update_same_id(old(self)@.sessions, i as int, sv);
        }
        true
    }

    /// Checks that a session can be opened; returns copies of its
    /// configuration and catalog for the link.
    pub fn begin_open(&self, id: &str) -> (r: Result<(SessionConfig, MessageCatalog), SessionError>)
        ensures
            match index_of(self@.sessions, id@) {
                None => r matches Err(SessionError::NotFound(x)) && x@ == id@,
                Some(i) => if self@.sessions[i].open {
                    r matches Err(SessionError::AlreadyOpen)
                } else {
                    r matches Ok((c, k)) && c@ == self@.sessions[i].config && k@ == self@.sessions[i].catalog
                },
            },
    {
        match self.position(id) {
            Some(i) => {
                if self.sessions[i].open {
                    Err(SessionError::AlreadyOpen)
                } else {
                    Ok((self.sessions[i].config.clone(), self.sessions[i].catalog.clone()))
                }
            },
            None => Err(SessionError::NotFound(id.to_string())),
        }
    }

    /// Marks a session open with link state `state`.
    pub fn mark_open(&mut self, id: &str, state: &str) -> (r: Result<SessionSummary, SessionError>)
        requires
            old(self).wf(),
        ensures
            final(self).wf(),
            final(self)@.theme == old(self)@.theme,
            final(self)@.log_capacity == old(self)@.log_capacity,
            final(self)@.restore_sessions == old(self)@.restore_sessions,
            match index_of(old(self)@.sessions, id@) {
                None => r matches Err(SessionError::NotFound(x)) && x@ == id@ && final(self)@.sessions == old(self)@.sessions,
                Some(i) => {
                    &&& final(self)@.sessions == old(self)@.sessions.update(i, SessionV { open: true, hsms_state: state@, ..old(self)@.sessions[i] })
                    &&& r matches Ok(s) && summary_of(s, final(self)@.sessions[i])
                },
            },
    {
        let i = match self.position(id) {
            Some(i) => i,
            None => {
                return Err(SessionError::NotFound(id.to_string()));
            },
        };
        let mut s = self.take_at(i);
        s.open = true;
        s.hsms_state = state.to_string();
        let sum = s.summary();
        let ghost sv = s@;
        self.put_at(i, s);
        proof {
            assert(self@.sessions =~= old(self)@.sessions.update(i as int, sv));
            lemma_update_same_id(old(self)@.sessions, i as int, sv);
        }
        Ok(sum)
    }

    /// Marks an open session closed (its link is then shut by the caller).
    pub fn begin_close(&mut self, id: &str) -> (r: Result<(), SessionError>)
        requires
            old(self).wf(),
        ensures
            final(self).wf(),
            final(self)@.theme == old(self)@.theme,
            final(self)@.log_capacity == old(self)@.log_capacity,
            final(self)@.restore_sessions == old(self)@.restore_sessions,
            match index_of(old(self)@.sessions, id@) {
                None => r matches Err(SessionError::NotFound(x)) && x@ == id@ && final(self)@.sessions == old(self)@.sessions,
                Some(i) => if !old(self)@.sessions[i].open {
                    r matches Err(SessionError::NotOpen) && final(self)@.sessions == old(self)@.sessions
                } else {
                    r is Ok && final(self)@.sessions == old(self)@.sessions.update(i, SessionV { open: false, ..old(self)@.sessions[i] })
                },
            },
    {
        let i = match self.position(id) {
            Some(i) => i,
            None => {
                return Err(SessionError::NotFound(id.to_string()));
            },
        };
        if !self.sessions[i].open {
            return Err(SessionError::NotOpen);
        }
        let mut s = self.take_at(i);
        s.open = false;
        let ghost sv = s@;
        self.put_at(i, s);
        proof {
            assert(self@.sessions =~= old(self)@.sessions.update(i as int, sv));
            lemma_update_same_id(old(self)@.sessions, i as int, sv);
        }
        Ok(())
    }

    /// After the link is shut: the session's log gains the system note
    /// `closed`, and the session is closed and `NotConnected`.
    pub fn finish_close(&mut self, id: &str) -> (r: Result<SessionSummary, SessionError>)
        requires
            old(self).wf(),
        ensures
            final(self).wf(),
            final(self)@.theme == old(self)@.theme,
            final(self)@.log_capacity == old(self)@.log_capacity,
            final(self)@.restore_sessions == old(self)@.restore_sessions,
            match index_of(old(self)@.sessions, id@) {
                None => r matches Err(SessionError::NotFound(x)) && x@ == id@ && final(self)@.sessions == old(self)@.sessions,
                Some(i) => {
                    let o = old(self)@.sessions[i];
                    &&& exists|e: LogEntryV| #[trigger] system_note(e, "closed"@) && final(self)@.sessions == old(self)@.sessions.update(
                        i,
                        SessionV { open: false, hsms_state: "NotConnected"@, logs: pushed(o.logs, e, o.log_cap), ..o },
                    )
                    &&& r matches Ok(s) && summary_of(s, final(self)@.sessions[i])
                },
            },
    {
        let e = LogEntry::system(String::from_str("closed"));
        let ghost ev = e@;
        if !self.push_log(id, e) {
            return Err(SessionError::NotFound(id.to_string()));
        }
        let ghost mid = self@.sessions;
        proof {
            let i = index_of(old(self)@.sessions, id@)->0;
            crate::flow_model::lemma_first_index(old(self)@.sessions, has_id(id@));
            lemma_update_same_id(old(self)@.sessions, i, mid[i]);
        }
        let r = self.mark_state(id, false, "NotConnected");
        proof {
            let i = index_of(old(self)@.sessions, id@)->0;
            let o = old(self)@.sessions[i];
            assert(self@.sessions =~= old(self)@.sessions.update(
                i,
                SessionV { open: false, hsms_state: "NotConnected"@, logs: pushed(o.logs, ev, o.log_cap), ..o },
            ));
            assert(system_note(ev, "closed"@));
        }
        r
    }

    fn mark_state(&mut self, id: &str, open: bool, state: &str) -> (r: Result<SessionSummary, SessionError>)
        requires
            old(self).wf(),
        ensures
            final(self).wf(),
            final(self)@.theme == old(self)@.theme,
            final(self)@.log_capacity == old(self)@.log_capacity,
            final(self)@.restore_sessions == old(self)@.restore_sessions,
            match index_of(old(self)@.sessions, id@) {
                None => r matches Err(SessionError::NotFound(x)) && x@ == id@ && final(self)@.sessions == old(self)@.sessions,
                Some(i) => {
                    &&& final(self)@.sessions == old(self)@.sessions.update(i, SessionV { open, hsms_state: state@, ..old(self)@.sessions[i] })
                    &&& r matches Ok(s) && summary_of(s, final(self)@.sessions[i])
                },
            },
    {
        let i = match self.position(id) {
            Some(i) => i,
            None => {
                return Err(SessionError::NotFound(id.to_string()));
            },
        };
        let mut s = self.take_at(i);
        s.open = open;
        s.hsms_state = state.to_string();
        let sum = s.summary();
        let ghost sv = s@;
        self.put_at(i, s);
        proof {
            assert(self@.sessions =~= old(self)@.sessions.update(i as int, sv));
            lemma_update_same_id(old(self)@.sessions, i as int, sv);
        }
        Ok(sum)
    }

    /// A session can send: it exists and is open.
    pub fn check_send(&self, id: &str) -> (r: Result<(), SessionError>)
        ensures
            match index_of(self@.sessions, id@) {
                None => r matches Err(SessionError::NotFound(x)) && x@ == id@,
                Some(i) => if self@.sessions[i].open {
                    r is Ok
                } else {
                    r matches Err(SessionError::NotOpen)
                },
            },
    {
        match self.position(id) {
            Some(i) => if self.sessions[i].open {
                Ok(())
            } else {
                Err(SessionError::NotOpen)
            },
            None => Err(SessionError::NotFound(id.to_string())),
        }
    }

    /// Whether any session is open.
    fn any_open(&self) -> (r: bool)
        ensures
            r == exists|k: int| 0 <= k < self@.sessions.len() && (#[trigger] self@.sessions[k]).open,
    {
        let mut i: usize = 0;
        while i < self.sessions.len()
            invariant
                i <= self.sessions@.len(),
                forall|k: int| 0 <= k < i ==> !(#[trigger] self@.sessions[k]).open,
            decreases self.sessions.len() - i,
        {
            assert(self@.sessions[i as int] == self.sessions@[i as int]@);
            if self.sessions[i].open {
                return true;
            }
            i += 1;
        }
        false
    }

    /// Replaces every session and the settings with a saved state; refused
    /// while a session is open. Restored sessions are closed, with empty
    /// logs of the restored log capacity.
    pub fn restore_snapshot(&mut self, state: AppPersistState) -> (r: Result<(), SessionError>)
        requires
            old(self).wf(),
        ensures
            final(self).wf(),
            if exists|k: int| 0 <= k < old(self)@.sessions.len() && (#[trigger] old(self)@.sessions[k]).open {
                r matches Err(SessionError::OpenOnRestore) && final(self)@ == old(self)@
            } else {
                &&& r is Ok
                &&& final(self)@.theme == state.settings.theme@
                &&& final(self)@.log_capacity == state.settings.log_capacity
                &&& final(self)@.restore_sessions == state.settings.restore_sessions
                &&& final(self)@.sessions == restored(state.sessions@, state.settings.log_capacity)
            },
    {
        if self.any_open() {
            return Err(SessionError::OpenOnRestore);
        }
        let AppPersistState { version: _, settings, sessions } = state;
        let ghost snaps = sessions@;
        let cap = settings.log_capacity;
        let ghost theme = settings.theme@;
        let ghost keep = settings.restore_sessions;
        self.settings = settings;
        self.sessions = Vec::new();
        assert(sessions_view(self.sessions@) =~= Seq::<SessionV>::empty());
        let mut rest = sessions;
        let ghost all = snaps;
        let mut i: usize = 0;
        let n = rest.len();
        assert(all.skip(0) =~= all);
        assert(restored(all.take(0), cap) =~= Seq::<SessionV>::empty()) by {
            assert(all.take(0) =~= Seq::<SessionSnapshot>::empty());
        }
        while i < n
            invariant
                n == all.len(),
                i <= n,
                rest@ == all.skip(i as int),
                self.wf(),
                self@.sessions == restored(all.take(i as int), cap),
                self@.log_capacity == cap,
                self@.theme == theme,
                self@.restore_sessions == keep,
            decreases n - i,
        {
            let snap = rest.remove(0);
            assert(snap == all[i as int]);
            assert(rest@ =~= all.skip(i + 1));
            let SessionSnapshot { id, config, catalog } = snap;
            let c = if cap >= 1 {
                cap
            } else {
                1
            };
            let session = Session {
                id,
                config,
                open: false,
                hsms_state: "NotConnected".to_string(),
                logs: SessionLog::new(c),
                catalog,
            };
            assert(session@.logs =~= Seq::<LogEntryV>::empty());
            assert(all.take(i + 1).drop_last() =~= all.take(i as int));
            self.put_session(session);
            i += 1;
        }
        assert(all.take(n as int) =~= all);
        Ok(())
    }

    /// Restores a scenario's sessions, keeping the settings; returns how
    /// many sessions the scenario holds.
    pub fn import_scenario(&mut self, scenario: ScenarioFile) -> (r: Result<usize, SessionError>)
        requires
            old(self).wf(),
        ensures
            final(self).wf(),
            if exists|k: int| 0 <= k < old(self)@.sessions.len() && (#[trigger] old(self)@.sessions[k]).open {
                r matches Err(SessionError::OpenOnRestore) && final(self)@ == old(self)@
            } else {
                &&& r == Ok::<usize, SessionError>(scenario.sessions@.len() as usize)
                &&& final(self)@.theme == old(self)@.theme
                &&& final(self)@.log_capacity == old(self)@.log_capacity
                &&& final(self)@.restore_sessions == old(self)@.restore_sessions
                &&& final(self)@.sessions == restored(scenario.sessions@, old(self)@.log_capacity)
            },
    {
        let n = scenario.sessions.len();
        let state = AppPersistState { version: scenario.version, settings: self.settings.clone(), sessions: scenario.sessions };
        match self.restore_snapshot(state) {
            Ok(()) => Ok(n),
            Err(e) => Err(e),
        }
    }
}


/// Index `j` occurs in `order`.
pub open spec fn in_order(order: Seq<usize>, j: int) -> bool {
    order.contains(j as usize)
}

/// Session `a` is listed before session `b`.
pub open spec fn listed_before(ss: Seq<SessionV>, a: int, b: int) -> bool {
    key_lt(ss[a].config.name, ss[a].id, ss[b].config.name, ss[b].id)
}

/// `s` has a summary in `r`.
pub open spec fn listed(r: Seq<SessionSummary>, s: SessionV) -> bool {
    exists|p: int| 0 <= p < r.len() && #[trigger] summary_of(r[p], s)
}

/// `x` summarises one of `ss`.
pub open spec fn of_some(x: SessionSummary, ss: Seq<SessionV>) -> bool {
    exists|j: int| 0 <= j < ss.len() && #[trigger] summary_of(x, ss[j])
}

/// `s` has a snapshot in `r`.
pub open spec fn saved(r: Seq<SessionSnapshot>, s: SessionV) -> bool {
    exists|p: int| 0 <= p < r.len() && #[trigger] snapshot_of(r[p], s)
}

/// `x` is the snapshot of one of `ss`.
pub open spec fn saved_of_some(x: SessionSnapshot, ss: Seq<SessionV>) -> bool {
    exists|j: int| 0 <= j < ss.len() && #[trigger] snapshot_of(x, ss[j])
}

/// `r` is the snapshot of `s`.
pub open spec fn snapshot_of(r: SessionSnapshot, s: SessionV) -> bool {
    r.id@ == s.id && r.config@ == s.config && r.catalog@ == s.catalog
}

impl SessionManager {
    /// Session `a` is listed before session `b`.
    fn before(&self, a: usize, b: usize) -> (r: bool)
        requires
            a < self@.sessions.len(),
            b < self@.sessions.len(),
        ensures
            r == listed_before(self@.sessions, a as int, b as int),
    {
        let sa = &self.sessions[a];
        let sb = &self.sessions[b];
        assert(self@.sessions[a as int] == sa@);
        assert(self@.sessions[b as int] == sb@);
        let na = chars_of(sa.config.name.as_str());
        let nb = chars_of(sb.config.name.as_str());
        if crate::flow_eval::text_less(&na, &nb) {
            true
        } else if chars_eq(&na, &nb) {
            text_before(sa.id.as_str(), sb.id.as_str())
        } else {
            false
        }
    }

    /// Session indices in listing order (by name, then id).
    fn listing_order(&self) -> (r: Vec<usize>)
        requires
            self.wf(),
        ensures
            r@.len() == self@.sessions.len(),
            forall|p: int| 0 <= p < r@.len() ==> #[trigger] r@[p] < self@.sessions.len(),
            forall|j: int| 0 <= j < self@.sessions.len() ==> #[trigger] in_order(r@, j),
            forall|p: int, q: int| 0 <= p < q < r@.len() ==> listed_before(self@.sessions, #[trigger] r@[p] as int, #[trigger] r@[q] as int),
    {
        let ghost ss = self@.sessions;
        let n = self.sessions.len();
        let mut out: Vec<usize> = Vec::new();
        let mut i: usize = 0;
        while i < n
            invariant
                n == ss.len(),
                ss == self@.sessions,
                unique_ids(ss),
                i <= n,
                out@.len() == i,
                forall|p: int| 0 <= p < out@.len() ==> #[trigger] out@[p] < i,
                forall|j: int| 0 <= j < i ==> #[trigger] in_order(out@, j),
                forall|p: int, q: int| 0 <= p < q < out@.len() ==> listed_before(ss, #[trigger] out@[p] as int, #[trigger] out@[q] as int),
            decreases n - i,
        {
            let mut k: usize = 0;
            while k < out.len() && !self.before(i, out[k])
                invariant
                    n == ss.len(),
                    ss == self@.sessions,
                    i < n,
                    k <= out@.len(),
                    forall|p: int| 0 <= p < out@.len() ==> #[trigger] out@[p] < i,
                    forall|p: int| 0 <= p < k ==> !listed_before(ss, i as int, #[trigger] out@[p] as int),
                decreases out@.len() - k,
            {
                k += 1;
            }
            let ghost old_out = out@;
            out.insert(k, i);
            proof {
                let nw = out@;
                assert(nw =~= old_out.insert(k as int, i));
                assert forall|p: int| 0 <= p < nw.len() implies #[trigger] nw[p] < i + 1 by {
                    if p < k {
                        assert(nw[p] == old_out[p]);
                    } else if p > k {
                        assert(nw[p] == old_out[p - 1]);
                    }
                }
                assert forall|j: int| 0 <= j < i + 1 implies #[trigger] in_order(nw, j) by {
                    if j == i {
                        assert(nw[k as int] == i);
                    } else {
                        assert(in_order(old_out, j));
                        let p = choose|p: int| 0 <= p < old_out.len() && old_out[p] == j as usize;
                        if p < k {
                            assert(nw[p] == j as usize);
                        } else {
                            assert(nw[p + 1] == j as usize);
                        }
                    }
                }
                assert forall|p: int, q: int| 0 <= p < q < nw.len() implies listed_before(ss, #[trigger] nw[p] as int, #[trigger] nw[q] as int) by {
                    if p == k {
                        // i before everything after it
                        assert(nw[q] == old_out[q - 1]);
                        assert(listed_before(ss, i as int, old_out[k as int] as int));
                        if q - 1 > k {
                            let a = ss[i as int];
                            let b = ss[old_out[k as int] as int];
                            let c = ss[old_out[q - 1] as int];
                            lemma_key_lt_transitive(a.config.name, a.id, b.config.name, b.id, c.config.name, c.id);
                        }
                    } else if q == k {
                        assert(nw[p] == old_out[p]);
                        let a = ss[old_out[p] as int];
                        let b = ss[i as int];
                        assert(old_out[p] < i);
                        assert(a.id != b.id);
                        lemma_key_lt_total(a.config.name, a.id, b.config.name, b.id);
                    } else {
                        let pp = if p < k { p } else { p - 1 };
                        let qq = if q < k { q } else { q - 1 };
                        assert(nw[p] == old_out[pp]);
                        assert(nw[q] == old_out[qq]);
                    }
                }
            }
            i += 1;
        }
        out
    }

    /// Summaries of every session, by name and then by id.
    pub fn list(&self) -> (r: Vec<SessionSummary>)
        requires
            self.wf(),
        ensures
            r@.len() == self@.sessions.len(),
            forall|j: int| 0 <= j < self@.sessions.len() ==> #[trigger] listed(r@, self@.sessions[j]),
            forall|p: int| 0 <= p < r@.len() ==> #[trigger] of_some(r@[p], self@.sessions),
            forall|p: int, q: int| 0 <= p < q < r@.len() ==> key_lt((#[trigger] r@[p]).name@, r@[p].id@, (#[trigger] r@[q]).name@, r@[q].id@),
    {
        let order = self.listing_order();
        let mut out: Vec<SessionSummary> = Vec::new();
        let mut p: usize = 0;
        while p < order.len()
            invariant
                p <= order@.len(),
                out@.len() == p,
                order@.len() == self@.sessions.len(),
                forall|k: int| 0 <= k < order@.len() ==> #[trigger] order@[k] < self@.sessions.len(),
                forall|k: int| 0 <= k < p ==> summary_of(#[trigger] out@[k], self@.sessions[order@[k] as int]),
            decreases order.len() - p,
        {
            let j = order[p];
            assert(self@.sessions[j as int] == self.sessions@[j as int]@);
            out.push(self.sessions[j].summary());
            p += 1;
        }
        proof {
            assert forall|j: int| 0 <= j < self@.sessions.len() implies #[trigger] listed(out@, self@.sessions[j]) by {
                assert(in_order(order@, j));
                let k = choose|k: int| 0 <= k < order@.len() && order@[k] == j as usize;
                assert(summary_of(out@[k], self@.sessions[j]));
            }
            assert forall|k: int| 0 <= k < out@.len() implies #[trigger] of_some(out@[k], self@.sessions) by {
                assert(summary_of(out@[k], self@.sessions[order@[k] as int]));
            }
            assert forall|a: int, b: int| 0 <= a < b < out@.len() implies key_lt((#[trigger] out@[a]).name@, out@[a].id@, (#[trigger] out@[b]).name@, out@[b].id@) by {
                assert(listed_before(self@.sessions, order@[a] as int, order@[b] as int));
            }
        }
        out
    }

    /// Saved state: version 1, the settings, and every session (id,
    /// configuration, catalog) by name and then by id.
    pub fn snapshot(&self) -> (r: AppPersistState)
        requires
            self.wf(),
        ensures
            r.version == 1,
            r.settings.theme@ == self@.theme,
            r.settings.log_capacity == self@.log_capacity,
            r.settings.restore_sessions == self@.restore_sessions,
            r.sessions@.len() == self@.sessions.len(),
            forall|j: int| 0 <= j < self@.sessions.len() ==> #[trigger] saved(r.sessions@, self@.sessions[j]),
            forall|p: int| 0 <= p < r.sessions@.len() ==> #[trigger] saved_of_some(r.sessions@[p], self@.sessions),
            forall|p: int, q: int| 0 <= p < q < r.sessions@.len() ==> key_lt((#[trigger] r.sessions@[p]).config@.name, r.sessions@[p].id@, (#[trigger] r.sessions@[q]).config@.name, r.sessions@[q].id@),
    {
        let order = self.listing_order();
        let mut out: Vec<SessionSnapshot> = Vec::new();
        let mut p: usize = 0;
        while p < order.len()
            invariant
                p <= order@.len(),
                out@.len() == p,
                order@.len() == self@.sessions.len(),
                forall|k: int| 0 <= k < order@.len() ==> #[trigger] order@[k] < self@.sessions.len(),
                forall|k: int| 0 <= k < p ==> snapshot_of(#[trigger] out@[k], self@.sessions[order@[k] as int]),
            decreases order.len() - p,
        {
            let j = order[p];
            let s = &self.sessions[j];
            assert(self@.sessions[j as int] == s@);
            out.push(SessionSnapshot { id: s.id.clone(), config: s.config.clone(), catalog: s.catalog.clone() });
            p += 1;
        }
        proof {
            assert forall|j: int| 0 <= j < self@.sessions.len() implies #[trigger] saved(out@, self@.sessions[j]) by {
                assert(in_order(order@, j));
                let k = choose|k: int| 0 <= k < order@.len() && order@[k] == j as usize;
                assert(snapshot_of(out@[k], self@.sessions[j]));
            }
            assert forall|k: int| 0 <= k < out@.len() implies #[trigger] saved_of_some(out@[k], self@.sessions) by {
                assert(snapshot_of(out@[k], self@.sessions[order@[k] as int]));
            }
            assert forall|a: int, b: int| 0 <= a < b < out@.len() implies key_lt((#[trigger] out@[a]).config@.name, out@[a].id@, (#[trigger] out@[b]).config@.name, out@[b].id@) by {
                assert(listed_before(self@.sessions, order@[a] as int, order@[b] as int));
            }
        }
        AppPersistState { version: 1, settings: self.settings.clone(), sessions: out }
    }

    /// A scenario named `name` holding the snapshot's sessions.
    pub fn to_scenario(&self, name: String) -> (r: ScenarioFile)
        requires
            self.wf(),
        ensures
            r.version == 1,
            r.name@ == name@,
            r.sessions@.len() == self@.sessions.len(),
            forall|j: int| 0 <= j < self@.sessions.len() ==> #[trigger] saved(r.sessions@, self@.sessions[j]),
            forall|p: int| 0 <= p < r.sessions@.len() ==> #[trigger] saved_of_some(r.sessions@[p], self@.sessions),
            forall|p: int, q: int| 0 <= p < q < r.sessions@.len() ==> key_lt((#[trigger] r.sessions@[p]).config@.name, r.sessions@[p].id@, (#[trigger] r.sessions@[q]).config@.name, r.sessions@[q].id@),
    {
        let snap = self.snapshot();
        ScenarioFile { version: 1, name, sessions: snap.sessions }
    }
}


/// A removed session is gone: with unique ids, once the session with id
/// `id` is removed no session has that id, and ids stay unique.
pub proof fn lemma_removed_is_gone(ss: Seq<SessionV>, id: Seq<char>)
    requires
        unique_ids(ss),
        index_of(ss, id) is Some,
    ensures
        index_of(ss.remove(index_of(ss, id)->0), id) is None,
        unique_ids(ss.remove(index_of(ss, id)->0)),
{
    lemma_first_index(ss, has_id(id));
    let i = index_of(ss, id)->0;
    let r = ss.remove(i);
    assert forall|k: int| 0 <= k < r.len() implies !(has_id(id))(#[trigger] r[k]) by {
        let kk = if k < i { k } else { k + 1 };
        assert(r[k] == ss[kk]);
        assert(ss[kk].id != ss[i].id);
    }
    lemma_first_index_at(r, has_id(id), r.len() as int);
    assert forall|a: int, b: int| 0 <= a < b < r.len() implies (#[trigger] r[a]).id != (#[trigger] r[b]).id by {
        let aa = if a < i { a } else { a + 1 };
        let bb = if b < i { b } else { b + 1 };
        assert(r[a] == ss[aa]);
        assert(r[b] == ss[bb]);
    }
}

} // verus!
