//! The connection registry: the single owner of all live transport
//! handles and pseudo-terminal sessions, keyed by caller-chosen
//! connection identifiers.
//!
//! The registry itself performs no I/O. Transport handles and remote
//! channels are represented by opaque tokens; the embedding runtime maps
//! each token to the real resource, asks the registry what to do, and
//! performs the resulting actions (connect, disconnect, open or tear
//! down a channel). Every decision — what a cancel returns, which
//! handle a lookup yields, whether a stale close is honoured — is made
//! here and verified.
//!
//! Per identifier the life cycle is: absent, pending (a connect is in
//! flight and can still be cancelled), connected (a handle is
//! installed), and absent again after a close. A connected SSH entry may
//! additionally own one pseudo-terminal session, replaced atomically by
//! [`ConnectionManager::start_pty_connection`] under a strictly
//! increasing generation stamp, so that a delayed close aimed at an old
//! session can never kill its replacement.

use vstd::prelude::*;
use crate::errors::{ConnectError, PtyError};
use crate::pty::{PtySession, PtyView};
use crate::queue::QueueView;
use crate::strutil::str_eq;

verus! {

/// Which protocol a transport handle speaks.
#[derive(Debug, Clone, Copy, PartialEq, Eq, Structural)]
pub enum ProtocolKind {
    Ssh,
    Sftp,
    Ftp,
}

/// Reference to a live, authenticated transport session owned by the
/// embedding runtime; the token identifies it there.
#[derive(Debug, Clone, Copy, PartialEq, Eq, Structural)]
pub struct HandleRef {
    pub protocol: ProtocolKind,
    pub token: u64,
}

/// How an in-flight connect resolved. The embedding runtime races the
/// actual network connect against the cancellation signal and reports
/// the winner here.
#[derive(Debug, Clone, Copy, PartialEq, Eq)]
pub enum ConnectOutcome {
    /// The handshake and authentication succeeded; the token names the
    /// new transport handle.
    Connected(u64),
    /// The cancellation signal won the race.
    Cancelled,
    /// The transport failed.
    Failed(ConnectError),
}

/// What a successful [`ConnectionManager::start_pty_connection`] tells
/// the embedding runtime.
#[derive(Debug, Clone, Copy, PartialEq, Eq, Structural)]
pub struct PtyStarted {
    /// The generation stamp of the new session, strictly greater than
    /// that of every earlier session under the same identifier.
    pub generation: u64,
    /// Set when an older session was cancelled and removed first: the
    /// channel token whose remote resources the runtime must tear down.
    pub replaced_channel: Option<u64>,
}

/// What [`ConnectionManager::close_connection`] hands back for teardown.
#[derive(Debug, Clone, Copy, PartialEq, Eq, Structural)]
pub struct ClosedConnection {
    /// The transport handle to disconnect, if one was installed.
    pub handle: Option<u64>,
    /// The channel of the owned pseudo-terminal session, if one existed.
    pub pty_channel: Option<u64>,
}

struct ConnEntry {
    id: String,
    pending: bool,
    handle: Option<HandleRef>,
    pty: Option<PtySession>,
    generation: u64,
}

impl ConnEntry {
    spec fn wf(self) -> bool {
        match self.pty {
            Option::Some(p) => p.wf() && p@.generation == self.generation,
            Option::None => true,
        }
    }
}

/// The registry. Entries are created on first use of an identifier and
/// persist (so that generation stamps are never reused); the maps the
/// interface speaks of are projections of the entries.
pub struct ConnectionManager {
    entries: Vec<ConnEntry>,
}

impl ConnectionManager {
    spec fn sq(self) -> Seq<ConnEntry> {
        self.entries@
    }

    /// All entries are well formed and no identifier occurs twice.
    pub closed spec fn wf(self) -> bool {
        &&& forall|i: int, j: int|
            0 <= i < j < self.sq().len() ==> self.sq()[i].id@ != self.sq()[j].id@
        &&& forall|i: int| 0 <= i < self.sq().len() ==> (#[trigger] self.sq()[i]).wf()
    }

    /// Whether the identifier has ever been used.
    pub closed spec fn has_id(self, id: Seq<char>) -> bool {
        exists|i: int| 0 <= i < self.sq().len() && (#[trigger] self.sq()[i]).id@ == id
    }

    spec fn idx(self, id: Seq<char>) -> int {
        choose|i: int| 0 <= i < self.sq().len() && (#[trigger] self.sq()[i]).id@ == id
    }

    spec fn entry(self, id: Seq<char>) -> ConnEntry {
        self.sq()[self.idx(id)]
    }

    /// Whether a connect for the identifier is in flight and has not
    /// been cancelled.
    pub closed spec fn is_pending(self, id: Seq<char>) -> bool {
        self.has_id(id) && self.entry(id).pending
    }

    /// The installed transport handle for the identifier, if any.
    pub closed spec fn handle_of(self, id: Seq<char>) -> Option<HandleRef> {
        if self.has_id(id) {
            self.entry(id).handle
        } else {
            Option::None
        }
    }

    /// The live pseudo-terminal session under the identifier, if any.
    pub closed spec fn pty_of(self, id: Seq<char>) -> Option<PtyView> {
        if self.has_id(id) {
            match self.entry(id).pty {
                Option::Some(p) => Option::Some(p@),
                Option::None => Option::None,
            }
        } else {
            Option::None
        }
    }

    /// The last generation stamp issued for the identifier; zero before
    /// any session existed.
    pub closed spec fn gen_of(self, id: Seq<char>) -> u64 {
        if self.has_id(id) {
            self.entry(id).generation
        } else {
            0
        }
    }

    /// The identifier holds an SSH transport handle.
    pub open spec fn is_ssh(self, id: Seq<char>) -> bool {
        match self.handle_of(id) {
            Option::Some(h) => h.protocol == ProtocolKind::Ssh,
            Option::None => false,
        }
    }

    proof fn lemma_idx_at(self, i: int)
        requires
            self.wf(),
            0 <= i < self.sq().len(),
        ensures
            self.has_id(self.sq()[i].id@),
            self.idx(self.sq()[i].id@) == i,
            self.entry(self.sq()[i].id@) == self.sq()[i],
    {
        let id = self.sq()[i].id@;
        assert(self.has_id(id));
        let j = self.idx(id);
        if i < j {
            assert(self.sq()[i].id@ != self.sq()[j].id@);
        } else if j < i {
            assert(self.sq()[j].id@ != self.sq()[i].id@);
        }
    }

    /// Everything the registry reports of `k` is the same in `pre` and
    /// `post`.
    pub open spec fn key_unchanged(pre: ConnectionManager, post: ConnectionManager, k: Seq<char>) -> bool {
        &&& post.is_pending(k) == pre.is_pending(k)
        &&& post.handle_of(k) == pre.handle_of(k)
        &&& post.pty_of(k) == pre.pty_of(k)
        &&& post.gen_of(k) == pre.gen_of(k)
    }

    /// Frame condition: no identifier other than `id` is affected.
    pub open spec fn unchanged_except(pre: ConnectionManager, post: ConnectionManager, id: Seq<char>) -> bool {
        forall|k: Seq<char>| k != id ==> #[trigger] Self::key_unchanged(pre, post, k)
    }

    proof fn lemma_update(pre: ConnectionManager, post: ConnectionManager, i: int, e: ConnEntry)
        requires
            pre.wf(),
            0 <= i < pre.sq().len(),
            post.sq() == pre.sq().update(i, e),
            e.id@ == pre.sq()[i].id@,
            e.wf(),
        ensures
            post.wf(),
            Self::unchanged_except(pre, post, e.id@),
            post.has_id(e.id@),
            post.is_pending(e.id@) == e.pending,
            post.handle_of(e.id@) == e.handle,
            post.pty_of(e.id@) == (match e.pty {
                Option::Some(p) => Option::Some(p@),
                Option::None => Option::None,
            }),
            post.gen_of(e.id@) == e.generation,
    {
        let id = e.id@;
        assert forall|a: int, b: int| 0 <= a < b < post.sq().len() implies
            post.sq()[a].id@ != post.sq()[b].id@ by {
            assert(pre.sq()[a].id@ != pre.sq()[b].id@);
        }
        assert forall|a: int| 0 <= a < post.sq().len() implies (#[trigger] post.sq()[a]).wf() by {
            if a != i {
                assert(pre.sq()[a].wf());
            }
        }
        assert(post.sq()[i].id@ == id);
        post.lemma_idx_at(i);
        pre.lemma_idx_at(i);
        assert forall|k: Seq<char>| k != id implies #[trigger] Self::key_unchanged(pre, post, k) by {
            if pre.has_id(k) {
                let j = pre.idx(k);
                assert(pre.sq()[j].id@ == k);
                assert(j != i);
                assert(post.sq()[j] == pre.sq()[j]);
                post.lemma_idx_at(j);
                pre.lemma_idx_at(j);
            } else {
                if post.has_id(k) {
                    let j = post.idx(k);
                    assert(post.sq()[j].id@ == k);
                    assert(j != i);
                    assert(pre.sq()[j].id@ == k);
                }
            }
        }
    }

    proof fn lemma_push(pre: ConnectionManager, post: ConnectionManager, e: ConnEntry)
        requires
            pre.wf(),
            !pre.has_id(e.id@),
            post.sq() == pre.sq().push(e),
            e.wf(),
        ensures
            post.wf(),
            Self::unchanged_except(pre, post, e.id@),
            post.has_id(e.id@),
            post.is_pending(e.id@) == e.pending,
            post.handle_of(e.id@) == e.handle,
            post.pty_of(e.id@) == (match e.pty {
                Option::Some(p) => Option::Some(p@),
                Option::None => Option::None,
            }),
            post.gen_of(e.id@) == e.generation,
    {
        let id = e.id@;
        let n = pre.sq().len() as int;
        assert forall|a: int, b: int| 0 <= a < b < post.sq().len() implies
            post.sq()[a].id@ != post.sq()[b].id@ by {
            if b < n {
                assert(pre.sq()[a].id@ != pre.sq()[b].id@);
            } else {
                assert(post.sq()[b] == e);
                assert(pre.sq()[a].id@ != id);
            }
        }
        assert forall|a: int| 0 <= a < post.sq().len() implies (#[trigger] post.sq()[a]).wf() by {
            if a < n {
                assert(pre.sq()[a].wf());
            }
        }
        assert(post.sq()[n].id@ == id);
        post.lemma_idx_at(n);
        assert forall|k: Seq<char>| k != id implies #[trigger] Self::key_unchanged(pre, post, k) by {
            if pre.has_id(k) {
                let j = pre.idx(k);
                assert(pre.sq()[j].id@ == k);
                assert(post.sq()[j] == pre.sq()[j]);
                post.lemma_idx_at(j);
                pre.lemma_idx_at(j);
            } else {
                if post.has_id(k) {
                    let j = post.idx(k);
                    assert(post.sq()[j].id@ == k);
                    assert(j < n);
                    assert(pre.sq()[j].id@ == k);
                }
            }
        }
    }

    fn find_idx(&self, id: &str) -> (r: Option<usize>)
        requires
            self.wf(),
        ensures
            match r {
                Option::Some(i) => {
                    &&& i < self.sq().len()
                    &&& self.sq()[i as int].id@ == id@
                    &&& self.has_id(id@)
                    &&& self.idx(id@) == i
                    &&& self.entry(id@) == self.sq()[i as int]
                },
                Option::None => !self.has_id(id@),
            },
    {
        let n = self.entries.len();
        let mut i: usize = 0;
        while i < n
            invariant
                self.wf(),
                n == self.sq().len(),
                i <= n,
                forall|j: int| 0 <= j < i ==> (#[trigger] self.sq()[j]).id@ != id@,
            decreases n - i,
        {
            if str_eq(self.entries[i].id.as_str(), id) {
                proof {
                    self.lemma_idx_at(i as int);
                }
                return Some(i);
            }
            i += 1;
        }
        None
    }

    /// A registry with no connections at all.
    pub fn new() -> (mgr: ConnectionManager)
        ensures
            mgr.wf(),
            forall|k: Seq<char>| !(#[trigger] mgr.has_id(k)),
            forall|k: Seq<char>| !(#[trigger] mgr.is_pending(k)),
            forall|k: Seq<char>| (#[trigger] mgr.handle_of(k)) is None,
            forall|k: Seq<char>| (#[trigger] mgr.pty_of(k)) is None,
            forall|k: Seq<char>| (#[trigger] mgr.gen_of(k)) == 0,
    {
        let mgr = ConnectionManager { entries: Vec::new() };
        proof {
            assert forall|k: Seq<char>| !(#[trigger] mgr.has_id(k)) by {}
        }
        mgr
    }

    /// Registers a cancellation point for a connect that is about to be
    /// raced: the first half of establishing a connection. The runtime
    /// must later report the outcome through
    /// [`ConnectionManager::complete_connection`], which clears the
    /// pending state unconditionally.
    pub fn register_pending_connection(&mut self, id: &str)
        requires
            old(self).wf(),
        ensures
            final(self).wf(),
            final(self).is_pending(id@),
            final(self).handle_of(id@) == old(self).handle_of(id@),
            final(self).pty_of(id@) == old(self).pty_of(id@),
            final(self).gen_of(id@) == old(self).gen_of(id@),
            Self::unchanged_except(*old(self), *final(self), id@),
    {
        let found = self.find_idx(id);
        match found {
            Some(i) => {
                let ghost pre = *self;
                let mut e = self.entries.remove(i);
                e.pending = true;
                let ghost e2 = e;
                self.entries.insert(i, e);
                proof {
                    assert(self.sq() =~= pre.sq().update(i as int, e2));
                    Self::lemma_update(pre, *self, i as int, e2);
                }
            },
            None => {
                let ghost pre = *self;
                let e = ConnEntry {
                    id: id.to_owned(),
                    pending: true,
                    handle: None,
                    pty: None,
                    generation: 0,
                };
                let ghost e2 = e;
                self.entries.push(e);
                proof {
                    assert(self.sq() =~= pre.sq().push(e2));
                    Self::lemma_push(pre, *self, e2);
                }
            },
        }
    }

    /// Cancels an in-flight connect. Returns true exactly when a
    /// pending, uncancelled connect existed for the identifier; calling
    /// before any connect was registered, or after the connect resolved
    /// and was cleared, returns false and changes nothing.
    pub fn cancel_pending_connection(&mut self, id: &str) -> (r: bool)
        requires
            old(self).wf(),
        ensures
            final(self).wf(),
            r == old(self).is_pending(id@),
            !final(self).is_pending(id@),
            final(self).handle_of(id@) == old(self).handle_of(id@),
            final(self).pty_of(id@) == old(self).pty_of(id@),
            final(self).gen_of(id@) == old(self).gen_of(id@),
            Self::unchanged_except(*old(self), *final(self), id@),
    {
        let found = self.find_idx(id);
        match found {
            Some(i) => {
                let ghost pre = *self;
                let mut e = self.entries.remove(i);
                let was = e.pending;
                e.pending = false;
                let ghost e2 = e;
                self.entries.insert(i, e);
                proof {
                    assert(self.sq() =~= pre.sq().update(i as int, e2));
                    Self::lemma_update(pre, *self, i as int, e2);
                }
                was
            },
            None => false,
        }
    }

    /// Reports how the raced connect for `id` resolved: the second half
    /// of establishing a connection. The pending state is cleared
    /// unconditionally; on success the new SSH handle is installed
    /// (replacing any previous handle — concurrent creates for one
    /// identifier are last-writer-wins), on cancellation or failure
    /// nothing else changes and the error is returned.
    pub fn complete_connection(&mut self, id: &str, outcome: ConnectOutcome) -> (r: Result<(), ConnectError>)
        requires
            old(self).wf(),
        ensures
            final(self).wf(),
            !final(self).is_pending(id@),
            final(self).pty_of(id@) == old(self).pty_of(id@),
            final(self).gen_of(id@) == old(self).gen_of(id@),
            Self::unchanged_except(*old(self), *final(self), id@),
            match outcome {
                ConnectOutcome::Connected(tok) => {
                    &&& r is Ok
                    &&& final(self).handle_of(id@) == Option::Some(HandleRef { protocol: ProtocolKind::Ssh, token: tok })
                },
                ConnectOutcome::Cancelled => {
                    &&& r == Result::<(), ConnectError>::Err(ConnectError::Cancelled)
                    &&& final(self).handle_of(id@) == old(self).handle_of(id@)
                },
                ConnectOutcome::Failed(e) => {
                    &&& r == Result::<(), ConnectError>::Err(e)
                    &&& final(self).handle_of(id@) == old(self).handle_of(id@)
                },
            },
    {
        let found = self.find_idx(id);
        let i = match found {
            Some(i) => i,
            None => {
                // The identifier was never registered: create its entry,
                // then fall through to the common path below.
                let ghost pre = *self;
                let e = ConnEntry {
                    id: id.to_owned(),
                    pending: false,
                    handle: None,
                    pty: None,
                    generation: 0,
                };
                let ghost e2 = e;
                self.entries.push(e);
                proof {
                    assert(self.sq() =~= pre.sq().push(e2));
                    Self::lemma_push(pre, *self, e2);
                }
                self.entries.len() - 1
            },
        };
        let ghost pre = *self;
        let mut e = self.entries.remove(i);
        e.pending = false;
        let result = match &outcome {
            ConnectOutcome::Connected(tok) => {
                e.handle = Some(HandleRef { protocol: ProtocolKind::Ssh, token: *tok });
                Ok(())
            },
            ConnectOutcome::Cancelled => Err(ConnectError::Cancelled),
            ConnectOutcome::Failed(err) => Err(*err),
        };
        let ghost e2 = e;
        self.entries.insert(i, e);
        proof {
            assert(self.sq() =~= pre.sq().update(i as int, e2));
            Self::lemma_update(pre, *self, i as int, e2);
            assert forall|k: Seq<char>| k != id@ implies
                Self::key_unchanged(*old(self), *self, k) by {
                assert(Self::key_unchanged(*old(self), pre, k));
                assert(Self::key_unchanged(pre, *self, k));
            }
        }
        result
    }

    /// The token of the installed SSH handle for the identifier, if any.
    pub fn get_connection(&self, id: &str) -> (r: Option<u64>)
        requires
            self.wf(),
        ensures
            r == (match self.handle_of(id@) {
                Option::Some(h) => if h.protocol == ProtocolKind::Ssh {
                    Option::Some(h.token)
                } else {
                    Option::None
                },
                Option::None => Option::None,
            }),
    {
        let found = self.find_idx(id);
        match found {
            Some(i) => {
                match &self.entries[i].handle {
                    Some(h) => {
                        if matches!(h.protocol, ProtocolKind::Ssh) {
                            Some(h.token)
                        } else {
                            None
                        }
                    },
                    None => None,
                }
            },
            None => None,
        }
    }

    /// The protocol of the installed handle, used to route generic file
    /// operations without the caller holding a typed handle.
    pub fn get_connection_type(&self, id: &str) -> (r: Option<ProtocolKind>)
        requires
            self.wf(),
        ensures
            r == (match self.handle_of(id@) {
                Option::Some(h) => Option::Some(h.protocol),
                Option::None => Option::None,
            }),
    {
        let found = self.find_idx(id);
        match found {
            Some(i) => {
                match &self.entries[i].handle {
                    Some(h) => Some(h.protocol),
                    None => None,
                }
            },
            None => None,
        }
    }

    /// Removes the identifier's transport handle and pseudo-terminal
    /// session, returning the tokens the runtime must now disconnect
    /// and tear down. Idempotent: closing an absent connection returns
    /// empty tokens and changes nothing.
    pub fn close_connection(&mut self, id: &str) -> (r: ClosedConnection)
        requires
            old(self).wf(),
        ensures
            final(self).wf(),
            final(self).handle_of(id@) is None,
            final(self).pty_of(id@) is None,
            final(self).is_pending(id@) == old(self).is_pending(id@),
            final(self).gen_of(id@) == old(self).gen_of(id@),
            Self::unchanged_except(*old(self), *final(self), id@),
            r.handle == (match old(self).handle_of(id@) {
                Option::Some(h) => Option::Some(h.token),
                Option::None => Option::None,
            }),
            r.pty_channel == (match old(self).pty_of(id@) {
                Option::Some(p) => Option::Some(p.channel),
                Option::None => Option::None,
            }),
    {
        let found = self.find_idx(id);
        match found {
            Some(i) => {
                let ghost pre = *self;
                let mut e = self.entries.remove(i);
                let handle = match &e.handle {
                    Some(h) => Some(h.token),
                    None => None,
                };
                let pty_channel = match &e.pty {
                    Some(p) => Some(p.channel),
                    None => None,
                };
                e.handle = None;
                e.pty = None;
                let ghost e2 = e;
                self.entries.insert(i, e);
                proof {
                    assert(self.sq() =~= pre.sq().update(i as int, e2));
                    Self::lemma_update(pre, *self, i as int, e2);
                }
                ClosedConnection { handle, pty_channel }
            },
            None => ClosedConnection { handle: None, pty_channel: None },
        }
    }

    /// The identifiers of all connections that currently hold an SSH
    /// transport handle, each exactly once.
    #[verifier::rlimit(50)]
    pub fn list_connections(&self) -> (r: Vec<String>)
        requires
            self.wf(),
        ensures
            forall|i: int| 0 <= i < r@.len() ==> self.is_ssh((#[trigger] r@[i])@),
            forall|k: Seq<char>| #[trigger] self.is_ssh(k) ==> exists|i: int| 0 <= i < r@.len() && r@[i]@ == k,
            forall|i: int, j: int| 0 <= i < j < r@.len() ==> r@[i]@ != r@[j]@,
    {
        let n = self.entries.len();
        let mut r: Vec<String> = Vec::new();
        let mut i: usize = 0;
        while i < n
            invariant
                self.wf(),
                n == self.sq().len(),
                i <= n,
                forall|a: int| 0 <= a < r@.len() ==> self.is_ssh((#[trigger] r@[a])@),
                forall|j: int| 0 <= j < i && self.is_ssh((#[trigger] self.sq()[j]).id@) ==>
                    exists|a: int| 0 <= a < r@.len() && r@[a]@ == self.sq()[j].id@,
                forall|a: int, b: int| 0 <= a < b < r@.len() ==> r@[a]@ != r@[b]@,
                forall|a: int| 0 <= a < r@.len() ==>
                    exists|j: int| 0 <= j < i && (#[trigger] r@[a])@ == self.sq()[j].id@,
            decreases n - i,
        {
            proof {
                self.lemma_idx_at(i as int);
            }
            let is_ssh_entry = match &self.entries[i].handle {
                Some(h) => matches!(h.protocol, ProtocolKind::Ssh),
                None => false,
            };
            if is_ssh_entry {
                let ghost rpre = r@;
                r.push(self.entries[i].id.clone());
                proof {
                    assert(r@[r@.len() - 1]@ == self.sq()[i as int].id@);
                    assert forall|a: int, b: int| 0 <= a < b < r@.len() implies r@[a]@ != r@[b]@ by {
                        if b == r@.len() - 1 {
                            assert(rpre[a] == r@[a]);
                            let j = choose|j: int| 0 <= j < i && rpre[a]@ == self.sq()[j].id@;
                            assert(self.sq()[j].id@ != self.sq()[i as int].id@);
                        }
                    }
                    assert forall|j: int| 0 <= j < i + 1 && self.is_ssh((#[trigger] self.sq()[j]).id@) implies
                        exists|a: int| 0 <= a < r@.len() && r@[a]@ == self.sq()[j].id@ by {
                        if j < i {
                            let a = choose|a: int| 0 <= a < rpre.len() && rpre[a]@ == self.sq()[j].id@;
                            assert(rpre[a] == r@[a]);
                            assert(r@[a]@ == self.sq()[j].id@);
                        } else {
                            assert(r@[r@.len() - 1]@ == self.sq()[j].id@);
                        }
                    }
                    assert forall|a: int| 0 <= a < r@.len() implies
                        exists|j: int| 0 <= j < i + 1 && (#[trigger] r@[a])@ == self.sq()[j].id@ by {
                        if a < r@.len() - 1 {
                            assert(rpre[a] == r@[a]);
                            let j = choose|j: int| 0 <= j < i && rpre[a]@ == self.sq()[j].id@;
                            assert(0 <= j < i + 1 && r@[a]@ == self.sq()[j].id@);
                        } else {
                            assert(r@[a]@ == self.sq()[i as int].id@);
                        }
                    }
                }
            } else {
                proof {
                    assert(!self.is_ssh(self.sq()[i as int].id@));
                }
            }
            i += 1;
        }
        proof {
            assert forall|k: Seq<char>| #[trigger] self.is_ssh(k) implies
                exists|a: int| 0 <= a < r@.len() && r@[a]@ == k by {
                let j = self.idx(k);
                assert(self.sq()[j].id@ == k);
                assert(self.is_ssh(self.sq()[j].id@));
            }
        }
        r
    }

    /// Frame condition of the pseudo-terminal operations: everything but
    /// the session under `id` is untouched.
    pub open spec fn same_but_pty(pre: ConnectionManager, post: ConnectionManager, id: Seq<char>) -> bool {
        &&& post.is_pending(id) == pre.is_pending(id)
        &&& post.handle_of(id) == pre.handle_of(id)
        &&& post.gen_of(id) == pre.gen_of(id)
        &&& Self::unchanged_except(pre, post, id)
    }

    /// Installs a standalone SFTP transport handle under the identifier,
    /// replacing any previous handle (last writer wins).
    pub fn create_sftp_connection(&mut self, id: &str, token: u64)
        requires
            old(self).wf(),
        ensures
            final(self).wf(),
            final(self).handle_of(id@) == Option::Some(HandleRef { protocol: ProtocolKind::Sftp, token }),
            final(self).is_pending(id@) == old(self).is_pending(id@),
            final(self).pty_of(id@) == old(self).pty_of(id@),
            final(self).gen_of(id@) == old(self).gen_of(id@),
            Self::unchanged_except(*old(self), *final(self), id@),
    {
        self.install_handle(id, ProtocolKind::Sftp, token);
    }

    /// Installs an FTP/FTPS transport handle under the identifier,
    /// replacing any previous handle (last writer wins). Whether the
    /// stream is TLS-secured is the runtime's concern; the registry
    /// dispatches on the protocol kind alone.
    pub fn create_ftp_connection(&mut self, id: &str, token: u64)
        requires
            old(self).wf(),
        ensures
            final(self).wf(),
            final(self).handle_of(id@) == Option::Some(HandleRef { protocol: ProtocolKind::Ftp, token }),
            final(self).is_pending(id@) == old(self).is_pending(id@),
            final(self).pty_of(id@) == old(self).pty_of(id@),
            final(self).gen_of(id@) == old(self).gen_of(id@),
            Self::unchanged_except(*old(self), *final(self), id@),
    {
        self.install_handle(id, ProtocolKind::Ftp, token);
    }

    fn install_handle(&mut self, id: &str, protocol: ProtocolKind, token: u64)
        requires
            old(self).wf(),
        ensures
            final(self).wf(),
            final(self).handle_of(id@) == Option::Some(HandleRef { protocol, token }),
            final(self).is_pending(id@) == old(self).is_pending(id@),
            final(self).pty_of(id@) == old(self).pty_of(id@),
            final(self).gen_of(id@) == old(self).gen_of(id@),
            Self::unchanged_except(*old(self), *final(self), id@),
    {
        let found = self.find_idx(id);
        match found {
            Some(i) => {
                let ghost pre = *self;
                let mut e = self.entries.remove(i);
                e.handle = Some(HandleRef { protocol, token });
                let ghost e2 = e;
                self.entries.insert(i, e);
                proof {
                    assert(self.sq() =~= pre.sq().update(i as int, e2));
                    Self::lemma_update(pre, *self, i as int, e2);
                }
            },
            None => {
                let ghost pre = *self;
                let e = ConnEntry {
                    id: id.to_owned(),
                    pending: false,
                    handle: Some(HandleRef { protocol, token }),
                    pty: None,
                    generation: 0,
                };
                let ghost e2 = e;
                self.entries.push(e);
                proof {
                    assert(self.sq() =~= pre.sq().push(e2));
                    Self::lemma_push(pre, *self, e2);
                }
            },
        }
    }

    /// The token of the installed SFTP handle for the identifier, if any.
    pub fn get_sftp_connection(&self, id: &str) -> (r: Option<u64>)
        requires
            self.wf(),
        ensures
            r == (match self.handle_of(id@) {
                Option::Some(h) => if h.protocol == ProtocolKind::Sftp {
                    Option::Some(h.token)
                } else {
                    Option::None
                },
                Option::None => Option::None,
            }),
    {
        self.get_handle(id, ProtocolKind::Sftp)
    }

    /// The token of the installed FTP handle for the identifier, if any.
    pub fn get_ftp_connection(&self, id: &str) -> (r: Option<u64>)
        requires
            self.wf(),
        ensures
            r == (match self.handle_of(id@) {
                Option::Some(h) => if h.protocol == ProtocolKind::Ftp {
                    Option::Some(h.token)
                } else {
                    Option::None
                },
                Option::None => Option::None,
            }),
    {
        self.get_handle(id, ProtocolKind::Ftp)
    }

    fn get_handle(&self, id: &str, protocol: ProtocolKind) -> (r: Option<u64>)
        requires
            self.wf(),
        ensures
            r == (match self.handle_of(id@) {
                Option::Some(h) => if h.protocol == protocol {
                    Option::Some(h.token)
                } else {
                    Option::None
                },
                Option::None => Option::None,
            }),
    {
        let found = self.find_idx(id);
        match found {
            Some(i) => {
                match &self.entries[i].handle {
                    Some(h) => {
                        if h.protocol == protocol {
                            Some(h.token)
                        } else {
                            None
                        }
                    },
                    None => None,
                }
            },
            None => None,
        }
    }

    /// Removes the identifier's SFTP handle, if one is installed, and
    /// returns its token for the runtime to disconnect. Idempotent.
    pub fn close_sftp_connection(&mut self, id: &str) -> (r: Option<u64>)
        requires
            old(self).wf(),
        ensures
            final(self).wf(),
            Self::unchanged_except(*old(self), *final(self), id@),
            final(self).is_pending(id@) == old(self).is_pending(id@),
            final(self).pty_of(id@) == old(self).pty_of(id@),
            final(self).gen_of(id@) == old(self).gen_of(id@),
            match old(self).handle_of(id@) {
                Option::Some(h) => if h.protocol == ProtocolKind::Sftp {
                    r == Option::Some(h.token) && final(self).handle_of(id@) is None
                } else {
                    r is None && final(self).handle_of(id@) == old(self).handle_of(id@)
                },
                Option::None => r is None && final(self).handle_of(id@) is None,
            },
    {
        self.close_handle(id, ProtocolKind::Sftp)
    }

    /// Removes the identifier's FTP handle, if one is installed, and
    /// returns its token for the runtime to disconnect. Idempotent.
    pub fn close_ftp_connection(&mut self, id: &str) -> (r: Option<u64>)
        requires
            old(self).wf(),
        ensures
            final(self).wf(),
            Self::unchanged_except(*old(self), *final(self), id@),
            final(self).is_pending(id@) == old(self).is_pending(id@),
            final(self).pty_of(id@) == old(self).pty_of(id@),
            final(self).gen_of(id@) == old(self).gen_of(id@),
            match old(self).handle_of(id@) {
                Option::Some(h) => if h.protocol == ProtocolKind::Ftp {
                    r == Option::Some(h.token) && final(self).handle_of(id@) is None
                } else {
                    r is None && final(self).handle_of(id@) == old(self).handle_of(id@)
                },
                Option::None => r is None && final(self).handle_of(id@) is None,
            },
    {
        self.close_handle(id, ProtocolKind::Ftp)
    }

    fn close_handle(&mut self, id: &str, protocol: ProtocolKind) -> (r: Option<u64>)
        requires
            old(self).wf(),
        ensures
            final(self).wf(),
            Self::unchanged_except(*old(self), *final(self), id@),
            final(self).is_pending(id@) == old(self).is_pending(id@),
            final(self).pty_of(id@) == old(self).pty_of(id@),
            final(self).gen_of(id@) == old(self).gen_of(id@),
            match old(self).handle_of(id@) {
                Option::Some(h) => if h.protocol == protocol {
                    r == Option::Some(h.token) && final(self).handle_of(id@) is None
                } else {
                    r is None && final(self).handle_of(id@) == old(self).handle_of(id@)
                },
                Option::None => r is None && final(self).handle_of(id@) is None,
            },
    {
        let found = self.find_idx(id);
        match found {
            Some(i) => {
                let matches_protocol = match &self.entries[i].handle {
                    Some(h) => h.protocol == protocol,
                    None => false,
                };
                if !matches_protocol {
                    return None;
                }
                let ghost pre = *self;
                let mut e = self.entries.remove(i);
                let token = match &e.handle {
                    Some(h) => Some(h.token),
                    None => None,
                };
                e.handle = None;
                let ghost e2 = e;
                self.entries.insert(i, e);
                proof {
                    assert(self.sq() =~= pre.sq().update(i as int, e2));
                    Self::lemma_update(pre, *self, i as int, e2);
                }
                token
            },
            None => None,
        }
    }

    /// The last generation stamp issued for the identifier; zero before
    /// any session existed.
    pub fn pty_generation(&self, id: &str) -> (r: u64)
        requires
            self.wf(),
        ensures
            r == self.gen_of(id@),
    {
        let found = self.find_idx(id);
        match found {
            Some(i) => self.entries[i].generation,
            None => 0,
        }
    }

    /// Starts (or restarts) the interactive shell session of an SSH
    /// connection. Any older session is removed first and its channel
    /// token reported back for teardown; the new session carries a
    /// strictly larger generation stamp, starting from one.
    pub fn start_pty_connection(&mut self, id: &str, cols: u32, rows: u32, channel: u64)
        -> (r: Result<PtyStarted, PtyError>)
        requires
            old(self).wf(),
            old(self).gen_of(id@) < u64::MAX,
        ensures
            final(self).wf(),
            Self::unchanged_except(*old(self), *final(self), id@),
            final(self).is_pending(id@) == old(self).is_pending(id@),
            final(self).handle_of(id@) == old(self).handle_of(id@),
            !old(self).is_ssh(id@) ==> {
                &&& r == Result::<PtyStarted, PtyError>::Err(PtyError::NotFound)
                &&& final(self).pty_of(id@) == old(self).pty_of(id@)
                &&& final(self).gen_of(id@) == old(self).gen_of(id@)
            },
            old(self).is_ssh(id@) ==> {
                &&& final(self).gen_of(id@) == old(self).gen_of(id@) + 1
                &&& r == Result::<PtyStarted, PtyError>::Ok(PtyStarted {
                    generation: (old(self).gen_of(id@) + 1) as u64,
                    replaced_channel: match old(self).pty_of(id@) {
                        Option::Some(p) => Option::Some(p.channel),
                        Option::None => Option::None,
                    },
                })
                &&& final(self).pty_of(id@) == Option::Some(PtyView {
                    generation: (old(self).gen_of(id@) + 1) as u64,
                    cols,
                    rows,
                    channel,
                    input: QueueView::empty(),
                    output: QueueView::empty(),
                    resize: Seq::<(u32, u32)>::empty(),
                    paused: false,
                })
            },
    {
        let found = self.find_idx(id);
        let i = match found {
            Some(i) => i,
            None => {
                return Err(PtyError::NotFound);
            },
        };
        let is_ssh_handle = match &self.entries[i].handle {
            Some(h) => h.protocol == ProtocolKind::Ssh,
            None => false,
        };
        if !is_ssh_handle {
            return Err(PtyError::NotFound);
        }
        let ghost pre = *self;
        let mut e = self.entries.remove(i);
        // Cancel and drop any existing session first, so that the old
        // channel is torn down before the new one becomes authoritative.
        let replaced_channel = match &e.pty {
            Some(p) => Some(p.channel),
            None => None,
        };
        let generation = e.generation + 1;
        e.generation = generation;
        e.pty = Some(PtySession::new(generation, cols, rows, channel));
        let ghost e2 = e;
        self.entries.insert(i, e);
        proof {
            assert(self.sq() =~= pre.sq().update(i as int, e2));
            Self::lemma_update(pre, *self, i as int, e2);
        }
        Ok(PtyStarted { generation, replaced_channel })
    }

    /// Hands keystrokes to the session's bounded input queue. The
    /// enqueue never blocks and never drops: when the queue is full the
    /// caller gets [`PtyError::Backpressure`], must wait, and must retry
    /// the same bytes, so that input is delivered completely and in
    /// order at the cost of latency under backpressure.
    pub fn write_to_pty(&mut self, id: &str, data: Vec<u8>) -> (r: Result<(), PtyError>)
        requires
            old(self).wf(),
        ensures
            final(self).wf(),
            Self::same_but_pty(*old(self), *final(self), id@),
            match old(self).pty_of(id@) {
                Option::None => {
                    &&& r == Result::<(), PtyError>::Err(PtyError::NotFound)
                    &&& final(self).pty_of(id@) == old(self).pty_of(id@)
                },
                Option::Some(p) => {
                    if p.input.chunks.len() < crate::queue::QUEUE_CAPACITY {
                        &&& r is Ok
                        &&& final(self).pty_of(id@) == Option::Some(p.with_input(p.input.enq(data@)))
                    } else {
                        &&& r == Result::<(), PtyError>::Err(PtyError::Backpressure)
                        &&& final(self).pty_of(id@) == old(self).pty_of(id@)
                    }
                },
            },
    {
        let found = self.find_idx(id);
        let i = match found {
            Some(i) => i,
            None => {
                return Err(PtyError::NotFound);
            },
        };
        let ghost pre = *self;
        let mut e = self.entries.remove(i);
        match e.pty {
            Some(mut p) => {
                let accepted = p.input.try_enqueue(data);
                e.pty = Some(p);
                let ghost e2 = e;
                self.entries.insert(i, e);
                proof {
                    assert(self.sq() =~= pre.sq().update(i as int, e2));
                    Self::lemma_update(pre, *self, i as int, e2);
                }
                if accepted {
                    Ok(())
                } else {
                    Err(PtyError::Backpressure)
                }
            },
            None => {
                e.pty = None;
                let ghost e2 = e;
                self.entries.insert(i, e);
                proof {
                    assert(self.sq() =~= pre.sq().update(i as int, e2));
                    Self::lemma_update(pre, *self, i as int, e2);
                }
                Err(PtyError::NotFound)
            },
        }
    }

    /// Takes the oldest queued terminal output for display. An empty
    /// result means nothing is queued right now (or output is paused);
    /// the caller polls again after a short wait. An unknown session is
    /// an error.
    pub fn read_from_pty(&mut self, id: &str) -> (r: Result<Vec<u8>, PtyError>)
        requires
            old(self).wf(),
        ensures
            final(self).wf(),
            Self::same_but_pty(*old(self), *final(self), id@),
            match old(self).pty_of(id@) {
                Option::None => {
                    &&& r == Result::<Vec<u8>, PtyError>::Err(PtyError::NotFound)
                    &&& final(self).pty_of(id@) == old(self).pty_of(id@)
                },
                Option::Some(p) => {
                    if p.paused || p.output.chunks.len() == 0 {
                        &&& r matches Result::Ok(c) && c@ == Seq::<u8>::empty()
                        &&& final(self).pty_of(id@) == old(self).pty_of(id@)
                    } else {
                        &&& r matches Result::Ok(c) && c@ == p.output.chunks[0]
                        &&& final(self).pty_of(id@) == Option::Some(p.with_output(p.output.deq()))
                    }
                },
            },
    {
        let found = self.find_idx(id);
        let i = match found {
            Some(i) => i,
            None => {
                return Err(PtyError::NotFound);
            },
        };
        let ghost pre = *self;
        let mut e = self.entries.remove(i);
        match e.pty {
            Some(mut p) => {
                let out = if p.paused {
                    Vec::new()
                } else {
                    match p.output.dequeue() {
                        Some(c) => c,
                        None => Vec::new(),
                    }
                };
                e.pty = Some(p);
                let ghost e2 = e;
                self.entries.insert(i, e);
                proof {
                    assert(self.sq() =~= pre.sq().update(i as int, e2));
                    Self::lemma_update(pre, *self, i as int, e2);
                }
                Ok(out)
            },
            None => {
                e.pty = None;
                let ghost e2 = e;
                self.entries.insert(i, e);
                proof {
                    assert(self.sq() =~= pre.sq().update(i as int, e2));
                    Self::lemma_update(pre, *self, i as int, e2);
                }
                Err(PtyError::NotFound)
            },
        }
    }

    /// Appends terminal output arriving from the remote channel to the
    /// session's bounded output queue. Rejection means the reader has
    /// fallen behind; the producer waits and retries the same chunk.
    pub fn push_pty_output(&mut self, id: &str, data: Vec<u8>) -> (r: Result<(), PtyError>)
        requires
            old(self).wf(),
        ensures
            final(self).wf(),
            Self::same_but_pty(*old(self), *final(self), id@),
            match old(self).pty_of(id@) {
                Option::None => {
                    &&& r == Result::<(), PtyError>::Err(PtyError::NotFound)
                    &&& final(self).pty_of(id@) == old(self).pty_of(id@)
                },
                Option::Some(p) => {
                    if p.output.chunks.len() < crate::queue::QUEUE_CAPACITY {
                        &&& r is Ok
                        &&& final(self).pty_of(id@) == Option::Some(p.with_output(p.output.enq(data@)))
                    } else {
                        &&& r == Result::<(), PtyError>::Err(PtyError::Backpressure)
                        &&& final(self).pty_of(id@) == old(self).pty_of(id@)
                    }
                },
            },
    {
        let found = self.find_idx(id);
        let i = match found {
            Some(i) => i,
            None => {
                return Err(PtyError::NotFound);
            },
        };
        let ghost pre = *self;
        let mut e = self.entries.remove(i);
        match e.pty {
            Some(mut p) => {
                let accepted = p.output.try_enqueue(data);
                e.pty = Some(p);
                let ghost e2 = e;
                self.entries.insert(i, e);
                proof {
                    assert(self.sq() =~= pre.sq().update(i as int, e2));
                    Self::lemma_update(pre, *self, i as int, e2);
                }
                if accepted {
                    Ok(())
                } else {
                    Err(PtyError::Backpressure)
                }
            },
            None => {
                e.pty = None;
                let ghost e2 = e;
                self.entries.insert(i, e);
                proof {
                    assert(self.sq() =~= pre.sq().update(i as int, e2));
                    Self::lemma_update(pre, *self, i as int, e2);
                }
                Err(PtyError::NotFound)
            },
        }
    }

    /// Takes the oldest queued keystroke chunk for delivery to the
    /// remote channel writer; `None` when no session exists or nothing
    /// is queued.
    pub fn take_pty_input(&mut self, id: &str) -> (r: Option<Vec<u8>>)
        requires
            old(self).wf(),
        ensures
            final(self).wf(),
            Self::same_but_pty(*old(self), *final(self), id@),
            match old(self).pty_of(id@) {
                Option::None => r is None && final(self).pty_of(id@) == old(self).pty_of(id@),
                Option::Some(p) => {
                    if p.input.chunks.len() == 0 {
                        &&& r is None
                        &&& final(self).pty_of(id@) == old(self).pty_of(id@)
                    } else {
                        &&& r matches Option::Some(c) && c@ == p.input.chunks[0]
                        &&& final(self).pty_of(id@) == Option::Some(p.with_input(p.input.deq()))
                    }
                },
            },
    {
        let found = self.find_idx(id);
        let i = match found {
            Some(i) => i,
            None => {
                return None;
            },
        };
        let ghost pre = *self;
        let mut e = self.entries.remove(i);
        match e.pty {
            Some(mut p) => {
                let out = p.input.dequeue();
                e.pty = Some(p);
                let ghost e2 = e;
                self.entries.insert(i, e);
                proof {
                    assert(self.sq() =~= pre.sq().update(i as int, e2));
                    Self::lemma_update(pre, *self, i as int, e2);
                }
                out
            },
            None => {
                e.pty = None;
                let ghost e2 = e;
                self.entries.insert(i, e);
                proof {
                    assert(self.sq() =~= pre.sq().update(i as int, e2));
                    Self::lemma_update(pre, *self, i as int, e2);
                }
                None
            },
        }
    }

    /// Queues a terminal resize for the session; the channel writer
    /// forwards it to the remote side in order with the input stream.
    pub fn resize_pty(&mut self, id: &str, cols: u32, rows: u32) -> (r: Result<(), PtyError>)
        requires
            old(self).wf(),
        ensures
            final(self).wf(),
            Self::same_but_pty(*old(self), *final(self), id@),
            match old(self).pty_of(id@) {
                Option::None => {
                    &&& r == Result::<(), PtyError>::Err(PtyError::NotFound)
                    &&& final(self).pty_of(id@) == old(self).pty_of(id@)
                },
                Option::Some(p) => {
                    &&& r is Ok
                    &&& final(self).pty_of(id@) == Option::Some(PtyView {
                        resize: p.resize.push((cols, rows)),
                        ..p
                    })
                },
            },
    {
        let found = self.find_idx(id);
        let i = match found {
            Some(i) => i,
            None => {
                return Err(PtyError::NotFound);
            },
        };
        let ghost pre = *self;
        let mut e = self.entries.remove(i);
        match e.pty {
            Some(mut p) => {
                p.resize_events.push((cols, rows));
                e.pty = Some(p);
                let ghost e2 = e;
                self.entries.insert(i, e);
                proof {
                    assert(self.sq() =~= pre.sq().update(i as int, e2));
                    Self::lemma_update(pre, *self, i as int, e2);
                }
                Ok(())
            },
            None => {
                e.pty = None;
                let ghost e2 = e;
                self.entries.insert(i, e);
                proof {
                    assert(self.sq() =~= pre.sq().update(i as int, e2));
                    Self::lemma_update(pre, *self, i as int, e2);
                }
                Err(PtyError::NotFound)
            },
        }
    }

    /// Takes the oldest pending resize event; `None` when no session
    /// exists or none is pending.
    pub fn take_pty_resize(&mut self, id: &str) -> (r: Option<(u32, u32)>)
        requires
            old(self).wf(),
        ensures
            final(self).wf(),
            Self::same_but_pty(*old(self), *final(self), id@),
            match old(self).pty_of(id@) {
                Option::None => r is None && final(self).pty_of(id@) == old(self).pty_of(id@),
                Option::Some(p) => {
                    if p.resize.len() == 0 {
                        &&& r is None
                        &&& final(self).pty_of(id@) == old(self).pty_of(id@)
                    } else {
                        &&& r == Option::Some(p.resize[0])
                        &&& final(self).pty_of(id@) == Option::Some(PtyView {
                            resize: p.resize.drop_first(),
                            ..p
                        })
                    }
                },
            },
    {
        let found = self.find_idx(id);
        let i = match found {
            Some(i) => i,
            None => {
                return None;
            },
        };
        let ghost pre = *self;
        let mut e = self.entries.remove(i);
        match e.pty {
            Some(mut p) => {
                let out = if p.resize_events.len() == 0 {
                    None
                } else {
                    let ev = p.resize_events.remove(0);
                    proof {
                        assert(p.resize_events@ =~= pre.pty_of(id@)->Some_0.resize.drop_first());
                    }
                    Some(ev)
                };
                e.pty = Some(p);
                let ghost e2 = e;
                self.entries.insert(i, e);
                proof {
                    assert(self.sq() =~= pre.sq().update(i as int, e2));
                    Self::lemma_update(pre, *self, i as int, e2);
                }
                out
            },
            None => {
                e.pty = None;
                let ghost e2 = e;
                self.entries.insert(i, e);
                proof {
                    assert(self.sq() =~= pre.sq().update(i as int, e2));
                    Self::lemma_update(pre, *self, i as int, e2);
                }
                None
            },
        }
    }

    /// Pauses or resumes output delivery for the session (flow
    /// control). While paused, [`ConnectionManager::read_from_pty`]
    /// yields nothing and the queued output stays put.
    pub fn pause_pty(&mut self, id: &str, paused: bool) -> (r: Result<(), PtyError>)
        requires
            old(self).wf(),
        ensures
            final(self).wf(),
            Self::same_but_pty(*old(self), *final(self), id@),
            match old(self).pty_of(id@) {
                Option::None => {
                    &&& r == Result::<(), PtyError>::Err(PtyError::NotFound)
                    &&& final(self).pty_of(id@) == old(self).pty_of(id@)
                },
                Option::Some(p) => {
                    &&& r is Ok
                    &&& final(self).pty_of(id@) == Option::Some(PtyView { paused, ..p })
                },
            },
    {
        let found = self.find_idx(id);
        let i = match found {
            Some(i) => i,
            None => {
                return Err(PtyError::NotFound);
            },
        };
        let ghost pre = *self;
        let mut e = self.entries.remove(i);
        match e.pty {
            Some(mut p) => {
                p.paused = paused;
                e.pty = Some(p);
                let ghost e2 = e;
                self.entries.insert(i, e);
                proof {
                    assert(self.sq() =~= pre.sq().update(i as int, e2));
                    Self::lemma_update(pre, *self, i as int, e2);
                }
                Ok(())
            },
            None => {
                e.pty = None;
                let ghost e2 = e;
                self.entries.insert(i, e);
                proof {
                    assert(self.sq() =~= pre.sq().update(i as int, e2));
                    Self::lemma_update(pre, *self, i as int, e2);
                }
                Err(PtyError::NotFound)
            },
        }
    }

    /// Closes the session, unless the caller's generation stamp shows
    /// its close request is stale. A stale close (a stamp other than the
    /// current generation) is a silent no-op: it removes nothing and is
    /// not an error, so a delayed close from a torn-down view cannot
    /// kill a session that already replaced the one it meant. On a
    /// honoured close the removed session's channel token is returned
    /// for teardown.
    pub fn close_pty_connection(&mut self, id: &str, expected_gen: Option<u64>) -> (r: Option<u64>)
        requires
            old(self).wf(),
        ensures
            final(self).wf(),
            Self::same_but_pty(*old(self), *final(self), id@),
            (match expected_gen {
                Option::Some(g) => g != old(self).gen_of(id@),
                Option::None => false,
            }) ==> {
                &&& r is None
                &&& final(self).pty_of(id@) == old(self).pty_of(id@)
            },
            (match expected_gen {
                Option::Some(g) => g == old(self).gen_of(id@),
                Option::None => true,
            }) ==> {
                &&& final(self).pty_of(id@) is None
                &&& r == (match old(self).pty_of(id@) {
                    Option::Some(p) => Option::Some(p.channel),
                    Option::None => Option::None,
                })
            },
    {
        let found = self.find_idx(id);
        let i = match found {
            Some(i) => i,
            None => {
                // No entry was ever created: the current generation is
                // zero, so only a stale stamp can disagree.
                return None;
            },
        };
        if let Some(g) = expected_gen {
            if g != self.entries[i].generation {
                return None;
            }
        }
        let ghost pre = *self;
        let mut e = self.entries.remove(i);
        let channel = match &e.pty {
            Some(p) => Some(p.channel),
            None => None,
        };
        e.pty = None;
        let ghost e2 = e;
        self.entries.insert(i, e);
        proof {
            assert(self.sq() =~= pre.sq().update(i as int, e2));
            Self::lemma_update(pre, *self, i as int, e2);
        }
        channel
    }

    /// Law: a closed connection stays out of the connection list. After
    /// [`ConnectionManager::close_connection`] removes an identifier's
    /// handle, the identifier is listed again only once a later connect
    /// for that identifier succeeds: every operation that leaves its
    /// handle alone, removes it, or installs a non-SSH handle keeps it
    /// unlisted — and by the contract of
    /// [`ConnectionManager::list_connections`], an identifier is listed
    /// exactly when it holds an SSH handle.
    pub proof fn lemma_closed_connection_stays_unlisted(
        pre: ConnectionManager,
        post: ConnectionManager,
        id: Seq<char>,
    )
        requires
            !pre.is_ssh(id),
            post.handle_of(id) == pre.handle_of(id)
                || post.handle_of(id) is None
                || (match post.handle_of(id) {
                    Option::Some(h) => h.protocol != ProtocolKind::Ssh,
                    Option::None => true,
                }),
        ensures
            !post.is_ssh(id),
    {
    }

    /// Law: a superseded generation stamp stays stale forever. Every
    /// operation either leaves an identifier's stamp alone or advances
    /// it by one (only [`ConnectionManager::start_pty_connection`]
    /// advances it), so a stamp that once fell behind never names the
    /// current session again — which is why a delayed close carrying it
    /// is safely ignored.
    pub proof fn lemma_stale_stamp_stays_stale(
        pre: ConnectionManager,
        post: ConnectionManager,
        id: Seq<char>,
        g: u64,
    )
        requires
            g < pre.gen_of(id),
            post.gen_of(id) == pre.gen_of(id) || post.gen_of(id) == pre.gen_of(id) + 1,
        ensures
            g < post.gen_of(id),
    {
    }

    /// The channel token under which the runtime keeps the session's
    /// cancellation signal, if a session exists.
    pub fn get_pty_cancel_token(&self, id: &str) -> (r: Option<u64>)
        requires
            self.wf(),
        ensures
            r == (match self.pty_of(id@) {
                Option::Some(p) => Option::Some(p.channel),
                Option::None => Option::None,
            }),
    {
        let found = self.find_idx(id);
        match found {
            Some(i) => {
                match &self.entries[i].pty {
                    Some(p) => Some(p.channel),
                    None => None,
                }
            },
            None => None,
        }
    }
}

} // verus!

