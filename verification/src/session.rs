//! Per-session bookkeeping: the lifecycle of one LSP child process and
//! the set of documents already opened on it.
//!
//! The process work itself (spawning, writing, awaiting) happens
//! outside; these types decide what may be sent when, and their
//! contracts pin the handshake and open-document disciplines.

use vstd::prelude::*;
use vstd::string::StringExecFns;
use crate::strutil::str_eq;

verus! {

/// The client-side state of one LSP child.
#[derive(Debug, Clone, Copy, PartialEq, Eq, Structural)]
pub enum LspState {
    /// Spawned; nothing sent yet.
    Starting,
    /// `initialize` sent, its response still outstanding.
    Initializing,
    /// The `initialize` response arrived; `initialized` not yet sent.
    ResponseReceived,
    /// Handshake complete: requests may be sent.
    Ready,
    /// Transport or process failure; all pending replies were failed.
    Failed,
    /// Shut down.
    Closed,
}

/// The handshake discipline of one LSP child: `initialize` exactly once,
/// `initialized` only after the `initialize` response, requests only
/// once ready.
pub struct LspLifecycle {
    state: LspState,
    inits_g: Ghost<int>,
    initeds_g: Ghost<int>,
}

impl LspLifecycle {
    pub closed spec fn state_spec(&self) -> LspState {
        self.state
    }

    /// How many `initialize` requests have been sent to this child.
    pub closed spec fn inits_sent(&self) -> int {
        self.inits_g@
    }

    /// How many `initialized` notifications have been sent.
    pub closed spec fn initeds_sent(&self) -> int {
        self.initeds_g@
    }

    pub closed spec fn wf(&self) -> bool {
        &&& 0 <= self.initeds_sent() <= self.inits_sent() <= 1
        &&& (self.state is Starting ==> self.inits_sent() == 0)
        &&& (self.state is Initializing ==> self.inits_sent() == 1 && self.initeds_sent() == 0)
        &&& (self.state is ResponseReceived ==> self.inits_sent() == 1 && self.initeds_sent()
            == 0)
        &&& (self.state is Ready ==> self.inits_sent() == 1 && self.initeds_sent() == 1)
    }

    pub fn new() -> (l: LspLifecycle)
        ensures
            l.wf(),
            l.state_spec() is Starting,
            l.inits_sent() == 0,
            l.initeds_sent() == 0,
    {
        LspLifecycle { state: LspState::Starting, inits_g: Ghost(0), initeds_g: Ghost(0) }
    }

    /// The caller sends `initialize` exactly when this succeeds; it can
    /// only ever succeed once.
    pub fn begin_initialize(&mut self)
        requires
            old(self).wf(),
            old(self).state_spec() is Starting,
        ensures
            final(self).wf(),
            final(self).state_spec() is Initializing,
            final(self).inits_sent() == old(self).inits_sent() + 1,
            final(self).initeds_sent() == old(self).initeds_sent(),
    {
        self.state = LspState::Initializing;
        proof {
            self.inits_g@ = self.inits_g@ + 1;
        }
    }

    /// Records the arrival of the `initialize` response.
    pub fn on_initialize_response(&mut self)
        requires
            old(self).wf(),
            old(self).state_spec() is Initializing,
        ensures
            final(self).wf(),
            final(self).state_spec() is ResponseReceived,
            final(self).inits_sent() == old(self).inits_sent(),
            final(self).initeds_sent() == old(self).initeds_sent(),
    {
        self.state = LspState::ResponseReceived;
    }

    /// The caller sends the `initialized` notification exactly when this
    /// succeeds: only after the `initialize` response arrived, and only
    /// once.
    pub fn send_initialized(&mut self)
        requires
            old(self).wf(),
            old(self).state_spec() is ResponseReceived,
        ensures
            final(self).wf(),
            final(self).state_spec() is Ready,
            final(self).inits_sent() == old(self).inits_sent(),
            final(self).initeds_sent() == old(self).initeds_sent() + 1,
    {
        self.state = LspState::Ready;
        proof {
            self.initeds_g@ = self.initeds_g@ + 1;
        }
    }

    pub fn mark_failed(&mut self)
        requires
            old(self).wf(),
        ensures
            final(self).wf(),
            final(self).state_spec() is Failed,
            final(self).inits_sent() == old(self).inits_sent(),
            final(self).initeds_sent() == old(self).initeds_sent(),
    {
        self.state = LspState::Failed;
    }

    pub fn mark_closed(&mut self)
        requires
            old(self).wf(),
        ensures
            final(self).wf(),
            final(self).state_spec() is Closed,
            final(self).inits_sent() == old(self).inits_sent(),
            final(self).initeds_sent() == old(self).initeds_sent(),
    {
        self.state = LspState::Closed;
    }

    /// `send_request` is valid only once the handshake finished.
    pub fn can_send_request(&self) -> (b: bool)
        ensures
            b == (self.state_spec() is Ready),
    {
        match self.state {
            LspState::Ready => true,
            _ => false,
        }
    }

    /// Exactly one `initialize` is ever sent per child, and an
    /// `initialized` notification is never sent unless the single
    /// `initialize` was sent first and its response consumed.
    pub proof fn lemma_handshake_discipline(&self)
        requires
            self.wf(),
        ensures
            self.inits_sent() <= 1,
            self.initeds_sent() <= 1,
            self.initeds_sent() == 1 ==> self.inits_sent() == 1,
            self.state_spec() is Ready ==> self.inits_sent() == 1 && self.initeds_sent() == 1,
    {
    }
}

/// The set of absolute paths already sent to a session via
/// `textDocument/didOpen`. Documents are tracked and never implicitly
/// closed, so the set only grows.
pub struct DocumentSet {
    open: Vec<String>,
}

impl DocumentSet {
    spec fn pseq(&self) -> Seq<Seq<char>> {
        self.open@.map_values(|p: String| p@)
    }

    pub closed spec fn view(&self) -> Set<Seq<char>> {
        Set::new(|p: Seq<char>| self.pseq().contains(p))
    }

    pub closed spec fn wf(&self) -> bool {
        forall|i: int, j: int| 0 <= i < j < self.pseq().len() ==> self.pseq()[i] != self.pseq()[j]
    }

    pub fn new() -> (d: DocumentSet)
        ensures
            d.wf(),
            d@ == Set::<Seq<char>>::empty(),
    {
        let d = DocumentSet { open: Vec::new() };
        proof {
            assert(d@ =~= Set::<Seq<char>>::empty());
        }
        d
    }

    pub fn contains(&self, path: &str) -> (r: bool)
        ensures
            r == self@.contains(path@),
    {
        let n: usize = self.open.len();
        let mut i: usize = 0;
        while i < n
            invariant
                i <= n,
                n == self.open@.len(),
                forall|j: int| 0 <= j < i ==> self.pseq()[j] != path@,
            decreases n - i,
        {
            if str_eq(self.open[i].as_str(), path) {
                assert(self.pseq()[i as int] == path@);
                assert(self.pseq().contains(path@));
                return true;
            }
            assert(self.pseq()[i as int] == self.open@[i as int]@);
            i += 1;
        }
        assert(forall|j: int| 0 <= j < self.pseq().len() ==> self.pseq()[j] != path@);
        assert(!self.pseq().contains(path@));
        false
    }

    /// Decides whether `didOpen` must be sent for `path` and records the
    /// document as open either way: the answer is `true` exactly when
    /// the path was not yet open, so a send is indicated at most once
    /// per path over the session's lifetime.
    pub fn record_open(&mut self, path: &str) -> (send: bool)
        requires
            old(self).wf(),
        ensures
            final(self).wf(),
            send == !old(self)@.contains(path@),
            final(self)@ == old(self)@.insert(path@),
    {
        if self.contains(path) {
            proof {
                assert(self@ =~= old(self)@.insert(path@));
            }
            return false;
        }
        let ghost oldseq = self.pseq();
        self.open.push(String::from_str(path));
        proof {
            assert(self.pseq() =~= oldseq.push(path@));
            assert(!oldseq.contains(path@));
            assert forall|i: int, j: int|
                0 <= i < j < self.pseq().len() implies self.pseq()[i] != self.pseq()[j] by {
                if j < oldseq.len() {
                } else {
                    assert(self.pseq()[j] == path@);
                    assert(oldseq[i] == self.pseq()[i]);
                    assert(oldseq.contains(oldseq[i]));
                }
            }
            assert forall|x: Seq<char>| self@.contains(x) implies old(self)@.insert(
                path@,
            ).contains(x) by {
                let w = choose|w: int| 0 <= w < self.pseq().len() && self.pseq()[w] == x;
                if w < oldseq.len() {
                    assert(oldseq[w] == x);
                    assert(oldseq.contains(x));
                }
            }
            assert forall|x: Seq<char>| old(self)@.insert(path@).contains(x)
                implies self@.contains(x) by {
                if x == path@ {
                    assert(self.pseq()[oldseq.len() as int] == path@);
                } else {
                    let w = choose|w: int| 0 <= w < oldseq.len() && oldseq[w] == x;
                    assert(self.pseq()[w] == x);
                }
            }
            assert(self@ =~= old(self)@.insert(path@));
        }
        true
    }

    /// Once a send was indicated for a path, no later state of the set
    /// — it only ever grows — indicates a send for that path again.
    pub proof fn lemma_did_open_once(after_send: Set<Seq<char>>, later: Set<Seq<char>>, p: Seq<
        char,
    >)
        requires
            after_send.contains(p),
            after_send.subset_of(later),
        ensures
            later.contains(p),
    {
    }
}

/// One session's bookkeeping: its key, its child's lifecycle state, and
/// the documents opened on it.
pub struct WorkspaceSession {
    pub root: String,
    pub language: String,
    pub state: LspState,
    pub open_documents: DocumentSet,
}

/// The entry has the given key.
pub open spec fn key_match(e: WorkspaceSession, r: Seq<char>, l: Seq<char>) -> bool {
    e.root@ == r && e.language@ == l
}

/// The first entry with the given key, if any.
pub open spec fn find_entry(
    s: Seq<WorkspaceSession>,
    r: Seq<char>,
    l: Seq<char>,
) -> Option<WorkspaceSession>
    decreases s.len(),
{
    if s.len() == 0 {
        None
    } else if key_match(s[0], r, l) {
        Some(s[0])
    } else {
        find_entry(s.skip(1), r, l)
    }
}

proof fn lemma_find_from(s: Seq<WorkspaceSession>, i: int, r: Seq<char>, l: Seq<char>)
    requires
        0 <= i <= s.len(),
        forall|j: int| 0 <= j < i ==> !key_match(#[trigger] s[j], r, l),
    ensures
        find_entry(s, r, l) == find_entry(s.skip(i), r, l),
    decreases i,
{
    if i > 0 {
        assert(!key_match(s[0], r, l));
        lemma_find_from(s.skip(1), i - 1, r, l);
        assert(s.skip(1).skip(i - 1) =~= s.skip(i));
    } else {
        assert(s.skip(0) =~= s);
    }
}

proof fn lemma_find_update_found(
    s: Seq<WorkspaceSession>,
    i: int,
    e2: WorkspaceSession,
    r: Seq<char>,
    l: Seq<char>,
)
    requires
        0 <= i < s.len(),
        key_match(s[i], r, l),
        key_match(e2, r, l),
        forall|j: int| 0 <= j < i ==> !key_match(#[trigger] s[j], r, l),
    ensures
        find_entry(s.update(i, e2), r, l) == Some(e2),
    decreases i,
{
    let u = s.update(i, e2);
    if i == 0 {
        assert(u[0] == e2);
    } else {
        assert(u[0] == s[0]);
        assert(!key_match(u[0], r, l));
        assert(u.skip(1) =~= s.skip(1).update(i - 1, e2));
        lemma_find_update_found(s.skip(1), i - 1, e2, r, l);
    }
}

proof fn lemma_find_update_other(
    s: Seq<WorkspaceSession>,
    i: int,
    e2: WorkspaceSession,
    r2: Seq<char>,
    l2: Seq<char>,
)
    requires
        0 <= i < s.len(),
        !key_match(s[i], r2, l2),
        !key_match(e2, r2, l2),
    ensures
        find_entry(s.update(i, e2), r2, l2) == find_entry(s, r2, l2),
    decreases i,
{
    let u = s.update(i, e2);
    if i == 0 {
        assert(u[0] == e2);
        assert(u.skip(1) =~= s.skip(1));
    } else {
        assert(u[0] == s[0]);
        assert(u.skip(1) =~= s.skip(1).update(i - 1, e2));
        if !key_match(s[0], r2, l2) {
            lemma_find_update_other(s.skip(1), i - 1, e2, r2, l2);
        }
    }
}

proof fn lemma_find_none(s: Seq<WorkspaceSession>, r: Seq<char>, l: Seq<char>)
    requires
        find_entry(s, r, l) is None,
    ensures
        forall|j: int| 0 <= j < s.len() ==> !key_match(#[trigger] s[j], r, l),
    decreases s.len(),
{
    if s.len() > 0 {
        assert(!key_match(s[0], r, l));
        lemma_find_none(s.skip(1), r, l);
        assert forall|j: int| 0 <= j < s.len() implies !key_match(#[trigger] s[j], r, l) by {
            if j > 0 {
                assert(s.skip(1)[j - 1] == s[j]);
            }
        }
    }
}

proof fn lemma_find_push(
    s: Seq<WorkspaceSession>,
    e: WorkspaceSession,
    r2: Seq<char>,
    l2: Seq<char>,
)
    ensures
        find_entry(s.push(e), r2, l2) == (if find_entry(s, r2, l2) is Some {
            find_entry(s, r2, l2)
        } else if key_match(e, r2, l2) {
            Some(e)
        } else {
            None
        }),
    decreases s.len(),
{
    if s.len() == 0 {
        assert(s.push(e)[0] == e);
        assert(s.push(e).skip(1) =~= Seq::<WorkspaceSession>::empty());
    } else {
        assert(s.push(e)[0] == s[0]);
        assert(s.push(e).skip(1) =~= s.skip(1).push(e));
        lemma_find_push(s.skip(1), e, r2, l2);
    }
}

/// The registry of sessions, keyed by (workspace root, language).
/// Sessions are created lazily on first use and retained; a failed entry
/// is replaced on the next request so the spawn can be retried.
pub struct SessionTable {
    entries: Vec<WorkspaceSession>,
}

impl SessionTable {
    /// The state and open-document set of the session with this key.
    pub closed spec fn session_view(&self, r: Seq<char>, l: Seq<char>) -> Option<
        (LspState, Set<Seq<char>>),
    > {
        match find_entry(self.entries@, r, l) {
            Some(e) => Some((e.state, e.open_documents@)),
            None => None,
        }
    }

    pub closed spec fn wf(&self) -> bool {
        &&& (forall|i: int, j: int|
            0 <= i < j < self.entries@.len() ==> !((#[trigger] self.entries@[i]).root@
                == (#[trigger] self.entries@[j]).root@ && self.entries@[i].language@
                == self.entries@[j].language@))
        &&& (forall|i: int|
            0 <= i < self.entries@.len() ==> (#[trigger] self.entries@[i]).open_documents.wf())
    }

    pub fn new() -> (t: SessionTable)
        ensures
            t.wf(),
            forall|r: Seq<char>, l: Seq<char>| t.session_view(r, l) is None,
    {
        SessionTable { entries: Vec::new() }
    }

    fn find_idx(&self, root: &str, language: &str) -> (r: Option<usize>)
        ensures
            match r {
                Some(i) => i < self.entries@.len() && key_match(
                    self.entries@[i as int],
                    root@,
                    language@,
                ) && (forall|j: int|
                    0 <= j < i ==> !key_match(#[trigger] self.entries@[j], root@, language@))
                    && find_entry(self.entries@, root@, language@) == Some(
                    self.entries@[i as int],
                ),
                None => find_entry(self.entries@, root@, language@) is None,
            },
    {
        let n: usize = self.entries.len();
        let mut i: usize = 0;
        while i < n
            invariant
                i <= n,
                n == self.entries@.len(),
                forall|j: int| 0 <= j < i ==> !key_match(#[trigger] self.entries@[j], root@, language@),
            decreases n - i,
        {
            if str_eq(self.entries[i].root.as_str(), root) && str_eq(
                self.entries[i].language.as_str(),
                language,
            ) {
                proof {
                    lemma_find_from(self.entries@, i as int, root@, language@);
                    assert(self.entries@.skip(i as int)[0] == self.entries@[i as int]);
                }
                return Some(i);
            }
            i += 1;
        }
        proof {
            lemma_find_from(self.entries@, n as int, root@, language@);
            assert(self.entries@.skip(n as int) =~= Seq::<WorkspaceSession>::empty());
        }
        None
    }

    /// Replaces the entry at a found index with one carrying the same
    /// key.
    fn replace_at(&mut self, i: usize, e2: WorkspaceSession, root: &str, language: &str)
        requires
            old(self).wf(),
            i < old(self).entries@.len(),
            key_match(old(self).entries@[i as int], root@, language@),
            key_match(e2, root@, language@),
            forall|j: int|
                0 <= j < i ==> !key_match(#[trigger] old(self).entries@[j], root@, language@),
            e2.open_documents.wf(),
        ensures
            final(self).wf(),
            final(self).session_view(root@, language@) == Some(
                (e2.state, e2.open_documents@),
            ),
            forall|r2: Seq<char>, l2: Seq<char>|
                !(r2 == root@ && l2 == language@) ==> final(self).session_view(r2, l2) == old(
                    self,
                ).session_view(r2, l2),
    {
        let ghost s0 = self.entries@;
        let _replaced = self.entries.remove(i);
        self.entries.insert(i, e2);
        proof {
            assert(self.entries@ =~= s0.update(i as int, self.entries@[i as int]));
            let e2v = self.entries@[i as int];
            assert(key_match(e2v, root@, language@));
            lemma_find_update_found(s0, i as int, e2v, root@, language@);
            assert forall|r2: Seq<char>, l2: Seq<char>|
                !(r2 == root@ && l2 == language@) implies self.session_view(r2, l2) == old(
                self,
            ).session_view(r2, l2) by {
                assert(!key_match(s0[i as int], r2, l2));
                assert(!key_match(e2v, r2, l2));
                lemma_find_update_other(s0, i as int, e2v, r2, l2);
            }
            assert forall|a: int, b: int|
                0 <= a < b < self.entries@.len() implies !((#[trigger] self.entries@[a]).root@
                == (#[trigger] self.entries@[b]).root@ && self.entries@[a].language@
                == self.entries@[b].language@) by {
                if a != i && b != i {
                    assert(self.entries@[a] == s0[a] && self.entries@[b] == s0[b]);
                }
            }
        }
    }

    /// Looks up a session's state.
    pub fn session_state(&self, root: &str, language: &str) -> (r: Option<LspState>)
        ensures
            r == (match self.session_view(root@, language@) {
                Some(p) => Some(p.0),
                None => None,
            }),
    {
        match self.find_idx(root, language) {
            Some(i) => Some(self.entries[i].state),
            None => None,
        }
    }

    /// The keyed lookup of the registry: a ready session is used, an
    /// initializing one awaited, a missing or failed one (re)spawned.
    /// When the answer is to spawn, the entry is (re)created in the
    /// `Starting` state with no open documents, replacing a failed one.
    pub fn get_or_create(&mut self, root: &str, language: &str) -> (a: SessionAction)
        requires
            old(self).wf(),
        ensures
            final(self).wf(),
            a == session_decision_spec(
                match old(self).session_view(root@, language@) {
                    Some(p) => Some(p.0),
                    None => None,
                },
            ),
            a is SpawnNew ==> final(self).session_view(root@, language@) == Some(
                (LspState::Starting, Set::<Seq<char>>::empty()),
            ),
            !(a is SpawnNew) ==> final(self).session_view(root@, language@) == old(
                self,
            ).session_view(root@, language@),
            forall|r2: Seq<char>, l2: Seq<char>|
                !(r2 == root@ && l2 == language@) ==> final(self).session_view(r2, l2) == old(
                    self,
                ).session_view(r2, l2),
    {
        let found = self.find_idx(root, language);
        let existing: Option<LspState> = match found {
            Some(i) => Some(self.entries[i].state),
            None => None,
        };
        let action = session_decision(existing);
        match action {
            SessionAction::SpawnNew => {
                let docs = DocumentSet::new();
                let fresh = WorkspaceSession {
                    root: String::from_str(root),
                    language: String::from_str(language),
                    state: LspState::Starting,
                    open_documents: docs,
                };
                match found {
                    Some(i) => {
                        self.replace_at(i, fresh, root, language);
                    },
                    None => {
                        let ghost s0 = self.entries@;
                        let ghost fv = fresh;
                        self.entries.push(fresh);
                        proof {
                            assert(self.entries@ =~= s0.push(self.entries@.last()));
                            let ev = self.entries@.last();
                            lemma_find_none(s0, root@, language@);
                            lemma_find_push(s0, ev, root@, language@);
                            assert forall|r2: Seq<char>, l2: Seq<char>|
                                !(r2 == root@ && l2 == language@) implies self.session_view(
                                r2,
                                l2,
                            ) == old(self).session_view(r2, l2) by {
                                lemma_find_push(s0, ev, r2, l2);
                            }
                            assert forall|a2: int, b: int|
                                0 <= a2 < b < self.entries@.len() implies !((
                            #[trigger] self.entries@[a2]).root@
                                == (#[trigger] self.entries@[b]).root@
                                && self.entries@[a2].language@
                                == self.entries@[b].language@) by {
                                if b == s0.len() {
                                    assert(!key_match(s0[a2], root@, language@));
                                }
                            }
                        }
                    },
                }
            },
            _ => {},
        }
        action
    }

    /// Records the handshake's progress for a session.
    pub fn set_state(&mut self, root: &str, language: &str, state: LspState)
        requires
            old(self).wf(),
            old(self).session_view(root@, language@) is Some,
        ensures
            final(self).wf(),
            final(self).session_view(root@, language@) == Some(
                (state, (old(self).session_view(root@, language@)->0).1),
            ),
            forall|r2: Seq<char>, l2: Seq<char>|
                !(r2 == root@ && l2 == language@) ==> final(self).session_view(r2, l2) == old(
                    self,
                ).session_view(r2, l2),
    {
        match self.find_idx(root, language) {
            Some(i) => {
                let mut e = self.entries.remove(i);
                let ghost s0 = old(self).entries@;
                e.state = state;
                self.entries.insert(i, e);
                proof {
                    assert(self.entries@ =~= s0.update(i as int, self.entries@[i as int]));
                    let e2v = self.entries@[i as int];
                    lemma_find_update_found(s0, i as int, e2v, root@, language@);
                    assert forall|r2: Seq<char>, l2: Seq<char>|
                        !(r2 == root@ && l2 == language@) implies self.session_view(r2, l2)
                        == old(self).session_view(r2, l2) by {
                        assert(!key_match(s0[i as int], r2, l2));
                        assert(!key_match(e2v, r2, l2));
                        lemma_find_update_other(s0, i as int, e2v, r2, l2);
                    }
                    assert forall|a: int, b: int|
                        0 <= a < b < self.entries@.len() implies !((
                    #[trigger] self.entries@[a]).root@ == (#[trigger] self.entries@[b]).root@
                        && self.entries@[a].language@ == self.entries@[b].language@) by {
                        if a != i && b != i {
                            assert(self.entries@[a] == s0[a] && self.entries@[b] == s0[b]);
                        }
                    }
                }
            },
            None => {
                vstd::pervasive::unreached::<()>()
            },
        }
    }

    /// Decides whether `didOpen` must be sent for this session and path,
    /// and records the document as open: true exactly when the path was
    /// not yet open on this session.
    pub fn record_open(&mut self, root: &str, language: &str, path: &str) -> (send: bool)
        requires
            old(self).wf(),
            old(self).session_view(root@, language@) is Some,
        ensures
            final(self).wf(),
            send == !(old(self).session_view(root@, language@)->0).1.contains(path@),
            final(self).session_view(root@, language@) == Some(
                (
                    (old(self).session_view(root@, language@)->0).0,
                    (old(self).session_view(root@, language@)->0).1.insert(path@),
                ),
            ),
            forall|r2: Seq<char>, l2: Seq<char>|
                !(r2 == root@ && l2 == language@) ==> final(self).session_view(r2, l2) == old(
                    self,
                ).session_view(r2, l2),
    {
        match self.find_idx(root, language) {
            Some(i) => {
                let mut e = self.entries.remove(i);
                let ghost s0 = old(self).entries@;
                let send = e.open_documents.record_open(path);
                self.entries.insert(i, e);
                proof {
                    assert(self.entries@ =~= s0.update(i as int, self.entries@[i as int]));
                    let e2v = self.entries@[i as int];
                    lemma_find_update_found(s0, i as int, e2v, root@, language@);
                    assert forall|r2: Seq<char>, l2: Seq<char>|
                        !(r2 == root@ && l2 == language@) implies self.session_view(r2, l2)
                        == old(self).session_view(r2, l2) by {
                        assert(!key_match(s0[i as int], r2, l2));
                        assert(!key_match(e2v, r2, l2));
                        lemma_find_update_other(s0, i as int, e2v, r2, l2);
                    }
                    assert forall|a: int, b: int|
                        0 <= a < b < self.entries@.len() implies !((
                    #[trigger] self.entries@[a]).root@ == (#[trigger] self.entries@[b]).root@
                        && self.entries@[a].language@ == self.entries@[b].language@) by {
                        if a != i && b != i {
                            assert(self.entries@[a] == s0[a] && self.entries@[b] == s0[b]);
                        }
                    }
                }
                send
            },
            None => vstd::pervasive::unreached(),
        }
    }
}

/// What `get_or_create` does for a session key in a given state: a ready
/// session is used as it stands, an initializing one is awaited, and a
/// missing or failed one is (re)spawned — a failed entry is cleared so a
/// later request can retry.
#[derive(Debug, Clone, Copy, PartialEq, Eq, Structural)]
pub enum SessionAction {
    UseExisting,
    AwaitReady,
    SpawnNew,
}

pub open spec fn session_decision_spec(existing: Option<LspState>) -> SessionAction {
    match existing {
        Some(LspState::Ready) => SessionAction::UseExisting,
        Some(LspState::Starting) | Some(LspState::Initializing) | Some(
            LspState::ResponseReceived,
        ) => SessionAction::AwaitReady,
        Some(LspState::Failed) | Some(LspState::Closed) | None => SessionAction::SpawnNew,
    }
}

pub fn session_decision(existing: Option<LspState>) -> (a: SessionAction)
    ensures
        a == session_decision_spec(existing),
{
    match existing {
        Some(LspState::Ready) => SessionAction::UseExisting,
        Some(LspState::Starting) => SessionAction::AwaitReady,
        Some(LspState::Initializing) => SessionAction::AwaitReady,
        Some(LspState::ResponseReceived) => SessionAction::AwaitReady,
        _ => SessionAction::SpawnNew,
    }
}

} // verus!
