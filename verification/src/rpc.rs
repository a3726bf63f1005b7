//! JSON-RPC client bookkeeping: the monotone request-id counter, the
//! table of requests whose replies are outstanding, and the stock
//! replies to server-initiated requests.

use vstd::prelude::*;
use crate::strutil::str_eq;

verus! {

/// The pending-request table of one JSON-RPC connection. Ids are issued
/// from a monotonically increasing counter, so an id is never reused;
/// a reply or a cancelled caller removes its entry; a transport failure
/// clears the table (every waiting caller is failed).
pub struct PendingTable {
    next_id: u64,
    pending: Vec<u64>,
}

impl PendingTable {
    pub closed spec fn view(&self) -> Set<u64> {
        Set::new(|id: u64| self.pending@.contains(id))
    }

    pub closed spec fn next_id_spec(&self) -> u64 {
        self.next_id
    }

    pub closed spec fn wf(&self) -> bool {
        &&& (forall|i: int, j: int|
            0 <= i < j < self.pending@.len() ==> self.pending@[i] != self.pending@[j])
        &&& (forall|i: int|
            0 <= i < self.pending@.len() ==> (#[trigger] self.pending@[i]) < self.next_id)
    }

    pub fn new() -> (t: PendingTable)
        ensures
            t.wf(),
            t@ == Set::<u64>::empty(),
            t.next_id_spec() == 1,
    {
        let t = PendingTable { next_id: 1, pending: Vec::new() };
        proof {
            assert(t@ =~= Set::<u64>::empty());
        }
        t
    }

    /// The id the next request will carry.
    pub fn next_id(&self) -> (id: u64)
        ensures
            id == self.next_id_spec(),
    {
        self.next_id
    }

    pub fn contains(&self, id: u64) -> (r: bool)
        ensures
            r == self@.contains(id),
    {
        let n: usize = self.pending.len();
        let mut i: usize = 0;
        while i < n
            invariant
                i <= n,
                n == self.pending@.len(),
                forall|j: int| 0 <= j < i ==> self.pending@[j] != id,
            decreases n - i,
        {
            if self.pending[i] == id {
                assert(self.pending@.contains(id));
                return true;
            }
            i += 1;
        }
        assert(!self.pending@.contains(id));
        false
    }

    /// Issues the id for an outgoing request and records it as pending.
    /// The id is fresh: no earlier request ever carried it.
    pub fn register(&mut self) -> (id: u64)
        requires
            old(self).wf(),
            old(self).next_id_spec() < u64::MAX,
        ensures
            final(self).wf(),
            id == old(self).next_id_spec(),
            !old(self)@.contains(id),
            final(self)@ == old(self)@.insert(id),
            final(self).next_id_spec() == id + 1,
    {
        let id = self.next_id;
        proof {
            if self.pending@.contains(id) {
                let w = choose|w: int| 0 <= w < self.pending@.len() && self.pending@[w] == id;
            }
        }
        let ghost oldseq = self.pending@;
        self.pending.push(id);
        self.next_id = id + 1;
        proof {
            assert forall|i: int, j: int|
                0 <= i < j < self.pending@.len() implies self.pending@[i]
                != self.pending@[j] by {
                if j < oldseq.len() {
                } else {
                    assert(self.pending@[j] == id);
                    assert(oldseq[i] == self.pending@[i]);
                    assert(oldseq.contains(oldseq[i]));
                }
            }
            assert forall|x: u64| self@.contains(x) implies old(self)@.insert(id).contains(
                x,
            ) by {
                let w = choose|w: int| 0 <= w < self.pending@.len() && self.pending@[w] == x;
                if w < oldseq.len() {
                    assert(oldseq[w] == x);
                    assert(oldseq.contains(x));
                }
            }
            assert forall|x: u64| old(self)@.insert(id).contains(x) implies self@.contains(
                x,
            ) by {
                if x == id {
                    assert(self.pending@[oldseq.len() as int] == id);
                } else {
                    let w = choose|w: int| 0 <= w < oldseq.len() && oldseq[w] == x;
                    assert(self.pending@[w] == x);
                }
            }
            assert(self@ =~= old(self)@.insert(id));
        }
        id
    }

    fn take_out(&mut self, id: u64)
        requires
            old(self).wf(),
        ensures
            final(self).wf(),
            final(self)@ == old(self)@.remove(id),
            final(self).next_id_spec() == old(self).next_id_spec(),
    {
        let n: usize = self.pending.len();
        let mut i: usize = 0;
        while i < n
            invariant
                i <= n,
                n == self.pending@.len(),
                self == old(self),
                self.wf(),
                forall|j: int| 0 <= j < i ==> self.pending@[j] != id,
            decreases n - i,
        {
            if self.pending[i] == id {
                let ghost oldseq = self.pending@;
                self.pending.remove(i);
                proof {
                    assert(self.pending@ =~= oldseq.remove(i as int));
                    assert(forall|j: int| 0 <= j < i ==> self.pending@[j] == oldseq[j]);
                    assert(forall|j: int|
                        i <= j < self.pending@.len() ==> self.pending@[j] == oldseq[j + 1]);
                    assert forall|a: int, b: int|
                        0 <= a < b < self.pending@.len() implies self.pending@[a]
                        != self.pending@[b] by {
                        let a2: int = if a < i { a } else { a + 1 };
                        let b2: int = if b < i { b } else { b + 1 };
                        assert(self.pending@[a] == oldseq[a2]);
                        assert(self.pending@[b] == oldseq[b2]);
                        assert(a2 < b2 < oldseq.len());
                    }
                    assert forall|x: u64| self@.contains(x) implies old(self)@.remove(
                        id,
                    ).contains(x) by {
                        let w = choose|w: int|
                            0 <= w < self.pending@.len() && self.pending@[w] == x;
                        if w < i {
                            assert(oldseq[w] == x);
                        } else {
                            assert(oldseq[w + 1] == x);
                        }
                        assert(oldseq.contains(x));
                        assert(x != id);
                    }
                    assert forall|x: u64| old(self)@.remove(id).contains(x)
                        implies self@.contains(x) by {
                        let w = choose|w: int| 0 <= w < oldseq.len() && oldseq[w] == x;
                        assert(oldseq[w] == x && x != id);
                        assert(w != i);
                        if w < i {
                            assert(self.pending@[w] == x);
                        } else {
                            assert(self.pending@[w - 1] == x);
                        }
                    }
                    assert(self@ =~= old(self)@.remove(id));
                }
                return;
            }
            i += 1;
        }
        proof {
            assert(!self.pending@.contains(id));
            assert(self@ =~= old(self)@.remove(id));
        }
    }

    /// Matches an incoming response to its request. The answer says
    /// whether a caller was waiting; a stray or late response (its
    /// entry already gone) is dropped by the caller.
    pub fn resolve(&mut self, id: u64) -> (known: bool)
        requires
            old(self).wf(),
        ensures
            final(self).wf(),
            known == old(self)@.contains(id),
            final(self)@ == old(self)@.remove(id),
            final(self).next_id_spec() == old(self).next_id_spec(),
    {
        let known = self.contains(id);
        self.take_out(id);
        known
    }

    /// A caller that stops waiting removes its entry; the request is
    /// not cancelled on the server, its response will simply be dropped.
    pub fn cancel(&mut self, id: u64)
        requires
            old(self).wf(),
        ensures
            final(self).wf(),
            final(self)@ == old(self)@.remove(id),
            final(self).next_id_spec() == old(self).next_id_spec(),
    {
        self.take_out(id);
    }

    /// On transition to failed or closed every pending entry is cleared:
    /// each waiting caller is failed by the transport layer.
    pub fn fail_all(&mut self)
        requires
            old(self).wf(),
        ensures
            final(self).wf(),
            final(self)@ == Set::<u64>::empty(),
            final(self).next_id_spec() == old(self).next_id_spec(),
    {
        self.pending.clear();
        proof {
            assert(self@ =~= Set::<u64>::empty());
        }
    }
}

/// The stock reply to a server-initiated request.
#[derive(Debug, Clone, Copy, PartialEq, Eq, Structural)]
pub enum ServerReply {
    /// `workspace/applyEdit` is auto-declined (`applied: false`): the
    /// daemon is not a text-mutation service.
    ApplyEditDeclined,
    /// `window/workDoneProgress/create` is acknowledged.
    ProgressCreated,
    /// Any other method is answered with `MethodNotFound`.
    MethodNotFound,
}

pub fn server_request_reply(method: &str) -> (r: ServerReply)
    ensures
        r == (if method@ == "workspace/applyEdit"@ {
            ServerReply::ApplyEditDeclined
        } else if method@ == "window/workDoneProgress/create"@ {
            ServerReply::ProgressCreated
        } else {
            ServerReply::MethodNotFound
        }),
{
    if str_eq(method, "workspace/applyEdit") {
        ServerReply::ApplyEditDeclined
    } else if str_eq(method, "window/workDoneProgress/create") {
        ServerReply::ProgressCreated
    } else {
        ServerReply::MethodNotFound
    }
}

} // verus!
