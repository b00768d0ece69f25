//! The server-wide registry: client identity to live `Client`, plus the
//! session-id allocator.
//!
//! The registry is the single shared mutable resource of the hub. The caller
//! guards a `ServerContext` with one lock and performs each mutating
//! operation below inside one critical section; every operation that can
//! change whether a client is empty touches the client directory and the
//! session set in that same call, so no caller can ever observe a client
//! that exists with no sessions (`no_empty_clients` is preserved by the
//! compound operations `register_session` and `remove_client_session`).
//!
//! The model of a registry is `clients_map()`: client identity, to session
//! id, to that session's queue of outbound frames.

use vstd::prelude::*;

use crate::client::{Client, WsSessionHolder, spec_enqueue};
use crate::strutil::str_eq;

verus! {

/// The registry's model: client identity -> session id -> outbound queue.
pub type RegistryMap = Map<Seq<char>, Map<i64, Seq<Seq<char>>>>;

/// Ask the registry to register one new session under a client identity.
pub struct RegisterSession {
    pub client_id: String,
}

/// Ask the registry for the client registered under an identity.
pub struct GetClient {
    pub client_id: String,
}

/// Ask the registry to drop one session of a client.
pub struct UnregisterSession {
    pub id: i64,
    pub client_id: String,
}

/// Whether some client in the sequence carries this identity.
pub open spec fn seq_has_client(cs: Seq<Client>, cid: Seq<char>) -> bool {
    exists|i: int| 0 <= i < cs.len() && cs[i].id@ == cid
}

/// The index of the client with this identity (unique under `ids_distinct`).
pub open spec fn seq_client_idx(cs: Seq<Client>, cid: Seq<char>) -> int {
    choose|i: int| 0 <= i < cs.len() && cs[i].id@ == cid
}

/// No two clients share an identity.
pub open spec fn ids_distinct(cs: Seq<Client>) -> bool {
    forall|i: int, j: int| 0 <= i < j < cs.len() ==> cs[i].id@ != cs[j].id@
}

/// Every session id in every client is below `bound`.
pub open spec fn ids_below(cs: Seq<Client>, bound: i64) -> bool {
    forall|i: int, k: int|
        0 <= i < cs.len() && 0 <= k < cs[i].sessions@.len() ==> #[trigger] cs[i].sessions@[k].id
            < bound
}

/// No session id occurs in two different clients.
pub open spec fn cross_distinct(cs: Seq<Client>) -> bool {
    forall|i: int, j: int, k: int, l: int|
        #![trigger cs[i].sessions@[k].id, cs[j].sessions@[l].id]
        0 <= i < cs.len() && 0 <= j < cs.len() && i != j && 0 <= k < cs[i].sessions@.len() && 0 <= l
            < cs[j].sessions@.len() ==> cs[i].sessions@[k].id != cs[j].sessions@[l].id
}

/// The registry model carried by a sequence of clients.
pub open spec fn map_of_clients(cs: Seq<Client>) -> RegistryMap {
    Map::new(
        |cid: Seq<char>| seq_has_client(cs, cid),
        |cid: Seq<char>| cs[seq_client_idx(cs, cid)].sessions_map(),
    )
}

/// What registering a fresh session does to a registry model: the client's
/// entry (created when absent) gains the session with an empty queue.
pub open spec fn spec_register_map(m: RegistryMap, cid: Seq<char>, sid: i64) -> RegistryMap {
    let inner = if m.dom().contains(cid) {
        m[cid]
    } else {
        Map::<i64, Seq<Seq<char>>>::empty()
    };
    m.insert(cid, inner.insert(sid, Seq::<Seq<char>>::empty()))
}

/// What removing a session does to a registry model: the session leaves its
/// client's entry, and a client left with no sessions leaves the registry in
/// the same step.
pub open spec fn spec_remove_map(m: RegistryMap, cid: Seq<char>, sid: i64) -> RegistryMap {
    if !m.dom().contains(cid) {
        m
    } else {
        let inner = m[cid].remove(sid);
        if inner.dom() =~= Set::<i64>::empty() {
            m.remove(cid)
        } else {
            m.insert(cid, inner)
        }
    }
}

/// The server-wide directory of clients, owning the session-id allocator.
pub struct ServerContext {
    pub next_session_id: i64,
    pub clients: Vec<Client>,
}

impl ServerContext {
    /// The next id the allocator will hand out; every id ever handed out is
    /// below it, so it is never handed out twice.
    pub open spec fn spec_next_id(&self) -> i64 {
        self.next_session_id
    }

    pub open spec fn has_client(&self, cid: Seq<char>) -> bool {
        seq_has_client(self.clients@, cid)
    }

    pub open spec fn client_idx(&self, cid: Seq<char>) -> int {
        seq_client_idx(self.clients@, cid)
    }

    pub open spec fn clients_map(&self) -> RegistryMap {
        map_of_clients(self.clients@)
    }

    /// Structural soundness: distinct client identities, well-formed clients,
    /// and globally distinct session ids, all below the allocator's counter.
    pub open spec fn wf(&self) -> bool {
        &&& ids_distinct(self.clients@)
        &&& forall|i: int| 0 <= i < self.clients@.len() ==> (#[trigger] self.clients@[i]).wf()
        &&& ids_below(self.clients@, self.next_session_id)
        &&& cross_distinct(self.clients@)
    }

    /// A client is observable only while it has at least one session.
    pub open spec fn no_empty_clients(&self) -> bool {
        forall|i: int|
            0 <= i < self.clients@.len() ==> (#[trigger] self.clients@[i]).sessions@.len() > 0
    }

    pub fn new() -> (r: ServerContext)
        ensures
            r.wf(),
            r.no_empty_clients(),
            r.spec_next_id() == 0,
            r.clients_map() =~= RegistryMap::empty(),
    {
        let r = ServerContext { next_session_id: 0, clients: Vec::new() };
        proof {
            assert(r.clients_map() =~= RegistryMap::empty());
        }
        r
    }

    /// Allocate a fresh session id: ids strictly increase and are never
    /// reused. Independent of the client directory.
    pub fn next_id(&mut self) -> (r: i64)
        requires
            old(self).wf(),
            old(self).spec_next_id() < i64::MAX,
        ensures
            final(self).wf(),
            r == old(self).spec_next_id(),
            final(self).spec_next_id() == old(self).spec_next_id() + 1,
            final(self).clients == old(self).clients,
            final(self).clients_map() == old(self).clients_map(),
            final(self).no_empty_clients() == old(self).no_empty_clients(),
    {
        let r = self.next_session_id;
        self.next_session_id = self.next_session_id + 1;
        r
    }

    /// Find the client registered under this identity, or report its absence.
    pub fn get_client(&self, client_id: &String) -> (r: Option<usize>)
        requires
            self.wf(),
        ensures
            r is Some <==> self.has_client(client_id@),
            r is Some ==> (r->Some_0 as int) == self.client_idx(client_id@) && (
            r->Some_0 as int) < self.clients@.len()
                && self.clients@[r->Some_0 as int].id@ == client_id@,
    {
        let mut i: usize = 0;
        while i < self.clients.len()
            invariant
                self.wf(),
                0 <= i <= self.clients@.len(),
                forall|k: int| 0 <= k < i ==> self.clients@[k].id@ != client_id@,
            decreases self.clients@.len() - i,
        {
            if self.clients[i].id == *client_id {
                proof {
                    assert(self.has_client(client_id@)) by {
                        assert(self.clients@[i as int].id@ == client_id@);
                    }
                    assert(self.client_idx(client_id@) == i) by {
                        let k = self.client_idx(client_id@);
                        assert(self.clients@[k].id@ == client_id@);
                        assert(self.clients@[i as int].id@ == client_id@);
                    }
                }
                return Some(i);
            }
            i += 1;
        }
        proof {
            assert(!self.has_client(client_id@)) by {
                if self.has_client(client_id@) {
                    let k = self.client_idx(client_id@);
                    assert(self.clients@[k].id@ == client_id@);
                }
            }
        }
        None
    }

    /// Return the index of the client with this identity, creating an empty
    /// one when absent. A created client is empty, so a caller that creates
    /// one must add a session in the same critical section;
    /// `register_session` is that compound operation.
    pub fn ensure_client(&mut self, client_id: &String) -> (i: usize)
        requires
            old(self).wf(),
        ensures
            final(self).wf(),
            final(self).spec_next_id() == old(self).spec_next_id(),
            (i as int) == final(self).client_idx(client_id@),
            (i as int) < final(self).clients@.len(),
            final(self).clients@[i as int].id@ == client_id@,
            final(self).has_client(client_id@),
            old(self).has_client(client_id@) ==> *final(self) == *old(self),
            !old(self).has_client(client_id@) ==> final(self).clients@ == old(self).clients@.push(
                final(self).clients@[i as int],
            ) && (i as int) == old(self).clients@.len()
                && final(self).clients@[i as int].sessions@.len() == 0 && final(self).clients_map()
                =~= old(self).clients_map().insert(
                client_id@,
                Map::<i64, Seq<Seq<char>>>::empty(),
            ),
    {
        let mut i: usize = 0;
        while i < self.clients.len()
            invariant
                old(self).wf(),
                *self == *old(self),
                0 <= i <= self.clients@.len(),
                forall|k: int| 0 <= k < i ==> self.clients@[k].id@ != client_id@,
            decreases self.clients@.len() - i,
        {
            if self.clients[i].id == *client_id {
                proof {
                    assert(self.has_client(client_id@)) by {
                        assert(self.clients@[i as int].id@ == client_id@);
                    }
                    assert(self.client_idx(client_id@) == i) by {
                        let k = self.client_idx(client_id@);
                        assert(self.clients@[k].id@ == client_id@);
                        assert(self.clients@[i as int].id@ == client_id@);
                    }
                }
                return i;
            }
            i += 1;
        }
        let ghost pre = *self;
        proof {
            assert(pre == *old(self));
            assert(!pre.has_client(client_id@)) by {
                if pre.has_client(client_id@) {
                    let k = pre.client_idx(client_id@);
                    assert(pre.clients@[k].id@ == client_id@);
                }
            }
        }
        let idx = self.clients.len();
        let c = Client::new(client_id.clone());
        self.clients.push(c);
        proof {
            lemma_elem_push(pre.clients@, self.clients@[idx as int]);
            assert(self.clients@ =~= pre.clients@.push(self.clients@[idx as int]));
            assert(self.client_idx(client_id@) == idx) by {
                assert(self.clients@[idx as int].id@ == client_id@);
                let k = self.client_idx(client_id@);
                assert(self.clients@[k].id@ == client_id@);
                if k < idx {
                    assert(pre.clients@[k].id@ == client_id@);
                }
            }
            assert(self.clients_map() =~= pre.clients_map().insert(
                client_id@,
                Map::<i64, Seq<Seq<char>>>::empty(),
            )) by {
                assert(self.clients@[idx as int].sessions_map() =~= Map::<
                    i64,
                    Seq<Seq<char>>,
                >::empty());
            }
            // Well-formedness: the new client is empty, so only client-id
            // distinctness changes, and the new identity is fresh.
            assert(self.wf()) by {
                assert forall|a: int, b: int|
                    0 <= a < b < self.clients@.len() implies self.clients@[a].id@
                    != self.clients@[b].id@ by {
                    if b < idx {
                        assert(pre.clients@[a].id@ != pre.clients@[b].id@);
                    } else {
                        assert(pre.clients@[a].id@ == self.clients@[a].id@);
                        assert(pre.has_client(pre.clients@[a].id@)) by {
                            assert(pre.clients@[a].id@ == pre.clients@[a].id@);
                        }
                    }
                }
                assert(ids_below(self.clients@, self.next_session_id)) by {
                    assert forall|a: int, k: int|
                        0 <= a < self.clients@.len() && 0 <= k
                            < self.clients@[a].sessions@.len() implies #[trigger] self.clients@[a].sessions@[k].id
                        < self.next_session_id by {
                        assert(a < idx);
                        assert(self.clients@[a] == pre.clients@[a]);
                    }
                }
                assert(cross_distinct(self.clients@)) by {
                    assert forall|a: int, b: int, k: int, l: int|
                        #![trigger self.clients@[a].sessions@[k].id, self.clients@[b].sessions@[l].id]
                        0 <= a < self.clients@.len() && 0 <= b < self.clients@.len() && a != b && 0
                            <= k < self.clients@[a].sessions@.len() && 0 <= l
                            < self.clients@[b].sessions@.len() implies self.clients@[a].sessions@[k].id
                        != self.clients@[b].sessions@[l].id by {
                        assert(a < idx && b < idx);
                        assert(self.clients@[a] == pre.clients@[a]);
                        assert(self.clients@[b] == pre.clients@[b]);
                    }
                }
            }
        }
        idx
    }
}

/// Appending a client with a fresh identity extends the registry model by
/// that client's entry.
pub proof fn lemma_elem_push(pre: Seq<Client>, c: Client)
    requires
        ids_distinct(pre),
        !seq_has_client(pre, c.id@),
    ensures
        map_of_clients(pre.push(c)) =~= map_of_clients(pre).insert(c.id@, c.sessions_map()),
        forall|cid: Seq<char>| #[trigger]
            seq_has_client(pre.push(c), cid) <==> (seq_has_client(pre, cid) || cid == c.id@),
        forall|cid: Seq<char>| #[trigger]
            seq_has_client(pre, cid) ==> seq_client_idx(pre.push(c), cid) == seq_client_idx(
                pre,
                cid,
            ),
{
    let post = pre.push(c);
    assert(post[pre.len() as int].id@ == c.id@);
    assert forall|cid: Seq<char>| #[trigger] seq_has_client(pre, cid) implies seq_has_client(
        post,
        cid,
    ) && seq_client_idx(post, cid) == seq_client_idx(pre, cid) by {
        let k = seq_client_idx(pre, cid);
        assert(pre[k].id@ == cid);
        assert(post[k].id@ == cid);
        let k2 = seq_client_idx(post, cid);
        assert(post[k2].id@ == cid);
        if k2 < pre.len() {
            assert(pre[k2].id@ == cid);
        } else {
            assert(cid == c.id@);
            assert(!seq_has_client(pre, c.id@));
        }
    }
    assert forall|cid: Seq<char>| #[trigger] seq_has_client(post, cid) && cid != c.id@ implies
    seq_has_client(pre, cid) by {
        let k = seq_client_idx(post, cid);
        assert(post[k].id@ == cid);
        assert(k < pre.len());
        assert(pre[k].id@ == cid);
    }
    assert(seq_has_client(post, c.id@));
    assert(seq_client_idx(post, c.id@) == pre.len()) by {
        let k = seq_client_idx(post, c.id@);
        assert(post[k].id@ == c.id@);
        if k < pre.len() {
            assert(pre[k].id@ == c.id@);
        }
    }
    assert(map_of_clients(post) =~= map_of_clients(pre).insert(c.id@, c.sessions_map()));
}

/// Replacing one client by another with the same identity rewrites exactly
/// that client's entry in the registry model.
pub proof fn lemma_elem_update(pre: Seq<Client>, post: Seq<Client>, i: int)
    requires
        ids_distinct(pre),
        post.len() == pre.len(),
        0 <= i < pre.len(),
        forall|k: int| 0 <= k < pre.len() && k != i ==> post[k] == pre[k],
        post[i].id@ == pre[i].id@,
    ensures
        ids_distinct(post),
        forall|cid: Seq<char>| #[trigger] seq_has_client(post, cid) <==> seq_has_client(pre, cid),
        forall|cid: Seq<char>| #[trigger]
            seq_has_client(pre, cid) ==> seq_client_idx(post, cid) == seq_client_idx(pre, cid) && 0
                <= seq_client_idx(pre, cid) < pre.len(),
        seq_client_idx(pre, pre[i].id@) == i,
        seq_has_client(pre, pre[i].id@),
        map_of_clients(post) =~= map_of_clients(pre).insert(pre[i].id@, post[i].sessions_map()),
{
    assert forall|k: int| 0 <= k < post.len() implies post[k].id@ == pre[k].id@ by {}
    assert forall|cid: Seq<char>| #[trigger] seq_has_client(post, cid) implies seq_has_client(
        pre,
        cid,
    ) by {
        let k = seq_client_idx(post, cid);
        assert(post[k].id@ == cid);
        assert(pre[k].id@ == cid);
    }
    assert forall|cid: Seq<char>| #[trigger] seq_has_client(pre, cid) implies seq_has_client(
        post,
        cid,
    ) && seq_client_idx(post, cid) == seq_client_idx(pre, cid) by {
        let k = seq_client_idx(pre, cid);
        assert(pre[k].id@ == cid);
        assert(post[k].id@ == cid);
        let k2 = seq_client_idx(post, cid);
        assert(post[k2].id@ == cid);
        assert(pre[k2].id@ == cid);
    }
    assert(seq_has_client(pre, pre[i].id@)) by {
        assert(pre[i].id@ == pre[i].id@);
    }
    assert(seq_client_idx(pre, pre[i].id@) == i) by {
        let k = seq_client_idx(pre, pre[i].id@);
        assert(pre[k].id@ == pre[i].id@);
    }
    assert(map_of_clients(post) =~= map_of_clients(pre).insert(pre[i].id@, post[i].sessions_map()));
}

/// Removing one client removes exactly that client's entry from the
/// registry model.
pub proof fn lemma_elem_remove(pre: Seq<Client>, i: int)
    requires
        ids_distinct(pre),
        0 <= i < pre.len(),
    ensures
        ids_distinct(pre.remove(i)),
        map_of_clients(pre.remove(i)) =~= map_of_clients(pre).remove(pre[i].id@),
        forall|cid: Seq<char>| #[trigger]
            seq_has_client(pre.remove(i), cid) <==> (seq_has_client(pre, cid) && cid != pre[i].id@),
{
    let post = pre.remove(i);
    assert(seq_client_idx(pre, pre[i].id@) == i) by {
        assert(pre[i].id@ == pre[i].id@);
        let k = seq_client_idx(pre, pre[i].id@);
        assert(pre[k].id@ == pre[i].id@);
    }
    assert forall|cid: Seq<char>| #[trigger] seq_has_client(post, cid) implies seq_has_client(
        pre,
        cid,
    ) && cid != pre[i].id@ && pre[seq_client_idx(pre, cid)].sessions_map()
        == post[seq_client_idx(post, cid)].sessions_map() by {
        let k = seq_client_idx(post, cid);
        assert(post[k].id@ == cid);
        let kp: int = if k < i {
            k
        } else {
            k + 1
        };
        assert(pre[kp].id@ == cid);
        assert(seq_client_idx(pre, cid) == kp) by {
            let k2 = seq_client_idx(pre, cid);
            assert(pre[k2].id@ == cid);
        }
        assert(post[k] == pre[kp]);
    }
    assert forall|cid: Seq<char>| #[trigger]
        seq_has_client(pre, cid) && cid != pre[i].id@ implies seq_has_client(post, cid) by {
        let kp = seq_client_idx(pre, cid);
        assert(pre[kp].id@ == cid);
        let k: int = if kp < i {
            kp
        } else {
            kp - 1
        };
        assert(post[k].id@ == cid);
    }
    assert(ids_distinct(post)) by {
        assert forall|a: int, b: int| 0 <= a < b < post.len() implies post[a].id@
            != post[b].id@ by {
            let ap: int = if a < i {
                a
            } else {
                a + 1
            };
            let bp: int = if b < i {
                b
            } else {
                b + 1
            };
            assert(post[a] == pre[ap]);
            assert(post[b] == pre[bp]);
        }
    }
    assert(map_of_clients(post) =~= map_of_clients(pre).remove(pre[i].id@));
}

} // verus!

verus! {

impl ServerContext {
    /// The whole registration path in one critical section: allocate a fresh
    /// id, find or create the client, and add the session under it. The
    /// allocator invariant makes the defensive duplicate check inside
    /// `Client::add_session` provably unreachable from here, so registration
    /// cannot fail and cannot be lost.
    pub fn register_session(&mut self, msg: RegisterSession) -> (sid: i64)
        requires
            old(self).wf(),
            old(self).spec_next_id() < i64::MAX,
        ensures
            final(self).wf(),
            sid == old(self).spec_next_id(),
            final(self).spec_next_id() == sid + 1,
            old(self).no_empty_clients() ==> final(self).no_empty_clients(),
            final(self).clients_map() =~= spec_register_map(
                old(self).clients_map(),
                msg.client_id@,
                sid,
            ),
            old(self).has_client(msg.client_id@) ==> !old(self).clients_map()[
                msg.client_id@].dom().contains(sid),
            final(self).has_client(msg.client_id@),
    {
        let ghost s0 = *old(self);
        let ghost cid = msg.client_id@;
        let sid = self.next_id();
        let i = self.ensure_client(&msg.client_id);
        let ghost s2 = *self;
        proof {
            // The client at index i holds no session with the fresh id.
            assert(!s2.clients@[i as int].spec_has(sid)) by {
                if s2.clients@[i as int].spec_has(sid) {
                    let k = s2.clients@[i as int].spec_idx(sid);
                    assert(s2.clients@[i as int].sessions@[k].id == sid);
                    if s0.has_client(cid) {
                        assert(s0.clients@[i as int].sessions@[k].id < s0.next_session_id);
                    } else {
                        assert(s2.clients@[i as int].sessions@.len() == 0);
                    }
                }
            }
        }
        let h = WsSessionHolder::new(sid);
        let ghost pre_c = self.clients@[i as int];
        let c = &mut self.clients[i];
        let ok = c.add_session(h);
        proof {
            assert(ok);
            lemma_elem_update(s2.clients@, self.clients@, i as int);
            let m0 = s0.clients_map();
            let m2 = s2.clients_map();
            let cnew = self.clients@[i as int];
            assert(cnew.sessions_map() =~= pre_c.sessions_map().insert(
                sid,
                Seq::<Seq<char>>::empty(),
            ));
            assert(self.clients_map() =~= m2.insert(cid, cnew.sessions_map()));
            if s0.has_client(cid) {
                assert(s2 == ServerContext {
                    next_session_id: (s0.next_session_id + 1) as i64,
                    clients: s0.clients,
                });
                assert(seq_client_idx(s2.clients@, cid) == i);
                assert(m2 == m0) by {
                    assert(map_of_clients(s2.clients@) =~= map_of_clients(s0.clients@));
                }
                assert(m0.dom().contains(cid));
                assert(m0[cid] == pre_c.sessions_map());
                assert(!m0[cid].dom().contains(sid)) by {
                    assert(!pre_c.spec_has(sid));
                }
                assert(self.clients_map() =~= spec_register_map(m0, cid, sid));
            } else {
                assert(!m0.dom().contains(cid));
                assert(m2 =~= m0.insert(cid, Map::<i64, Seq<Seq<char>>>::empty()));
                assert(pre_c.sessions_map() =~= Map::<i64, Seq<Seq<char>>>::empty()) by {
                    assert(pre_c.sessions@.len() == 0);
                    assert forall|x: i64| !pre_c.spec_has(x) by {
                        if pre_c.spec_has(x) {
                            let k = pre_c.spec_idx(x);
                        }
                    }
                }
                assert(self.clients_map() =~= spec_register_map(m0, cid, sid));
            }
            // Well-formedness of the result.
            assert forall|a: int| 0 <= a < self.clients@.len() implies (
            #[trigger] self.clients@[a]).wf() by {
                if a != i {
                    assert(self.clients@[a] == s2.clients@[a]);
                }
            }
            assert forall|a: int, k: int|
                0 <= a < self.clients@.len() && 0 <= k
                    < self.clients@[a].sessions@.len() implies #[trigger] self.clients@[a].sessions@[k].id
                < self.next_session_id by {
                if a != i {
                    assert(self.clients@[a] == s2.clients@[a]);
                    assert(s2.clients@[a].sessions@[k].id < s2.next_session_id);
                } else {
                    let x = self.clients@[a].sessions@[k].id;
                    assert(self.clients@[a].spec_has(x)) by {
                        assert(self.clients@[a].sessions@[k].id == x);
                    }
                    assert(self.clients@[a].sessions_map().dom().contains(x));
                    if x != sid {
                        assert(pre_c.sessions_map().dom().contains(x));
                        assert(pre_c.spec_has(x));
                        let k0 = pre_c.spec_idx(x);
                        assert(s2.clients@[i as int].sessions@[k0].id == x);
                        assert(s2.clients@[i as int].sessions@[k0].id < s2.next_session_id);
                    }
                }
            }
            assert forall|a: int, b: int, k: int, l: int|
                #![trigger self.clients@[a].sessions@[k].id, self.clients@[b].sessions@[l].id]
                0 <= a < self.clients@.len() && 0 <= b < self.clients@.len() && a != b && 0 <= k
                    < self.clients@[a].sessions@.len() && 0 <= l
                    < self.clients@[b].sessions@.len() implies self.clients@[a].sessions@[k].id
                != self.clients@[b].sessions@[l].id by {
                let x = self.clients@[a].sessions@[k].id;
                let y = self.clients@[b].sessions@[l].id;
                if a != i && b != i {
                    assert(self.clients@[a] == s2.clients@[a]);
                    assert(self.clients@[b] == s2.clients@[b]);
                    assert(s2.clients@[a].sessions@[k].id != s2.clients@[b].sessions@[l].id);
                } else if a == i {
                    assert(self.clients@[b] == s2.clients@[b]);
                    assert(s2.clients@[b].sessions@[l].id < s2.next_session_id);
                    // sessions of b existed before the registration
                    assert(y < sid) by {
                        if s0.has_client(cid) {
                            assert(s0.clients@[b].sessions@[l].id < s0.next_session_id);
                        } else {
                            assert(b < s0.clients@.len());
                            assert(s2.clients@[b] == s0.clients@[b]);
                            assert(s0.clients@[b].sessions@[l].id < s0.next_session_id);
                        }
                    }
                    if x == sid {
                        assert(x != y);
                    } else {
                        assert(self.clients@[a].spec_has(x)) by {
                            assert(self.clients@[a].sessions@[k].id == x);
                        }
                        assert(self.clients@[a].sessions_map().dom().contains(x));
                        assert(pre_c.sessions_map().dom().contains(x));
                        assert(pre_c.spec_has(x));
                        let k0 = pre_c.spec_idx(x);
                        assert(s2.clients@[i as int].sessions@[k0].id == x);
                        assert(s2.clients@[i as int].sessions@[k0].id
                            != s2.clients@[b].sessions@[l].id);
                    }
                } else {
                    // b == i: symmetric
                    assert(self.clients@[a] == s2.clients@[a]);
                    assert(s2.clients@[a].sessions@[k].id < s2.next_session_id);
                    assert(x < sid) by {
                        if s0.has_client(cid) {
                            assert(s0.clients@[a].sessions@[k].id < s0.next_session_id);
                        } else {
                            assert(a < s0.clients@.len());
                            assert(s2.clients@[a] == s0.clients@[a]);
                            assert(s0.clients@[a].sessions@[k].id < s0.next_session_id);
                        }
                    }
                    if y == sid {
                        assert(x != y);
                    } else {
                        assert(self.clients@[b].spec_has(y)) by {
                            assert(self.clients@[b].sessions@[l].id == y);
                        }
                        assert(self.clients@[b].sessions_map().dom().contains(y));
                        assert(pre_c.sessions_map().dom().contains(y));
                        assert(pre_c.spec_has(y));
                        let l0 = pre_c.spec_idx(y);
                        assert(s2.clients@[i as int].sessions@[l0].id == y);
                        assert(s2.clients@[i as int].sessions@[l0].id
                            != s2.clients@[a].sessions@[k].id);
                    }
                }
            }
            // No client is left empty.
            if s0.no_empty_clients() {
                assert forall|a: int|
                    0 <= a < self.clients@.len() implies (
                #[trigger] self.clients@[a]).sessions@.len() > 0 by {
                    if a == i {
                        assert(self.clients@[a].sessions@.len() == pre_c.sessions@.len() + 1);
                    } else {
                        assert(self.clients@[a] == s2.clients@[a]);
                        if s0.has_client(cid) {
                            assert(s0.clients@[a].sessions@.len() > 0);
                        } else {
                            assert(a < s0.clients@.len());
                            assert(s2.clients@[a] == s0.clients@[a]);
                            assert(s0.clients@[a].sessions@.len() > 0);
                        }
                    }
                }
            }
        }
        sid
    }
}

} // verus!

verus! {

impl ServerContext {
    /// Remove one session of a client and, when that leaves the client with
    /// no sessions, remove the client in the same critical section: one
    /// atomic compound operation, never two. Unknown client or unknown
    /// session ids leave the registry exactly as it was.
    pub fn remove_client_session(&mut self, client_id: &str, session_id: i64)
        requires
            old(self).wf(),
        ensures
            final(self).wf(),
            final(self).spec_next_id() == old(self).spec_next_id(),
            old(self).no_empty_clients() ==> final(self).no_empty_clients(),
            final(self).clients_map() =~= spec_remove_map(
                old(self).clients_map(),
                client_id@,
                session_id,
            ),
            !old(self).has_client(client_id@) ==> *final(self) == *old(self),
    {
        let ghost s0 = *old(self);
        let ghost cid = client_id@;
        let mut i: usize = 0;
        while i < self.clients.len()
            invariant
                old(self).wf(),
                *self == *old(self),
                s0 == *old(self),
                cid == client_id@,
                0 <= i <= self.clients@.len(),
                forall|k: int| 0 <= k < i ==> self.clients@[k].id@ != client_id@,
            decreases self.clients@.len() - i,
        {
            if str_eq(self.clients[i].id.as_str(), client_id) {
                proof {
                    assert(s0.clients@[i as int].id@ == cid);
                    assert(s0.has_client(cid)) by {
                        assert(s0.clients@[i as int].id@ == cid);
                    }
                }
                let ghost pre_c = self.clients@[i as int];
                let c = &mut self.clients[i];
                c.remove_session(&session_id);
                let ghost s1 = *self;
                proof {
                    lemma_elem_update(s0.clients@, s1.clients@, i as int);
                    assert(s0.clients_map().dom().contains(cid));
                    assert(s0.clients_map()[cid] == pre_c.sessions_map());
                    assert(s1.clients_map() =~= s0.clients_map().insert(
                        cid,
                        pre_c.sessions_map().remove(session_id),
                    ));
                    // s1 satisfies every wf piece: the touched client only
                    // lost a session.
                    assert forall|a: int| 0 <= a < s1.clients@.len() implies (
                    #[trigger] s1.clients@[a]).wf() by {
                        if a != i {
                            assert(s1.clients@[a] == s0.clients@[a]);
                        }
                    }
                    assert forall|a: int, k: int|
                        0 <= a < s1.clients@.len() && 0 <= k
                            < s1.clients@[a].sessions@.len() implies #[trigger] s1.clients@[a].sessions@[k].id
                        < s1.next_session_id by {
                        if a != i {
                            assert(s1.clients@[a] == s0.clients@[a]);
                            assert(s0.clients@[a].sessions@[k].id < s0.next_session_id);
                        } else {
                            let x = s1.clients@[a].sessions@[k].id;
                            assert(s1.clients@[a].spec_has(x)) by {
                                assert(s1.clients@[a].sessions@[k].id == x);
                            }
                            assert(s1.clients@[a].sessions_map().dom().contains(x));
                            assert(pre_c.sessions_map().dom().contains(x));
                            assert(pre_c.spec_has(x));
                            let k0 = pre_c.spec_idx(x);
                            assert(s0.clients@[i as int].sessions@[k0].id == x);
                            assert(s0.clients@[i as int].sessions@[k0].id < s0.next_session_id);
                        }
                    }
                    assert forall|a: int, b: int, k: int, l: int|
                        #![trigger s1.clients@[a].sessions@[k].id, s1.clients@[b].sessions@[l].id]
                        0 <= a < s1.clients@.len() && 0 <= b < s1.clients@.len() && a != b && 0 <= k
                            < s1.clients@[a].sessions@.len() && 0 <= l
                            < s1.clients@[b].sessions@.len() implies s1.clients@[a].sessions@[k].id
                        != s1.clients@[b].sessions@[l].id by {
                        let x = s1.clients@[a].sessions@[k].id;
                        let y = s1.clients@[b].sessions@[l].id;
                        let ka: int = if a == i {
                            assert(s1.clients@[a].spec_has(x)) by {
                                assert(s1.clients@[a].sessions@[k].id == x);
                            }
                            assert(s1.clients@[a].sessions_map().dom().contains(x));
                            assert(pre_c.sessions_map().dom().contains(x));
                            assert(pre_c.spec_has(x));
                            pre_c.spec_idx(x)
                        } else {
                            assert(s1.clients@[a] == s0.clients@[a]);
                            k
                        };
                        let lb: int = if b == i {
                            assert(s1.clients@[b].spec_has(y)) by {
                                assert(s1.clients@[b].sessions@[l].id == y);
                            }
                            assert(s1.clients@[b].sessions_map().dom().contains(y));
                            assert(pre_c.sessions_map().dom().contains(y));
                            assert(pre_c.spec_has(y));
                            pre_c.spec_idx(y)
                        } else {
                            assert(s1.clients@[b] == s0.clients@[b]);
                            l
                        };
                        assert(s0.clients@[a].sessions@[ka].id == x);
                        assert(s0.clients@[b].sessions@[lb].id == y);
                    }
                }
                let now_empty = self.clients[i].empty();
                if now_empty {
                    proof {
                        assert(s1.clients@[i as int].sessions_map().dom().is_empty());
                        assert(s1.clients@[i as int].sessions_map().dom() =~= Set::<i64>::empty());
                    }
                    self.clients.remove(i);
                    proof {
                        lemma_elem_remove(s1.clients@, i as int);
                        assert(s1.clients@[i as int].id@ == cid);
                        assert(self.clients_map() =~= s1.clients_map().remove(cid));
                        assert(self.clients_map() =~= s0.clients_map().remove(cid));
                        assert(pre_c.sessions_map().remove(session_id).dom() =~= Set::<
                            i64,
                        >::empty()) by {
                            assert(s1.clients@[i as int].sessions_map() =~= pre_c.sessions_map()
                                .remove(session_id));
                        }
                        assert(self.clients_map() =~= spec_remove_map(
                            s0.clients_map(),
                            cid,
                            session_id,
                        ));
                        // wf of the shorter sequence.
                        assert forall|a: int| 0 <= a < self.clients@.len() implies (
                        #[trigger] self.clients@[a]).wf() by {
                            let ap: int = if a < i {
                                a
                            } else {
                                a + 1
                            };
                            assert(self.clients@[a] == s1.clients@[ap]);
                        }
                        assert forall|a: int, k: int|
                            0 <= a < self.clients@.len() && 0 <= k
                                < self.clients@[a].sessions@.len() implies #[trigger] self.clients@[a].sessions@[k].id
                            < self.next_session_id by {
                            let ap: int = if a < i {
                                a
                            } else {
                                a + 1
                            };
                            assert(self.clients@[a] == s1.clients@[ap]);
                            assert(s1.clients@[ap].sessions@[k].id < s1.next_session_id);
                        }
                        assert forall|a: int, b: int, k: int, l: int|
                            #![trigger self.clients@[a].sessions@[k].id, self.clients@[b].sessions@[l].id]
                            0 <= a < self.clients@.len() && 0 <= b < self.clients@.len() && a != b
                                && 0 <= k < self.clients@[a].sessions@.len() && 0 <= l
                                < self.clients@[b].sessions@.len() implies self.clients@[a].sessions@[k].id
                            != self.clients@[b].sessions@[l].id by {
                            let ap: int = if a < i {
                                a
                            } else {
                                a + 1
                            };
                            let bp: int = if b < i {
                                b
                            } else {
                                b + 1
                            };
                            assert(self.clients@[a] == s1.clients@[ap]);
                            assert(self.clients@[b] == s1.clients@[bp]);
                            assert(s1.clients@[ap].sessions@[k].id
                                != s1.clients@[bp].sessions@[l].id);
                        }
                        if s0.no_empty_clients() {
                            assert forall|a: int|
                                0 <= a < self.clients@.len() implies (
                            #[trigger] self.clients@[a]).sessions@.len() > 0 by {
                                let ap: int = if a < i {
                                    a
                                } else {
                                    a + 1
                                };
                                assert(self.clients@[a] == s1.clients@[ap]);
                                assert(s1.clients@[ap] == s0.clients@[ap]);
                                assert(s0.clients@[ap].sessions@.len() > 0);
                            }
                        }
                    }
                } else {
                    proof {
                        assert(!s1.clients@[i as int].sessions_map().dom().is_empty());
                        assert(!(pre_c.sessions_map().remove(session_id).dom() =~= Set::<
                            i64,
                        >::empty())) by {
                            assert(s1.clients@[i as int].sessions_map() =~= pre_c.sessions_map()
                                .remove(session_id));
                            if pre_c.sessions_map().remove(session_id).dom() =~= Set::<
                                i64,
                            >::empty() {
                                assert(s1.clients@[i as int].sessions_map().dom() =~= Set::<
                                    i64,
                                >::empty());
                            }
                        }
                        assert(self.clients_map() =~= spec_remove_map(
                            s0.clients_map(),
                            cid,
                            session_id,
                        ));
                        if s0.no_empty_clients() {
                            assert forall|a: int|
                                0 <= a < self.clients@.len() implies (
                            #[trigger] self.clients@[a]).sessions@.len() > 0 by {
                                if a != i {
                                    assert(self.clients@[a] == s0.clients@[a]);
                                    assert(s0.clients@[a].sessions@.len() > 0);
                                } else {
                                    assert(self.clients@[i as int].sessions@.len() > 0);
                                }
                            }
                        }
                    }
                }
                return ;
            }
            i += 1;
        }
        proof {
            assert(!s0.has_client(cid)) by {
                if s0.has_client(cid) {
                    let k = s0.client_idx(cid);
                    assert(s0.clients@[k].id@ == cid);
                }
            }
            assert(!s0.clients_map().dom().contains(cid));
            assert(self.clients_map() =~= spec_remove_map(s0.clients_map(), cid, session_id));
        }
    }

    /// Handle an `UnregisterSession` request: the same compound removal.
    pub fn unregister_session(&mut self, msg: &UnregisterSession)
        requires
            old(self).wf(),
        ensures
            final(self).wf(),
            final(self).spec_next_id() == old(self).spec_next_id(),
            old(self).no_empty_clients() ==> final(self).no_empty_clients(),
            final(self).clients_map() =~= spec_remove_map(
                old(self).clients_map(),
                msg.client_id@,
                msg.id,
            ),
    {
        self.remove_client_session(msg.client_id.as_str(), msg.id);
    }
}

} // verus!

verus! {

impl ServerContext {
    /// Fan one frame out to every session of one client:
    /// each of that client's queues gains the frame (unless full), no other
    /// client's queue changes, and no session appears or disappears. An
    /// unknown client identity is reported and changes nothing.
    pub fn broadcast_to(&mut self, client_id: &String, msg: &String) -> (r: bool)
        requires
            old(self).wf(),
        ensures
            final(self).wf(),
            final(self).spec_next_id() == old(self).spec_next_id(),
            old(self).no_empty_clients() ==> final(self).no_empty_clients(),
            r == old(self).has_client(client_id@),
            !r ==> *final(self) == *old(self),
            final(self).clients_map().dom() == old(self).clients_map().dom(),
            forall|c2: Seq<char>|
                #[trigger] old(self).clients_map().dom().contains(c2) && c2 != client_id@
                    ==> final(self).clients_map()[c2] == old(self).clients_map()[c2],
            r ==> final(self).clients_map()[client_id@].dom() == old(self).clients_map()[
                client_id@].dom(),
            r ==> forall|sid: i64|
                #[trigger] old(self).clients_map()[client_id@].dom().contains(sid)
                    ==> final(self).clients_map()[client_id@][sid] == spec_enqueue(
                    old(self).clients_map()[client_id@][sid],
                    msg@,
                ),
    {
        let ghost s0 = *old(self);
        let ghost cid = client_id@;
        let mut i: usize = 0;
        while i < self.clients.len()
            invariant
                old(self).wf(),
                *self == *old(self),
                s0 == *old(self),
                cid == client_id@,
                0 <= i <= self.clients@.len(),
                forall|k: int| 0 <= k < i ==> self.clients@[k].id@ != client_id@,
            decreases self.clients@.len() - i,
        {
            if self.clients[i].id == *client_id {
                proof {
                    assert(s0.has_client(cid)) by {
                        assert(s0.clients@[i as int].id@ == cid);
                    }
                }
                let ghost pre_c = self.clients@[i as int];
                let c = &mut self.clients[i];
                c.broadcast(msg);
                proof {
                    lemma_elem_update(s0.clients@, self.clients@, i as int);
                    assert(s0.clients_map()[cid] == pre_c.sessions_map());
                    assert(self.clients_map() =~= s0.clients_map().insert(
                        cid,
                        self.clients@[i as int].sessions_map(),
                    ));
                    assert(self.clients_map().dom() =~= s0.clients_map().dom());
lemma_wf_after_elem_update(s0, *self, i as int);
                }
                return true;
            }
            i += 1;
        }
        proof {
            assert(!s0.has_client(cid)) by {
                if s0.has_client(cid) {
                    let k = s0.client_idx(cid);
                    assert(s0.clients@[k].id@ == cid);
                }
            }
        }
        false
    }
}

} // verus!

verus! {

/// Replacing one client by a well-formed one with the same identity, the
/// same number of sessions and the same session ids preserves every
/// registry invariant.
pub proof fn lemma_wf_after_elem_update(s0: ServerContext, s1: ServerContext, i: int)
    requires
        s0.wf(),
        s1.next_session_id == s0.next_session_id,
        s1.clients@.len() == s0.clients@.len(),
        0 <= i < s0.clients@.len(),
        forall|k: int| 0 <= k < s0.clients@.len() && k != i ==> s1.clients@[k] == s0.clients@[k],
        s1.clients@[i].id@ == s0.clients@[i].id@,
        s1.clients@[i].wf(),
        s1.clients@[i].sessions@.len() == s0.clients@[i].sessions@.len(),
        s1.clients@[i].sessions_map().dom() == s0.clients@[i].sessions_map().dom(),
    ensures
        s1.wf(),
        s0.no_empty_clients() ==> s1.no_empty_clients(),
{
    let pre_c = s0.clients@[i];
    assert forall|a: int| 0 <= a < s1.clients@.len() implies (#[trigger] s1.clients@[a]).wf() by {
        if a != i {
            assert(s1.clients@[a] == s0.clients@[a]);
        }
    }
    assert forall|a: int, k: int|
        0 <= a < s1.clients@.len() && 0 <= k
            < s1.clients@[a].sessions@.len() implies #[trigger] s1.clients@[a].sessions@[k].id
        < s1.next_session_id by {
        if a != i {
            assert(s1.clients@[a] == s0.clients@[a]);
            assert(s0.clients@[a].sessions@[k].id < s0.next_session_id);
        } else {
            let x = s1.clients@[a].sessions@[k].id;
            assert(s1.clients@[a].spec_has(x)) by {
                assert(s1.clients@[a].sessions@[k].id == x);
            }
            assert(s1.clients@[a].sessions_map().dom().contains(x));
            assert(pre_c.sessions_map().dom().contains(x));
            assert(pre_c.spec_has(x));
            let k0 = pre_c.spec_idx(x);
            assert(s0.clients@[i].sessions@[k0].id == x);
            assert(s0.clients@[i].sessions@[k0].id < s0.next_session_id);
        }
    }
    assert forall|a: int, b: int, k: int, l: int|
        #![trigger s1.clients@[a].sessions@[k].id, s1.clients@[b].sessions@[l].id]
        0 <= a < s1.clients@.len() && 0 <= b < s1.clients@.len() && a != b && 0 <= k
            < s1.clients@[a].sessions@.len() && 0 <= l
            < s1.clients@[b].sessions@.len() implies s1.clients@[a].sessions@[k].id
        != s1.clients@[b].sessions@[l].id by {
        let x = s1.clients@[a].sessions@[k].id;
        let y = s1.clients@[b].sessions@[l].id;
        let ka: int = if a == i {
            assert(s1.clients@[a].spec_has(x)) by {
                assert(s1.clients@[a].sessions@[k].id == x);
            }
            assert(s1.clients@[a].sessions_map().dom().contains(x));
            assert(pre_c.sessions_map().dom().contains(x));
            assert(pre_c.spec_has(x));
            pre_c.spec_idx(x)
        } else {
            assert(s1.clients@[a] == s0.clients@[a]);
            k
        };
        let lb: int = if b == i {
            assert(s1.clients@[b].spec_has(y)) by {
                assert(s1.clients@[b].sessions@[l].id == y);
            }
            assert(s1.clients@[b].sessions_map().dom().contains(y));
            assert(pre_c.sessions_map().dom().contains(y));
            assert(pre_c.spec_has(y));
            pre_c.spec_idx(y)
        } else {
            assert(s1.clients@[b] == s0.clients@[b]);
            l
        };
        assert(s0.clients@[a].sessions@[ka].id == x);
        assert(s0.clients@[b].sessions@[lb].id == y);
    }
    if s0.no_empty_clients() {
        assert forall|a: int|
            0 <= a < s1.clients@.len() implies (#[trigger] s1.clients@[a]).sessions@.len() > 0 by {
            if a != i {
                assert(s1.clients@[a] == s0.clients@[a]);
                assert(s0.clients@[a].sessions@.len() > 0);
            } else {
                assert(s0.clients@[i].sessions@.len() > 0);
            }
        }
    }
}

impl ServerContext {
    /// Enqueue one frame on exactly one session of one client; every other
    /// queue, session and client is untouched. Returns whether both the
    /// client and that session exist.
    pub fn deliver_to(&mut self, client_id: &String, session_id: i64, msg: &String) -> (r: bool)
        requires
            old(self).wf(),
        ensures
            final(self).wf(),
            final(self).spec_next_id() == old(self).spec_next_id(),
            old(self).no_empty_clients() ==> final(self).no_empty_clients(),
            r == (old(self).has_client(client_id@) && old(self).clients_map()[
                client_id@].dom().contains(session_id)),
            !r ==> final(self).clients_map() == old(self).clients_map(),
            r ==> final(self).clients_map() =~= old(self).clients_map().insert(
                client_id@,
                old(self).clients_map()[client_id@].insert(
                    session_id,
                    spec_enqueue(old(self).clients_map()[client_id@][session_id], msg@),
                ),
            ),
    {
        let ghost s0 = *old(self);
        let ghost cid = client_id@;
        let mut i: usize = 0;
        while i < self.clients.len()
            invariant
                old(self).wf(),
                *self == *old(self),
                s0 == *old(self),
                cid == client_id@,
                0 <= i <= self.clients@.len(),
                forall|k: int| 0 <= k < i ==> self.clients@[k].id@ != client_id@,
            decreases self.clients@.len() - i,
        {
            if self.clients[i].id == *client_id {
                proof {
                    assert(s0.has_client(cid)) by {
                        assert(s0.clients@[i as int].id@ == cid);
                    }
                }
                let ghost pre_c = self.clients@[i as int];
                let c = &mut self.clients[i];
                let found = c.deliver_to(session_id, msg);
                proof {
                    lemma_elem_update(s0.clients@, self.clients@, i as int);
                    assert(s0.clients_map()[cid] == pre_c.sessions_map());
                    assert(self.clients_map() =~= s0.clients_map().insert(
                        cid,
                        self.clients@[i as int].sessions_map(),
                    ));
                    assert(self.clients@[i as int].sessions_map().dom() =~= pre_c.sessions_map(
                    ).dom());
                    lemma_wf_after_elem_update(s0, *self, i as int);
                    if !found {
                        assert(self.clients@[i as int] == pre_c);
                        assert(self.clients_map() =~= s0.clients_map());
                    }
                }
                return found;
            }
            i += 1;
        }
        proof {
            assert(!s0.has_client(cid)) by {
                if s0.has_client(cid) {
                    let k = s0.client_idx(cid);
                    assert(s0.clients@[k].id@ == cid);
                }
            }
        }
        false
    }

    /// Hand out and clear the outbound queue of one session, for the owner
    /// of that session's connection to drain and send.
    pub fn take_outbox(&mut self, client_id: &String, session_id: i64) -> (r: Option<Vec<String>>)
        requires
            old(self).wf(),
        ensures
            final(self).wf(),
            final(self).spec_next_id() == old(self).spec_next_id(),
            old(self).no_empty_clients() ==> final(self).no_empty_clients(),
            r is Some <==> (old(self).has_client(client_id@) && old(self).clients_map()[
                client_id@].dom().contains(session_id)),
            r is None ==> final(self).clients_map() == old(self).clients_map(),
            r is Some ==> r->Some_0@.map_values(|m: String| m@) == old(self).clients_map()[
                client_id@][session_id],
            r is Some ==> final(self).clients_map() =~= old(self).clients_map().insert(
                client_id@,
                old(self).clients_map()[client_id@].insert(session_id, Seq::<Seq<char>>::empty()),
            ),
    {
        let ghost s0 = *old(self);
        let ghost cid = client_id@;
        let mut i: usize = 0;
        while i < self.clients.len()
            invariant
                old(self).wf(),
                *self == *old(self),
                s0 == *old(self),
                cid == client_id@,
                0 <= i <= self.clients@.len(),
                forall|k: int| 0 <= k < i ==> self.clients@[k].id@ != client_id@,
            decreases self.clients@.len() - i,
        {
            if self.clients[i].id == *client_id {
                proof {
                    assert(s0.has_client(cid)) by {
                        assert(s0.clients@[i as int].id@ == cid);
                    }
                }
                let ghost pre_c = self.clients@[i as int];
                let c = &mut self.clients[i];
                let taken = c.take_outbox(session_id);
                proof {
                    lemma_elem_update(s0.clients@, self.clients@, i as int);
                    assert(s0.clients_map()[cid] == pre_c.sessions_map());
                    assert(self.clients_map() =~= s0.clients_map().insert(
                        cid,
                        self.clients@[i as int].sessions_map(),
                    ));
                    assert(self.clients@[i as int].sessions_map().dom() =~= pre_c.sessions_map(
                    ).dom());
                    lemma_wf_after_elem_update(s0, *self, i as int);
                    if taken is None {
                        assert(self.clients@[i as int] == pre_c);
                        assert(self.clients_map() =~= s0.clients_map());
                    }
                }
                return taken;
            }
            i += 1;
        }
        proof {
            assert(!s0.has_client(cid)) by {
                if s0.has_client(cid) {
                    let k = s0.client_idx(cid);
                    assert(s0.clients@[k].id@ == cid);
                }
            }
        }
        None
    }

    /// Invalidate every session of one client in one critical section (the
    /// credential-change path): the client leaves the registry, and the ids
    /// of its sessions are returned so the caller can close each connection.
    pub fn invalidate_client(&mut self, client_id: &String) -> (r: Option<Vec<i64>>)
        requires
            old(self).wf(),
        ensures
            final(self).wf(),
            final(self).spec_next_id() == old(self).spec_next_id(),
            old(self).no_empty_clients() ==> final(self).no_empty_clients(),
            r is Some <==> old(self).has_client(client_id@),
            r is None ==> *final(self) == *old(self),
            r is Some ==> final(self).clients_map() =~= old(self).clients_map().remove(client_id@),
            r is Some ==> forall|sid: i64|
                #[trigger] r->Some_0@.contains(sid) <==> old(self).clients_map()[
                    client_id@].dom().contains(sid),
    {
        let ghost s0 = *old(self);
        let ghost cid = client_id@;
        let mut i: usize = 0;
        while i < self.clients.len()
            invariant
                old(self).wf(),
                *self == *old(self),
                s0 == *old(self),
                cid == client_id@,
                0 <= i <= self.clients@.len(),
                forall|k: int| 0 <= k < i ==> self.clients@[k].id@ != client_id@,
            decreases self.clients@.len() - i,
        {
            if self.clients[i].id == *client_id {
                proof {
                    assert(s0.has_client(cid)) by {
                        assert(s0.clients@[i as int].id@ == cid);
                    }
                    assert(s0.client_idx(cid) == i) by {
                        let k = s0.client_idx(cid);
                        assert(s0.clients@[k].id@ == cid);
                        assert(s0.clients@[i as int].id@ == cid);
                    }
                    assert(s0.clients_map()[cid] == s0.clients@[i as int].sessions_map());
                }
                let ids = self.clients[i].session_ids();
                self.clients.remove(i);
                proof {
                    lemma_elem_remove(s0.clients@, i as int);
                    assert(self.clients_map() =~= s0.clients_map().remove(cid));
                    // Every remaining client is an untouched former client.
                    assert forall|a: int| 0 <= a < self.clients@.len() implies (
                    #[trigger] self.clients@[a]).wf() by {
                        let ap: int = if a < i {
                            a
                        } else {
                            a + 1
                        };
                        assert(self.clients@[a] == s0.clients@[ap]);
                    }
                    assert forall|a: int, k: int|
                        0 <= a < self.clients@.len() && 0 <= k
                            < self.clients@[a].sessions@.len() implies #[trigger] self.clients@[a].sessions@[k].id
                        < self.next_session_id by {
                        let ap: int = if a < i {
                            a
                        } else {
                            a + 1
                        };
                        assert(self.clients@[a] == s0.clients@[ap]);
                        assert(s0.clients@[ap].sessions@[k].id < s0.next_session_id);
                    }
                    assert forall|a: int, b: int, k: int, l: int|
                        #![trigger self.clients@[a].sessions@[k].id, self.clients@[b].sessions@[l].id]
                        0 <= a < self.clients@.len() && 0 <= b < self.clients@.len() && a != b && 0
                            <= k < self.clients@[a].sessions@.len() && 0 <= l
                            < self.clients@[b].sessions@.len() implies self.clients@[a].sessions@[k].id
                        != self.clients@[b].sessions@[l].id by {
                        let ap: int = if a < i {
                            a
                        } else {
                            a + 1
                        };
                        let bp: int = if b < i {
                            b
                        } else {
                            b + 1
                        };
                        assert(self.clients@[a] == s0.clients@[ap]);
                        assert(self.clients@[b] == s0.clients@[bp]);
                        assert(s0.clients@[ap].sessions@[k].id != s0.clients@[bp].sessions@[l].id);
                    }
                    if s0.no_empty_clients() {
                        assert forall|a: int|
                            0 <= a < self.clients@.len() implies (
                        #[trigger] self.clients@[a]).sessions@.len() > 0 by {
                            let ap: int = if a < i {
                                a
                            } else {
                                a + 1
                            };
                            assert(self.clients@[a] == s0.clients@[ap]);
                            assert(s0.clients@[ap].sessions@.len() > 0);
                        }
                    }
                }
                return Some(ids);
            }
            i += 1;
        }
        proof {
            assert(!s0.has_client(cid)) by {
                if s0.has_client(cid) {
                    let k = s0.client_idx(cid);
                    assert(s0.clients@[k].id@ == cid);
                }
            }
        }
        None
    }
}

} // verus!
