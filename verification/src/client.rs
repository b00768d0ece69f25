//! One logical client and the set of its live sessions.
//!
//! A `Client` owns every session registered under one client identity. Each
//! session is held as a `WsSessionHolder`: the process-unique session id and
//! the session's outbound queue. The queue is bounded: enqueueing to a full
//! queue drops the message rather than blocking, so no send can stall the
//! registry's critical section.
//!
//! The mathematical model of a `Client` is `sessions_map()`: a map from
//! session id to the sequence of queued outbound frames.

use vstd::prelude::*;

verus! {

/// Most frames an outbound queue holds before further sends are dropped.
pub const OUTBOX_CAP: usize = 64;

/// A session as registered inside a `Client`: its unique id and its
/// outbound channel, modelled as a bounded queue of text frames.
pub struct WsSessionHolder {
    pub id: i64,
    pub outbox: Vec<String>,
}

/// Request to add one session to a client.
pub struct Register {
    pub holder: WsSessionHolder,
}

/// Request to drop one session from a client.
pub struct Unregister {
    pub id: i64,
}

/// What enqueueing one frame does to a bounded outbound queue: the frame is
/// appended when there is room and dropped otherwise.
pub open spec fn spec_enqueue(q: Seq<Seq<char>>, m: Seq<char>) -> Seq<Seq<char>> {
    if q.len() < OUTBOX_CAP {
        q.push(m)
    } else {
        q
    }
}

impl WsSessionHolder {
    /// The queue's mathematical value: the views of the queued frames.
    pub open spec fn queue(&self) -> Seq<Seq<char>> {
        self.outbox@.map_values(|m: String| m@)
    }

    /// A fresh holder with an empty outbound queue.
    pub fn new(id: i64) -> (h: WsSessionHolder)
        ensures
            h.id == id,
            h.queue() == Seq::<Seq<char>>::empty(),
    {
        let h = WsSessionHolder { id, outbox: Vec::new() };
        proof {
            assert(h.queue() =~= Seq::<Seq<char>>::empty());
        }
        h
    }

    /// Enqueue one frame, dropping it if the queue is full.
    pub fn enqueue(&mut self, msg: &String)
        ensures
            final(self).id == old(self).id,
            final(self).queue() == spec_enqueue(old(self).queue(), msg@),
    {
        if self.outbox.len() < OUTBOX_CAP {
            self.outbox.push(msg.clone());
            proof {
                assert(self.queue() =~= old(self).queue().push(msg@));
            }
        } else {
            proof {
                assert(self.queue() =~= old(self).queue());
            }
        }
    }
}

/// One logical client identity and all of its live sessions.
pub struct Client {
    pub id: String,
    pub sessions: Vec<WsSessionHolder>,
}

impl Client {
    /// No two held sessions share an id.
    pub open spec fn wf(&self) -> bool {
        forall|i: int, j: int|
            0 <= i < j < self.sessions@.len() ==> self.sessions@[i].id != self.sessions@[j].id
    }

    /// Whether a session with this id is held.
    pub open spec fn spec_has(&self, sid: i64) -> bool {
        exists|i: int| 0 <= i < self.sessions@.len() && self.sessions@[i].id == sid
    }

    /// The index holding the session with this id (unique under `wf`).
    pub open spec fn spec_idx(&self, sid: i64) -> int {
        choose|i: int| 0 <= i < self.sessions@.len() && self.sessions@[i].id == sid
    }

    /// The model: session id, to the queue of outbound frames of that session.
    pub open spec fn sessions_map(&self) -> Map<i64, Seq<Seq<char>>> {
        Map::new(
            |sid: i64| self.spec_has(sid),
            |sid: i64| self.sessions@[self.spec_idx(sid)].queue(),
        )
    }

    pub fn new(id: String) -> (c: Client)
        ensures
            c.wf(),
            c.id@ == id@,
            c.sessions_map() =~= Map::<i64, Seq<Seq<char>>>::empty(),
            c.sessions@.len() == 0,
    {
        let c = Client { id, sessions: Vec::new() };
        proof {
            assert(c.sessions_map() =~= Map::<i64, Seq<Seq<char>>>::empty());
        }
        c
    }

    /// Add a session. Refused (returning `false`, state unchanged) when a
    /// session with the same id is already held; the allocator's uniqueness
    /// makes that unreachable in the assembled hub, so the check is defensive.
    pub fn add_session(&mut self, session: WsSessionHolder) -> (r: bool)
        requires
            old(self).wf(),
        ensures
            final(self).wf(),
            final(self).id == old(self).id,
            r == !old(self).spec_has(session.id),
            !r ==> *final(self) == *old(self),
            r ==> final(self).sessions_map() =~= old(self).sessions_map().insert(
                session.id,
                session.queue(),
            ),
            final(self).sessions@.len() == old(self).sessions@.len() + (
            if r {
                1int
            } else {
                0int
            }),
    {
        let mut i: usize = 0;
        while i < self.sessions.len()
            invariant
                old(self).wf(),
                *self == *old(self),
                0 <= i <= self.sessions@.len(),
                forall|k: int| 0 <= k < i ==> self.sessions@[k].id != session.id,
            decreases self.sessions@.len() - i,
        {
            if self.sessions[i].id == session.id {
                proof {
                    assert(old(self).spec_has(session.id)) by {
                        assert(old(self).sessions@[i as int].id == session.id);
                    }
                }
                return false;
            }
            i += 1;
        }
        let ghost pre = *self;
        let ghost sid = session.id;
        let ghost q = session.queue();
        proof {
            assert(pre == *old(self));
            assert(!pre.spec_has(sid)) by {
                if pre.spec_has(sid) {
                    let k = pre.spec_idx(sid);
                    assert(pre.sessions@[k].id == sid);
                }
            }
        }
        self.sessions.push(session);
        proof {
            assert(self.spec_has(sid)) by {
                assert(self.sessions@[pre.sessions@.len() as int].id == sid);
            }
            assert forall|s2: i64| #[trigger] pre.spec_has(s2) implies self.spec_has(s2)
                && self.spec_idx(s2) == pre.spec_idx(s2) by {
                let k = pre.spec_idx(s2);
                assert(pre.sessions@[k].id == s2);
                assert(self.sessions@[k].id == s2);
                let k2 = self.spec_idx(s2);
                if k2 < pre.sessions@.len() {
                    assert(pre.sessions@[k2].id == s2);
                } else {
                    assert(self.sessions@[k2].id == sid);
                }
            }
            assert forall|s2: i64| #[trigger] self.spec_has(s2) && s2 != sid implies pre.spec_has(
                s2,
            ) by {
                let k = self.spec_idx(s2);
                assert(self.sessions@[k].id == s2);
                assert(k < pre.sessions@.len());
                assert(pre.sessions@[k].id == s2);
            }
            assert(self.spec_idx(sid) == pre.sessions@.len()) by {
                let k = self.spec_idx(sid);
                assert(self.sessions@[k].id == sid);
                if k < pre.sessions@.len() {
                    assert(pre.sessions@[k].id == sid);
                }
            }
            assert(self.sessions_map() =~= pre.sessions_map().insert(sid, q));
        }
        true
    }

    /// Drop the session with this id; a no-op when no such session is held.
    pub fn remove_session(&mut self, session_id: &i64)
        requires
            old(self).wf(),
        ensures
            final(self).wf(),
            final(self).id == old(self).id,
            final(self).sessions_map() =~= old(self).sessions_map().remove(*session_id),
            old(self).spec_has(*session_id) ==> final(self).sessions@.len() == old(
                self,
            ).sessions@.len() - 1,
            !old(self).spec_has(*session_id) ==> *final(self) == *old(self),
    {
        let mut i: usize = 0;
        while i < self.sessions.len()
            invariant
                old(self).wf(),
                *self == *old(self),
                0 <= i <= self.sessions@.len(),
                forall|k: int| 0 <= k < i ==> self.sessions@[k].id != *session_id,
            decreases self.sessions@.len() - i,
        {
            if self.sessions[i].id == *session_id {
                let ghost pre = *self;
                let ghost s = *session_id;
                proof {
                    assert(pre.sessions@[i as int].id == s);
                    assert(pre.spec_has(s));
                }
                self.sessions.remove(i);
                proof {
                    assert(pre.spec_idx(s) == i) by {
                        let k = pre.spec_idx(s);
                        assert(pre.sessions@[k].id == s);
                        assert(pre.sessions@[i as int].id == s);
                    }
                    assert forall|s2: i64| #[trigger] self.spec_has(s2) implies pre.spec_has(s2)
                        && s2 != s && self.sessions@[self.spec_idx(s2)].queue()
                        == pre.sessions@[pre.spec_idx(s2)].queue() by {
                        let k = self.spec_idx(s2);
                        assert(self.sessions@[k].id == s2);
                        let kp: int = if k < i { k } else { k + 1 };
                        assert(pre.sessions@[kp].id == s2);
                        assert(pre.sessions@[i as int].id == s);
                        assert(pre.spec_idx(s2) == kp) by {
                            let k2 = pre.spec_idx(s2);
                            assert(pre.sessions@[k2].id == s2);
                        }
                    }
                    assert forall|s2: i64| #[trigger] pre.spec_has(s2) && s2 != s implies
                    self.spec_has(s2) by {
                        let kp = pre.spec_idx(s2);
                        assert(pre.sessions@[kp].id == s2);
                        assert(pre.sessions@[i as int].id == s);
                        let k: int = if kp < i {
                            kp
                        } else {
                            kp - 1
                        };
                        assert(self.sessions@[k].id == s2);
                    }
                    assert(self.sessions_map() =~= pre.sessions_map().remove(s));
                }
                return ;
            }
            i += 1;
        }
        proof {
            assert(!old(self).spec_has(*session_id)) by {
                if old(self).spec_has(*session_id) {
                    let k = old(self).spec_idx(*session_id);
                    assert(old(self).sessions@[k].id == *session_id);
                }
            }
            assert(self.sessions_map() =~= old(self).sessions_map().remove(*session_id));
        }
    }

    /// Whether no session at all is held.
    pub fn empty(&self) -> (r: bool)
        ensures
            r == self.sessions_map().dom().is_empty(),
            r == (self.sessions@.len() == 0),
    {
        let r = self.sessions.len() == 0;
        proof {
            if r {
                assert forall|sid: i64| !self.spec_has(sid) by {
                    if self.spec_has(sid) {
                        let k = self.spec_idx(sid);
                        assert(0 <= k < self.sessions@.len());
                    }
                }
                assert(self.sessions_map().dom() =~= Set::<i64>::empty());
            } else {
                assert(self.spec_has(self.sessions@[0].id));
                assert(self.sessions_map().dom().contains(self.sessions@[0].id));
            }
        }
        r
    }

    /// With the same session ids at the same positions as `pre`, the model
    /// map has the same domain and picks values at the same indices.
    proof fn lemma_same_ids(&self, pre: Client)
        requires
            pre.wf(),
            self.sessions@.len() == pre.sessions@.len(),
            forall|k: int|
                0 <= k < self.sessions@.len() ==> self.sessions@[k].id == pre.sessions@[k].id,
        ensures
            self.wf(),
            forall|sid: i64| #[trigger] self.spec_has(sid) <==> pre.spec_has(sid),
            forall|sid: i64| #[trigger]
                pre.spec_has(sid) ==> self.spec_idx(sid) == pre.spec_idx(sid) && 0 <= pre.spec_idx(
                    sid,
                ) < pre.sessions@.len() && pre.sessions@[pre.spec_idx(sid)].id == sid,
    {
        assert forall|sid: i64| #[trigger] self.spec_has(sid) implies pre.spec_has(sid) by {
            let k = self.spec_idx(sid);
            assert(self.sessions@[k].id == sid);
            assert(pre.sessions@[k].id == sid);
        }
        assert forall|sid: i64| #[trigger] pre.spec_has(sid) implies self.spec_has(sid)
            && self.spec_idx(sid) == pre.spec_idx(sid) && pre.sessions@[pre.spec_idx(sid)].id
            == sid by {
            let k = pre.spec_idx(sid);
            assert(pre.sessions@[k].id == sid);
            assert(self.sessions@[k].id == sid);
            let k2 = self.spec_idx(sid);
            assert(self.sessions@[k2].id == sid);
            assert(pre.sessions@[k2].id == sid);
        }
    }

    /// Enqueue one frame on every held session's outbound queue (dropping it
    /// at queues that are full). No session appears or disappears, and no
    /// other client state changes.
    pub fn broadcast(&mut self, msg: &String)
        requires
            old(self).wf(),
        ensures
            final(self).wf(),
            final(self).id == old(self).id,
            final(self).sessions@.len() == old(self).sessions@.len(),
            final(self).sessions_map().dom() == old(self).sessions_map().dom(),
            forall|sid: i64| #[trigger]
                old(self).spec_has(sid) ==> final(self).sessions_map()[sid] == spec_enqueue(
                    old(self).sessions_map()[sid],
                    msg@,
                ),
    {
        let mut i: usize = 0;
        while i < self.sessions.len()
            invariant
                old(self).wf(),
                self.id == old(self).id,
                self.sessions@.len() == old(self).sessions@.len(),
                0 <= i <= self.sessions@.len(),
                forall|k: int|
                    0 <= k < self.sessions@.len() ==> self.sessions@[k].id == old(
                        self,
                    ).sessions@[k].id,
                forall|k: int|
                    0 <= k < i ==> self.sessions@[k].queue() == spec_enqueue(
                        old(self).sessions@[k].queue(),
                        msg@,
                    ),
                forall|k: int|
                    i <= k < self.sessions@.len() ==> self.sessions@[k].queue() == old(
                        self,
                    ).sessions@[k].queue(),
            decreases self.sessions@.len() - i,
        {
            let h = &mut self.sessions[i];
            h.enqueue(msg);
            i += 1;
        }
        proof {
            self.lemma_same_ids(*old(self));
            assert(self.sessions_map().dom() =~= old(self).sessions_map().dom());
        }
    }

    /// Enqueue one frame on exactly the session with this id, returning
    /// whether such a session was held; every other queue is untouched.
    pub fn deliver_to(&mut self, session_id: i64, msg: &String) -> (r: bool)
        requires
            old(self).wf(),
        ensures
            final(self).wf(),
            final(self).id == old(self).id,
            final(self).sessions@.len() == old(self).sessions@.len(),
            r == old(self).spec_has(session_id),
            !r ==> *final(self) == *old(self),
            r ==> final(self).sessions_map() =~= old(self).sessions_map().insert(
                session_id,
                spec_enqueue(old(self).sessions_map()[session_id], msg@),
            ),
    {
        let mut i: usize = 0;
        while i < self.sessions.len()
            invariant
                old(self).wf(),
                *self == *old(self),
                0 <= i <= self.sessions@.len(),
                forall|k: int| 0 <= k < i ==> self.sessions@[k].id != session_id,
            decreases self.sessions@.len() - i,
        {
            if self.sessions[i].id == session_id {
                let ghost pre = *self;
                proof {
                    assert(pre == *old(self));
                    assert(pre.sessions@[i as int].id == session_id);
                    assert(pre.spec_has(session_id));
                    assert(pre.spec_idx(session_id) == i) by {
                        let k = pre.spec_idx(session_id);
                        assert(pre.sessions@[k].id == session_id);
                    }
                }
                let h = &mut self.sessions[i];
                h.enqueue(msg);
                proof {
                    self.lemma_same_ids(pre);
                    assert(self.sessions_map() =~= pre.sessions_map().insert(
                        session_id,
                        spec_enqueue(pre.sessions_map()[session_id], msg@),
                    ));
                }
                return true;
            }
            i += 1;
        }
        proof {
            assert(!old(self).spec_has(session_id)) by {
                if old(self).spec_has(session_id) {
                    let k = old(self).spec_idx(session_id);
                    assert(old(self).sessions@[k].id == session_id);
                }
            }
        }
        false
    }

    /// The ids of every held session, in internal order.
    pub fn session_ids(&self) -> (r: Vec<i64>)
        ensures
            r@.len() == self.sessions@.len(),
            forall|k: int| 0 <= k < r@.len() ==> r@[k] == self.sessions@[k].id,
            forall|sid: i64| #[trigger] self.spec_has(sid) <==> r@.contains(sid),
    {
        let mut r: Vec<i64> = Vec::new();
        let mut i: usize = 0;
        while i < self.sessions.len()
            invariant
                0 <= i <= self.sessions@.len(),
                r@.len() == i,
                forall|k: int| 0 <= k < i ==> r@[k] == self.sessions@[k].id,
            decreases self.sessions@.len() - i,
        {
            r.push(self.sessions[i].id);
            i += 1;
        }
        proof {
            assert forall|sid: i64| #[trigger] self.spec_has(sid) implies r@.contains(sid) by {
                let k = self.spec_idx(sid);
                assert(self.sessions@[k].id == sid);
                assert(r@[k] == sid);
            }
            assert forall|sid: i64| r@.contains(sid) implies self.spec_has(sid) by {
                let k = choose|k: int| 0 <= k < r@.len() && r@[k] == sid;
                assert(self.sessions@[k].id == sid);
            }
        }
        r
    }

    /// Hand out and clear the outbound queue of one session, or `None` when
    /// no session with this id is held.
    pub fn take_outbox(&mut self, session_id: i64) -> (r: Option<Vec<String>>)
        requires
            old(self).wf(),
        ensures
            final(self).wf(),
            final(self).id == old(self).id,
            final(self).sessions@.len() == old(self).sessions@.len(),
            r is Some <==> old(self).spec_has(session_id),
            r is None ==> *final(self) == *old(self),
            r is Some ==> r->Some_0@.map_values(|m: String| m@)
                == old(self).sessions_map()[session_id],
            r is Some ==> final(self).sessions_map() =~= old(self).sessions_map().insert(
                session_id,
                Seq::<Seq<char>>::empty(),
            ),
    {
        let mut i: usize = 0;
        while i < self.sessions.len()
            invariant
                old(self).wf(),
                *self == *old(self),
                0 <= i <= self.sessions@.len(),
                forall|k: int| 0 <= k < i ==> self.sessions@[k].id != session_id,
            decreases self.sessions@.len() - i,
        {
            if self.sessions[i].id == session_id {
                let ghost pre = *self;
                proof {
                    assert(pre == *old(self));
                    assert(pre.sessions@[i as int].id == session_id);
                    assert(pre.spec_has(session_id));
                    assert(pre.spec_idx(session_id) == i) by {
                        let k = pre.spec_idx(session_id);
                        assert(pre.sessions@[k].id == session_id);
                    }
                }
                let h = &mut self.sessions[i];
                let mut taken: Vec<String> = Vec::new();
                core::mem::swap(&mut taken, &mut h.outbox);
                proof {
                    self.lemma_same_ids(pre);
                    assert(self.spec_idx(session_id) == i);
                    assert(self.sessions@[i as int].queue() =~= Seq::<Seq<char>>::empty());
                    assert(self.sessions_map() =~= pre.sessions_map().insert(
                        session_id,
                        Seq::<Seq<char>>::empty(),
                    ));
                }
                return Some(taken);
            }
            i += 1;
        }
        proof {
            assert(!old(self).spec_has(session_id)) by {
                if old(self).spec_has(session_id) {
                    let k = old(self).spec_idx(session_id);
                    assert(old(self).sessions@[k].id == session_id);
                }
            }
        }
        None
    }

    /// Mirrors the client's handling of a `Register` request.
    pub fn register(&mut self, msg: Register) -> (r: bool)
        requires
            old(self).wf(),
        ensures
            final(self).wf(),
            final(self).id == old(self).id,
            r == !old(self).spec_has(msg.holder.id),
            !r ==> final(self).sessions_map() == old(self).sessions_map(),
            r ==> final(self).sessions_map() =~= old(self).sessions_map().insert(
                msg.holder.id,
                msg.holder.queue(),
            ),
    {
        self.add_session(msg.holder)
    }

    /// Mirrors the client's handling of an `Unregister` request: drop the
    /// session and report whether the client is now empty.
    pub fn unregister(&mut self, msg: Unregister) -> (r: bool)
        requires
            old(self).wf(),
        ensures
            final(self).wf(),
            final(self).id == old(self).id,
            final(self).sessions_map() =~= old(self).sessions_map().remove(msg.id),
            r == final(self).sessions_map().dom().is_empty(),
    {
        self.remove_session(&msg.id);
        self.empty()
    }
}

} // verus!
