//! Laws of the registry's transitions.
//!
//! The registry operations' contracts describe each step through
//! `spec_register_map` and `spec_remove_map`; the lemmas here state what
//! those steps guarantee across calls: harmless unknown removals, globally
//! unique session ids, no window in which a client exists empty, and the
//! clean death and rebirth of a client.

use vstd::prelude::*;

use crate::context::{spec_register_map, spec_remove_map, RegistryMap, ServerContext};

verus! {

/// No client entry of this registry model is empty.
pub open spec fn map_no_empty(m: RegistryMap) -> bool {
    forall|c: Seq<char>| #[trigger] m.dom().contains(c) ==> !m[c].dom().is_empty()
}

/// Unregistering a session id that is not registered under the identity
/// changes nothing at all: the unknown-client and unknown-session paths are
/// harmless.
pub proof fn lemma_unregister_unknown_is_noop(m: RegistryMap, cid: Seq<char>, sid: i64)
    requires
        map_no_empty(m),
        m.dom().contains(cid) ==> !m[cid].dom().contains(sid),
    ensures
        spec_remove_map(m, cid, sid) =~~= m,
{
    if m.dom().contains(cid) {
        assert(m[cid].remove(sid) =~= m[cid]);
        assert(!(m[cid].remove(sid).dom() =~= Set::<i64>::empty())) by {
            assert(!m[cid].dom().is_empty());
        }
        assert(m.insert(cid, m[cid].remove(sid)) =~~= m);
    }
}

/// The ids a run of allocations returns. `next_id` returns its counter and
/// advances it by one, so `n` allocations from counter `start` return
/// `start`, `start + 1`, and so on.
pub open spec fn alloc_ids(start: int, n: nat) -> Seq<int> {
    Seq::new(n, |k: int| start + k)
}

/// Any number of session-id allocations returns pairwise distinct values.
pub proof fn lemma_alloc_ids_distinct(start: int, n: nat)
    ensures
        forall|i: int, j: int|
            0 <= i < j < n ==> alloc_ids(start, n)[i] != alloc_ids(start, n)[j],
{
}

/// The next id the allocator will hand out is registered nowhere in the
/// directory, so registering under it can never collide with a live
/// session.
pub proof fn lemma_fresh_id_unregistered(ctx: ServerContext)
    requires
        ctx.wf(),
    ensures
        forall|cid: Seq<char>| #[trigger]
            ctx.clients_map().dom().contains(cid) ==> !ctx.clients_map()[cid].dom().contains(
                ctx.spec_next_id(),
            ),
{
    assert forall|cid: Seq<char>| #[trigger] ctx.clients_map().dom().contains(cid) implies !ctx.clients_map()[cid].dom().contains(ctx.spec_next_id()) by {
        let i = ctx.client_idx(cid);
        assert(ctx.clients@[i].id@ == cid);
        if ctx.clients_map()[cid].dom().contains(ctx.spec_next_id()) {
            let c = ctx.clients@[i];
            assert(c.spec_has(ctx.spec_next_id()));
            let k = c.spec_idx(ctx.spec_next_id());
            assert(ctx.clients@[i].sessions@[k].id == ctx.spec_next_id());
            assert(ctx.clients@[i].sessions@[k].id < ctx.spec_next_id());
        }
    }
}

/// A session id belongs to at most one client: two different registered
/// client identities never share a session id.
pub proof fn lemma_session_owned_once(ctx: ServerContext, c1: Seq<char>, c2: Seq<char>, sid: i64)
    requires
        ctx.wf(),
        c1 != c2,
        ctx.clients_map().dom().contains(c1),
        ctx.clients_map().dom().contains(c2),
    ensures
        !(ctx.clients_map()[c1].dom().contains(sid) && ctx.clients_map()[c2].dom().contains(sid)),
{
    if ctx.clients_map()[c1].dom().contains(sid) && ctx.clients_map()[c2].dom().contains(sid) {
        let i1 = ctx.client_idx(c1);
        let i2 = ctx.client_idx(c2);
        assert(ctx.clients@[i1].id@ == c1);
        assert(ctx.clients@[i2].id@ == c2);
        let e1 = ctx.clients@[i1];
        let e2 = ctx.clients@[i2];
        assert(e1.spec_has(sid));
        assert(e2.spec_has(sid));
        let k1 = e1.spec_idx(sid);
        let k2 = e2.spec_idx(sid);
        assert(ctx.clients@[i1].sessions@[k1].id == sid);
        assert(ctx.clients@[i2].sessions@[k2].id == sid);
        assert(i1 != i2);
    }
}

/// No stale-empty window: a registration for a client racing with the
/// removal of that client's last earlier session ends with the new session
/// registered, in whichever order the two operations are linearized. The
/// new session lands either in the surviving client entry or in a freshly
/// created one; it is never lost against an entry being deleted.
pub proof fn lemma_no_stale_empty_window(m: RegistryMap, cid: Seq<char>, s_old: i64, s_new: i64)
    requires
        s_new != s_old,
    ensures
        ({
            let after = spec_register_map(spec_remove_map(m, cid, s_old), cid, s_new);
            after.dom().contains(cid) && after[cid].dom().contains(s_new)
        }),
        ({
            let after = spec_remove_map(spec_register_map(m, cid, s_new), cid, s_old);
            after.dom().contains(cid) && after[cid].dom().contains(s_new)
        }),
{
    let m1 = spec_remove_map(m, cid, s_old);
    let a1 = spec_register_map(m1, cid, s_new);
    assert(a1.dom().contains(cid));
    assert(a1[cid].dom().contains(s_new));
    let m2 = spec_register_map(m, cid, s_new);
    assert(m2.dom().contains(cid));
    assert(m2[cid].dom().contains(s_new));
    let a2 = spec_remove_map(m2, cid, s_old);
    let inner = m2[cid].remove(s_old);
    assert(inner.dom().contains(s_new));
    assert(!(inner.dom() =~= Set::<i64>::empty()));
    assert(a2 == m2.insert(cid, inner));
    assert(a2.dom().contains(cid));
    assert(a2[cid].dom().contains(s_new));
}

/// Client lifecycle: when a client's last session unregisters, the client
/// itself leaves the registry in the same step, and a later registration
/// under the same identity creates a fresh client holding exactly the new
/// session.
pub proof fn lemma_client_lifecycle(m: RegistryMap, cid: Seq<char>, sid: i64, s_new: i64)
    requires
        m.dom().contains(cid),
        m[cid].dom() =~= set![sid],
    ensures
        !spec_remove_map(m, cid, sid).dom().contains(cid),
        ({
            let reborn = spec_register_map(spec_remove_map(m, cid, sid), cid, s_new);
            reborn.dom().contains(cid) && reborn[cid] =~= Map::<i64, Seq<Seq<char>>>::empty()
                .insert(s_new, Seq::<Seq<char>>::empty())
        }),
{
    let inner = m[cid].remove(sid);
    assert(inner.dom() =~= Set::<i64>::empty()) by {
        assert forall|x: i64| !inner.dom().contains(x) by {
            if inner.dom().contains(x) {
                assert(m[cid].dom().contains(x));
                assert(x == sid);
            }
        }
    }
    let m1 = spec_remove_map(m, cid, sid);
    assert(m1 == m.remove(cid));
    assert(!m1.dom().contains(cid));
    let reborn = spec_register_map(m1, cid, s_new);
    assert(reborn[cid] =~= Map::<i64, Seq<Seq<char>>>::empty().insert(
        s_new,
        Seq::<Seq<char>>::empty(),
    ));
}

} // verus!
