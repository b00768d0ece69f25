use bookmaker::client::{Client, Register, Unregister, WsSessionHolder, OUTBOX_CAP};
use bookmaker::context::{RegisterSession, ServerContext, UnregisterSession};

fn register(ctx: &mut ServerContext, client_id: &str) -> i64 {
    ctx.register_session(RegisterSession { client_id: client_id.to_string() })
}

#[test]
fn session_ids_are_distinct() {
    let mut ctx = ServerContext::new();
    let mut seen: Vec<i64> = Vec::new();
    for k in 0..50 {
        let id = if k % 2 == 0 { register(&mut ctx, "alice") } else { register(&mut ctx, "bob") };
        assert!(!seen.contains(&id), "id {id} handed out twice");
        seen.push(id);
    }
}

#[test]
fn allocator_is_independent_of_the_client_map() {
    let mut ctx = ServerContext::new();
    let a = ctx.next_id();
    let b = ctx.next_id();
    assert_ne!(a, b);
    assert!(ctx.get_client(&"nobody".to_string()).is_none());
}

#[test]
fn register_then_lookup() {
    let mut ctx = ServerContext::new();
    let sid = register(&mut ctx, "alice");
    assert!(sid >= 0);
    assert!(ctx.get_client(&"alice".to_string()).is_some());
    assert!(ctx.get_client(&"bob".to_string()).is_none());
    let sid2 = register(&mut ctx, "alice");
    assert_ne!(sid, sid2);
}

#[test]
fn unregister_unknown_client_is_harmless() {
    let mut ctx = ServerContext::new();
    let sid = register(&mut ctx, "alice");
    ctx.remove_client_session("nobody", 12345);
    ctx.remove_client_session("alice", sid + 999);
    // The registry still works and alice's session is still there.
    assert!(ctx.get_client(&"alice".to_string()).is_some());
    assert!(ctx.deliver_to(&"alice".to_string(), sid, &"still-here".to_string()));
    let drained = ctx.take_outbox(&"alice".to_string(), sid).expect("session present");
    assert_eq!(drained, vec!["still-here".to_string()]);
}

#[test]
fn client_disappears_with_its_last_session() {
    let mut ctx = ServerContext::new();
    let alice = "alice".to_string();
    let s1 = register(&mut ctx, "alice");
    let s2 = register(&mut ctx, "alice");
    ctx.remove_client_session("alice", s1);
    assert!(ctx.get_client(&alice).is_some(), "one session left");
    ctx.remove_client_session("alice", s2);
    assert!(ctx.get_client(&alice).is_none(), "last session gone, client gone");
    // A later registration creates a fresh client.
    let s3 = register(&mut ctx, "alice");
    assert!(ctx.get_client(&alice).is_some());
    assert_ne!(s3, s2, "session ids are never reused");
}

#[test]
fn reregistration_races_with_removal_of_last_session() {
    // Remove-last then register, under the one lock: the new session is
    // never lost against a client entry being deleted.
    let mut ctx = ServerContext::new();
    let alice = "alice".to_string();
    let s_old = register(&mut ctx, "alice");
    ctx.remove_client_session("alice", s_old);
    let s_new = register(&mut ctx, "alice");
    assert!(ctx.get_client(&alice).is_some());
    assert!(ctx.deliver_to(&alice, s_new, &"m".to_string()));
    // The other linearization: register the new session first, then remove
    // the old one; the client must survive with the new session.
    let mut ctx2 = ServerContext::new();
    let t_old = register(&mut ctx2, "alice");
    let t_new = register(&mut ctx2, "alice");
    ctx2.remove_client_session("alice", t_old);
    assert!(ctx2.get_client(&alice).is_some());
    assert!(ctx2.deliver_to(&alice, t_new, &"m".to_string()));
}

#[test]
fn broadcast_reaches_every_session_of_the_client_and_nobody_else() {
    let mut ctx = ServerContext::new();
    let alice = "alice".to_string();
    let bob = "bob".to_string();
    let a1 = register(&mut ctx, "alice");
    let a2 = register(&mut ctx, "alice");
    let b1 = register(&mut ctx, "bob");
    assert!(ctx.broadcast_to(&alice, &"news".to_string()));
    assert_eq!(ctx.take_outbox(&alice, a1).unwrap(), vec!["news".to_string()]);
    assert_eq!(ctx.take_outbox(&alice, a2).unwrap(), vec!["news".to_string()]);
    assert_eq!(ctx.take_outbox(&bob, b1).unwrap(), Vec::<String>::new());
    assert!(!ctx.broadcast_to(&"carol".to_string(), &"nobody listens".to_string()));
}

#[test]
fn deliver_to_reaches_exactly_one_session() {
    let mut ctx = ServerContext::new();
    let alice = "alice".to_string();
    let a1 = register(&mut ctx, "alice");
    let a2 = register(&mut ctx, "alice");
    assert!(ctx.deliver_to(&alice, a2, &"just-you".to_string()));
    assert!(!ctx.deliver_to(&alice, a2 + 17, &"no such session".to_string()));
    assert_eq!(ctx.take_outbox(&alice, a1).unwrap(), Vec::<String>::new());
    assert_eq!(ctx.take_outbox(&alice, a2).unwrap(), vec!["just-you".to_string()]);
}

#[test]
fn unregister_session_request_removes_the_session() {
    let mut ctx = ServerContext::new();
    let sid = register(&mut ctx, "alice");
    ctx.unregister_session(&UnregisterSession { id: sid, client_id: "alice".to_string() });
    assert!(ctx.get_client(&"alice".to_string()).is_none());
}

#[test]
fn invalidate_client_closes_every_session() {
    let mut ctx = ServerContext::new();
    let alice = "alice".to_string();
    let a1 = register(&mut ctx, "alice");
    let a2 = register(&mut ctx, "alice");
    let b1 = register(&mut ctx, "bob");
    let mut ids = ctx.invalidate_client(&alice).expect("alice was registered");
    ids.sort();
    let mut want = vec![a1, a2];
    want.sort();
    assert_eq!(ids, want);
    assert!(ctx.get_client(&alice).is_none());
    assert!(ctx.deliver_to(&"bob".to_string(), b1, &"unaffected".to_string()));
    assert!(ctx.invalidate_client(&"carol".to_string()).is_none());
}

#[test]
fn outbox_is_bounded_enqueue_or_drop() {
    let mut ctx = ServerContext::new();
    let alice = "alice".to_string();
    let sid = register(&mut ctx, "alice");
    for k in 0..(OUTBOX_CAP + 5) {
        ctx.deliver_to(&alice, sid, &format!("m{k}"));
    }
    let queued = ctx.take_outbox(&alice, sid).unwrap();
    assert_eq!(queued.len(), OUTBOX_CAP, "overflow frames are dropped, not queued");
    assert_eq!(queued[0], "m0");
    assert_eq!(queued[OUTBOX_CAP - 1], format!("m{}", OUTBOX_CAP - 1));
}

#[test]
fn client_defends_against_duplicate_session_ids() {
    let mut c = Client::new("alice".to_string());
    assert!(c.empty());
    assert!(c.register(Register { holder: WsSessionHolder::new(1) }));
    assert!(!c.register(Register { holder: WsSessionHolder::new(1) }), "duplicate id refused");
    assert!(!c.empty());
    assert_eq!(c.session_ids(), vec![1]);
}

#[test]
fn client_unregister_reports_emptiness() {
    let mut c = Client::new("alice".to_string());
    c.add_session(WsSessionHolder::new(1));
    c.add_session(WsSessionHolder::new(2));
    assert!(!c.unregister(Unregister { id: 1 }));
    assert!(c.unregister(Unregister { id: 2 }));
    assert!(c.empty());
    // Removing an absent session is a logged no-op.
    c.remove_session(&99);
    assert!(c.empty());
}

#[test]
fn client_broadcast_and_single_delivery() {
    let mut c = Client::new("alice".to_string());
    c.add_session(WsSessionHolder::new(1));
    c.add_session(WsSessionHolder::new(2));
    c.broadcast(&"all".to_string());
    assert!(c.deliver_to(2, &"only-two".to_string()));
    assert!(!c.deliver_to(3, &"nobody".to_string()));
    assert_eq!(c.take_outbox(1).unwrap(), vec!["all".to_string()]);
    assert_eq!(c.take_outbox(2).unwrap(), vec!["all".to_string(), "only-two".to_string()]);
    assert!(c.take_outbox(3).is_none());
}
