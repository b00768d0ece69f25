use bookmaker::context::{RegisterSession, ServerContext};
use bookmaker::dispatch::{dispatch_listing, dispatch_notification, route_of, Route};
use bookmaker::messages::{
    BmcMessage, Comic, ComicEntry, ComicListing, ComicSource, ListComics, MessagePayload,
    TrackReader, UntrackComic,
};
use bookmaker::session::{HeartbeatAction, SessionState, WsSession, UNASSIGNED_SESSION_ID};
use bookmaker::{CLIENT_TIMEOUT_MS, HEARTBEAT_PERIOD_MS};

fn active_session(sid: i64, now: u64) -> WsSession {
    let mut s = WsSession::new("alice".to_string(), now);
    s.begin_registration();
    assert!(s.on_registered(sid));
    s
}

#[test]
fn session_walks_its_states() {
    let mut s = WsSession::new("alice".to_string(), 1000);
    assert_eq!(s.state, SessionState::Connecting);
    assert_eq!(s.id, UNASSIGNED_SESSION_ID);
    s.begin_registration();
    assert_eq!(s.state, SessionState::Registering);
    assert!(s.on_registered(7));
    assert_eq!(s.state, SessionState::Active);
    assert_eq!(s.id, 7);
    s.begin_close();
    assert_eq!(s.state, SessionState::Closing);
    s.on_unregistered();
    assert_eq!(s.state, SessionState::Closed);
}

#[test]
fn failed_registration_closes_the_connection() {
    let mut s = WsSession::new("alice".to_string(), 1000);
    s.begin_registration();
    assert!(!s.on_registered(-1));
    assert_eq!(s.state, SessionState::Closed);
}

#[test]
fn heartbeat_pings_a_live_peer() {
    let mut s = active_session(7, 1000);
    let a = s.on_heartbeat_tick(1000 + HEARTBEAT_PERIOD_MS);
    assert_eq!(a, HeartbeatAction::Ping);
    assert_eq!(s.state, SessionState::Active);
}

#[test]
fn heartbeat_evicts_a_silent_peer_on_the_first_late_tick() {
    let mut s = active_session(7, 1000);
    // Exactly at the timeout the peer is still considered live.
    let a = s.on_heartbeat_tick(1000 + CLIENT_TIMEOUT_MS);
    assert_eq!(a, HeartbeatAction::Ping);
    // One millisecond past it, the first tick evicts.
    let a = s.on_heartbeat_tick(1000 + CLIENT_TIMEOUT_MS + 1);
    assert_eq!(a, HeartbeatAction::TimedOut);
    assert_eq!(s.state, SessionState::Closing);
}

#[test]
fn any_activity_resets_the_timeout() {
    let mut s = active_session(7, 1000);
    s.note_activity(9000);
    let a = s.on_heartbeat_tick(9000 + CLIENT_TIMEOUT_MS);
    assert_eq!(a, HeartbeatAction::Ping);
}

#[test]
fn text_frames_become_stamped_envelopes() {
    let mut s = active_session(7, 1000);
    let msg = s
        .on_text_frame(2000, "{\"tag\":\"UntrackComic\",\"label\":\"one-piece\"}")
        .expect("well-formed");
    assert_eq!(msg.client_id, "alice");
    assert_eq!(msg.ws_id, 7);
    assert_eq!(
        msg.payload,
        MessagePayload::UntrackComic(UntrackComic { label: "one-piece".to_string() })
    );
    assert_eq!(s.hb, 2000);
}

#[test]
fn malformed_frame_is_dropped_and_connection_stays_active() {
    let mut s = active_session(7, 1000);
    assert!(s.on_text_frame(2000, "garbage").is_none());
    assert_eq!(s.state, SessionState::Active);
    assert_eq!(s.hb, 2000, "even a bad frame proves the peer live");
}

#[test]
fn routes_by_tag() {
    let query = MessagePayload::ListComics(ListComics {});
    assert_eq!(route_of(&query), Route::Reply);
    let mutation = MessagePayload::TrackReader(TrackReader {
        comic_label: "c".to_string(),
        name: "n".to_string(),
        has_update: false,
    });
    assert_eq!(route_of(&mutation), Route::Broadcast);
}

#[test]
fn notification_fans_out_to_the_whole_client() {
    let mut ctx = ServerContext::new();
    let a1 = ctx.register_session(RegisterSession { client_id: "alice".to_string() });
    let a2 = ctx.register_session(RegisterSession { client_id: "alice".to_string() });
    let b1 = ctx.register_session(RegisterSession { client_id: "bob".to_string() });
    let msg = BmcMessage {
        client_id: "alice".to_string(),
        ws_id: a1,
        payload: MessagePayload::UntrackComic(UntrackComic { label: "x".to_string() }),
    };
    assert!(dispatch_notification(&mut ctx, &msg, &"catalog-changed".to_string()));
    let alice = "alice".to_string();
    assert_eq!(ctx.take_outbox(&alice, a1).unwrap(), vec!["catalog-changed".to_string()]);
    assert_eq!(ctx.take_outbox(&alice, a2).unwrap(), vec!["catalog-changed".to_string()]);
    assert_eq!(ctx.take_outbox(&"bob".to_string(), b1).unwrap(), Vec::<String>::new());
}

#[test]
fn notification_for_unknown_client_is_discarded() {
    let mut ctx = ServerContext::new();
    let msg = BmcMessage {
        client_id: "ghost".to_string(),
        ws_id: 1,
        payload: MessagePayload::UntrackComic(UntrackComic { label: "x".to_string() }),
    };
    assert!(!dispatch_notification(&mut ctx, &msg, &"nobody".to_string()));
}

#[test]
fn listing_reply_goes_only_to_the_requesting_session() {
    let mut ctx = ServerContext::new();
    let a1 = ctx.register_session(RegisterSession { client_id: "alice".to_string() });
    let a2 = ctx.register_session(RegisterSession { client_id: "alice".to_string() });
    let msg = BmcMessage {
        client_id: "alice".to_string(),
        ws_id: a2,
        payload: MessagePayload::ListComics(ListComics {}),
    };
    let listing = ComicListing {
        comics: vec![ComicEntry {
            comic: Comic { label: "one-piece".to_string() },
            sources: vec![ComicSource { name: "mangadex".to_string() }],
        }],
    };
    assert!(dispatch_listing(&mut ctx, &msg, &listing));
    let alice = "alice".to_string();
    assert_eq!(ctx.take_outbox(&alice, a1).unwrap(), Vec::<String>::new());
    assert_eq!(
        ctx.take_outbox(&alice, a2).unwrap(),
        vec![
            "{\"comics\":[{\"comic\":{\"label\":\"one-piece\"},\"sources\":[{\"name\":\"mangadex\"}]}]}"
                .to_string()
        ]
    );
}

#[test]
fn listing_reply_to_a_dead_session_reports_failure() {
    let mut ctx = ServerContext::new();
    let a1 = ctx.register_session(RegisterSession { client_id: "alice".to_string() });
    ctx.remove_client_session("alice", a1);
    let msg = BmcMessage {
        client_id: "alice".to_string(),
        ws_id: a1,
        payload: MessagePayload::ListComics(ListComics {}),
    };
    let listing = ComicListing { comics: Vec::new() };
    assert!(!dispatch_listing(&mut ctx, &msg, &listing));
}
