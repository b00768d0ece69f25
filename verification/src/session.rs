//! The per-connection state machine.
//!
//! One `WsSession` exists per live connection and drives it through
//! `Connecting -> Registering -> Active -> Closing -> Closed`. The functions
//! here are the decisions of that machine: the connection's owner performs
//! the transport work (sending pings, closing the socket, calling the
//! registry) and feeds every event back in. Liveness is tracked by `hb`, the
//! timestamp of the last inbound frame of any kind, in milliseconds; a peer
//! silent for more than `CLIENT_TIMEOUT_MS` is disconnected by the first
//! heartbeat tick that observes the gap.

use vstd::prelude::*;

use crate::CLIENT_TIMEOUT_MS;

verus! {

/// Where a connection stands in its life cycle.
#[derive(Debug, Clone, Copy, PartialEq, Eq, Structural)]
pub enum SessionState {
    /// The transport handshake completed; no session id yet.
    Connecting,
    /// Registration was requested from the registry.
    Registering,
    /// Registered; frames flow and the heartbeat runs.
    Active,
    /// Shutting down; the session must still be unregistered.
    Closing,
    /// Terminal.
    Closed,
}

/// What the connection's owner must do after a heartbeat tick.
#[derive(Debug, Clone, Copy, PartialEq, Eq, Structural)]
pub enum HeartbeatAction {
    /// The peer is live: send a ping.
    Ping,
    /// The peer exceeded the timeout: unregister and stop the connection.
    TimedOut,
}

/// The sentinel session id carried before registration succeeds.
pub const UNASSIGNED_SESSION_ID: i64 = -1;

/// One live connection's state.
pub struct WsSession {
    pub id: i64,
    pub client_id: String,
    pub hb: u64,
    pub state: SessionState,
}

impl WsSession {
    /// A connection whose transport handshake just completed, under an
    /// already-resolved client identity.
    pub fn new(client_id: String, now: u64) -> (s: WsSession)
        ensures
            s.id == UNASSIGNED_SESSION_ID,
            s.client_id@ == client_id@,
            s.hb == now,
            s.state == SessionState::Connecting,
    {
        WsSession { id: UNASSIGNED_SESSION_ID, client_id, hb: now, state: SessionState::Connecting }
    }

    /// The registration request has been sent to the registry.
    pub fn begin_registration(&mut self)
        requires
            old(self).state == SessionState::Connecting,
        ensures
            final(self).state == SessionState::Registering,
            final(self).id == old(self).id,
            final(self).client_id == old(self).client_id,
            final(self).hb == old(self).hb,
    {
        self.state = SessionState::Registering;
    }

    /// The registry answered the registration request. A granted id (any
    /// non-negative value) activates the session; a refused one closes the
    /// connection outright, and the owner reports the coded reason.
    pub fn on_registered(&mut self, sid: i64) -> (accepted: bool)
        requires
            old(self).state == SessionState::Registering,
        ensures
            accepted == (sid >= 0),
            accepted ==> final(self).state == SessionState::Active && final(self).id == sid,
            !accepted ==> final(self).state == SessionState::Closed && final(self).id == old(
                self,
            ).id,
            final(self).client_id == old(self).client_id,
            final(self).hb == old(self).hb,
    {
        if sid >= 0 {
            self.id = sid;
            self.state = SessionState::Active;
            true
        } else {
            self.state = SessionState::Closed;
            false
        }
    }

    /// Any inbound frame (a payload, a ping, a pong) proves the peer live.
    pub fn note_activity(&mut self, now: u64)
        requires
            old(self).state == SessionState::Active,
        ensures
            final(self).hb == now,
            final(self).id == old(self).id,
            final(self).client_id == old(self).client_id,
            final(self).state == old(self).state,
    {
        self.hb = now;
    }

    /// One heartbeat tick. A peer heard from within the timeout gets a
    /// ping; one silent for longer is timed out, exactly then, and the
    /// session moves to `Closing` so its owner unregisters it.
    pub fn on_heartbeat_tick(&mut self, now: u64) -> (a: HeartbeatAction)
        requires
            old(self).state == SessionState::Active,
            old(self).hb <= now,
        ensures
            (a == HeartbeatAction::TimedOut) == (now - old(self).hb > CLIENT_TIMEOUT_MS),
            a == HeartbeatAction::TimedOut ==> final(self).state == SessionState::Closing,
            a == HeartbeatAction::Ping ==> final(self).state == SessionState::Active,
            final(self).id == old(self).id,
            final(self).client_id == old(self).client_id,
            final(self).hb == old(self).hb,
    {
        if now - self.hb > CLIENT_TIMEOUT_MS {
            self.state = SessionState::Closing;
            HeartbeatAction::TimedOut
        } else {
            HeartbeatAction::Ping
        }
    }

    /// A peer-initiated close, a transport error or a forced invalidation:
    /// the connection shuts down but must still be unregistered.
    pub fn begin_close(&mut self)
        requires
            old(self).state == SessionState::Registering || old(self).state == SessionState::Active,
        ensures
            final(self).state == SessionState::Closing,
            final(self).id == old(self).id,
            final(self).client_id == old(self).client_id,
            final(self).hb == old(self).hb,
    {
        self.state = SessionState::Closing;
    }

    /// The session was removed from the registry; the connection is done.
    pub fn on_unregistered(&mut self)
        requires
            old(self).state == SessionState::Closing,
        ensures
            final(self).state == SessionState::Closed,
            final(self).id == old(self).id,
            final(self).client_id == old(self).client_id,
            final(self).hb == old(self).hb,
    {
        self.state = SessionState::Closed;
    }
}

} // verus!

verus! {

impl WsSession {
    /// An inbound text frame: note the activity, decode the envelope, and
    /// stamp it with this session's client identity and id. A frame the
    /// codec refuses is dropped (`None`) and the connection stays active.
    pub fn on_text_frame(&mut self, now: u64, text: &str) -> (r: Option<
        crate::messages::BmcMessage,
    >)
        requires
            old(self).state == SessionState::Active,
        ensures
            final(self).hb == now,
            final(self).id == old(self).id,
            final(self).client_id == old(self).client_id,
            final(self).state == old(self).state,
            r is Some <==> crate::codec::dec_payload(text@) is Some,
            r is Some ==> r->Some_0.payload@ == crate::codec::dec_payload(text@)->Some_0
                && r->Some_0.client_id@ == old(self).client_id@ && r->Some_0.ws_id == old(
                self,
            ).id,
    {
        self.note_activity(now);
        match crate::codec::decode_payload(text) {
            None => None,
            Some(p) => Some(
                crate::messages::BmcMessage {
                    client_id: self.client_id.clone(),
                    ws_id: self.id,
                    payload: p,
                },
            ),
        }
    }
}

} // verus!
