//! Routing of decoded inbound envelopes.
//!
//! The dispatcher resolves the envelope's client identity against the
//! registry and routes by the payload's tag. Catalog mutation itself is an
//! external collaborator's work; the core's own obligation is what happens
//! around it: a catalog-affecting payload ends in a broadcast of the
//! collaborator's notification to every session of that client, and the one
//! request/response payload, `ListComics`, ends in a reply to exactly the
//! requesting session.

use vstd::prelude::*;

use crate::client::spec_enqueue;
use crate::context::ServerContext;
use crate::messages::{BmcMessage, MessagePayload, PayloadV};

verus! {

/// How a payload flows once its handler ran.
#[derive(Debug, Clone, Copy, PartialEq, Eq, Structural)]
pub enum Route {
    /// Catalog-affecting: broadcast the resulting notification to every
    /// session of the client.
    Broadcast,
    /// Request/response: answer only the requesting session.
    Reply,
}

/// The route of each payload kind: every kind mutates the catalog and is
/// fire-and-forget, except the `ListComics` query.
pub open spec fn spec_route(p: PayloadV) -> Route {
    match p {
        PayloadV::ListComics => Route::Reply,
        _ => Route::Broadcast,
    }
}

/// Decide a payload's route.
pub fn route_of(p: &MessagePayload) -> (r: Route)
    ensures
        r == spec_route(p@),
{
    match p {
        MessagePayload::ListComics(_) => Route::Reply,
        _ => Route::Broadcast,
    }
}

/// Finish a catalog-affecting envelope: broadcast the collaborator's
/// notification to every session of the envelope's client. An envelope for
/// an unknown client is reported (`false`) and discarded without any effect;
/// the path is fire-and-forget by design.
pub fn dispatch_notification(ctx: &mut ServerContext, msg: &BmcMessage, note: &String) -> (r: bool)
    requires
        old(ctx).wf(),
        spec_route(msg.payload@) == Route::Broadcast,
    ensures
        final(ctx).wf(),
        final(ctx).spec_next_id() == old(ctx).spec_next_id(),
        old(ctx).no_empty_clients() ==> final(ctx).no_empty_clients(),
        r == old(ctx).has_client(msg.client_id@),
        !r ==> *final(ctx) == *old(ctx),
        final(ctx).clients_map().dom() == old(ctx).clients_map().dom(),
        forall|c2: Seq<char>|
            #[trigger] old(ctx).clients_map().dom().contains(c2) && c2 != msg.client_id@
                ==> final(ctx).clients_map()[c2] == old(ctx).clients_map()[c2],
        r ==> final(ctx).clients_map()[msg.client_id@].dom() == old(ctx).clients_map()[
            msg.client_id@].dom(),
        r ==> forall|sid: i64|
            #[trigger] old(ctx).clients_map()[msg.client_id@].dom().contains(sid)
                ==> final(ctx).clients_map()[msg.client_id@][sid] == spec_enqueue(
                old(ctx).clients_map()[msg.client_id@][sid],
                note@,
            ),
{
    ctx.broadcast_to(&msg.client_id, note)
}

} // verus!

verus! {

/// Answer a `ListComics` query: encode the collaborator's listing and
/// enqueue the reply on exactly the requesting session's channel. Returns
/// whether that client and session were still registered.
pub fn dispatch_listing(
    ctx: &mut ServerContext,
    msg: &crate::messages::BmcMessage,
    listing: &crate::messages::ComicListing,
) -> (r: bool)
    requires
        old(ctx).wf(),
        spec_route(msg.payload@) == Route::Reply,
    ensures
        final(ctx).wf(),
        final(ctx).spec_next_id() == old(ctx).spec_next_id(),
        old(ctx).no_empty_clients() ==> final(ctx).no_empty_clients(),
        r == (old(ctx).has_client(msg.client_id@) && old(ctx).clients_map()[
            msg.client_id@].dom().contains(msg.ws_id)),
        !r ==> final(ctx).clients_map() == old(ctx).clients_map(),
        r ==> final(ctx).clients_map() =~= old(ctx).clients_map().insert(
            msg.client_id@,
            old(ctx).clients_map()[msg.client_id@].insert(
                msg.ws_id,
                crate::client::spec_enqueue(
                    old(ctx).clients_map()[msg.client_id@][msg.ws_id],
                    crate::codec::enc_listing(listing@),
                ),
            ),
        ),
{
    let text = crate::codec::encode_listing(listing);
    ctx.deliver_to(&msg.client_id, msg.ws_id, &text)
}

} // verus!
