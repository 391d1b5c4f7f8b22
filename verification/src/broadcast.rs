//! A call from end to end: from the proxy of one session through the relay
//! to the dispatchers of the others.

use vstd::prelude::*;

use crate::client::{
    inbound, lemma_foreign_envelope_delivered, lemma_self_echo_suppressed, InboundView,
};
use crate::codec::{frame, well_typed, CallView};
use crate::dispatch::{lemma_exhaustive_dispatch, routed, DispatchView};
use crate::envelope::is_token;
use crate::message::{MessageView, Mode};
use crate::proxy::call_envelope;
use crate::server::{distinct, lemma_relay_reaches_others, route_of, RouteView};
use crate::service::Service;

verus! {

/// Broadcast: a well-typed call made in the session `caller`, which is
/// connected to a relay as `from`, is forwarded to every other peer, once
/// each, and not to `from`. A session with another token delivers the frame,
/// and a dispatcher of the same service routes it to the arm of the method
/// that was called, with the arguments that it was called with. The caller's
/// own session lets the envelope pass if it ever comes back.
pub proof fn lemma_broadcast(
    svc: Service,
    call: CallView,
    caller: Seq<u8>,
    listener: Seq<u8>,
    peers: Seq<u32>,
    from: u32,
)
    requires
        svc.wf(),
        well_typed(svc, call),
        is_token(caller),
        listener != caller,
        distinct(peers),
    ensures
        ({
            let on_the_wire = MessageView::Binary(call_envelope(svc, caller, call));
            &&& route_of(Mode::Relay, peers, from, on_the_wire) matches RouteView::Forward(to) && {
                &&& !to.contains(from)
                &&& forall|p: u32| peers.contains(p) && p != from ==> #[trigger] to.contains(p)
                &&& distinct(to)
            }
            &&& inbound(Mode::Relay, listener, on_the_wire) == InboundView::Deliver(
                frame(svc, call),
            )
            &&& routed(svc, frame(svc, call)) == DispatchView::Invoke(call)
            &&& inbound(Mode::Relay, caller, on_the_wire) == InboundView::SelfEcho
        }),
{
    let on_the_wire = MessageView::Binary(call_envelope(svc, caller, call));
    lemma_relay_reaches_others(peers, from, on_the_wire);
    lemma_foreign_envelope_delivered(listener, caller, frame(svc, call));
    lemma_exhaustive_dispatch(svc, call);
    lemma_self_echo_suppressed(caller, frame(svc, call));
}

} // verus!
