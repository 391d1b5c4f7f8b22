//! The client proxy: a call is encoded, sealed with the session's token and
//! offered to the session's outbound queue. A call is over once the queue
//! has taken the envelope. Nothing is said of whether it is sent, received or
//! handled: there is no answer and no acknowledgement.

use vstd::prelude::*;

use crate::client::WsClient;
use crate::codec::{frame, well_typed, CallView};
use crate::envelope::{seal, RequestView};
use crate::queue::{ChannelView, Offer, TrySendError};
use crate::schema::repeats;
use crate::service::Service;
use crate::wire::views;

verus! {

/// How a call stands when the proxy hands control back.
#[derive(Debug)]
pub enum CallStatus {
    /// The queue has taken the envelope: the call is over.
    Accepted,
    /// The queue is full: the call waits. The sealed envelope is handed out
    /// to be offered again with `resume` once a frame has been drawn.
    Suspended(Vec<u8>),
}

/// Why a call failed.
#[derive(Clone, Copy, Debug, PartialEq, Eq, Structural)]
pub enum CallError {
    /// The service has no such method, or the method takes another number
    /// of arguments.
    IllTyped,
    /// The session is over.
    QueueClosed,
}

/// The envelope of a call made in the session with token `own`.
pub open spec fn call_envelope(svc: Service, own: Seq<u8>, call: CallView) -> Seq<u8> {
    seal(RequestView { sender: own, msg: frame(svc, call) })
}

/// What the proxy answers to an offer of `sealed` to the queue `q`.
pub open spec fn answers(
    q: ChannelView,
    sealed: Seq<u8>,
    r: Result<CallStatus, CallError>,
) -> bool {
    match q.offer(sealed) {
        Offer::Accepted => r matches Ok(CallStatus::Accepted),
        Offer::Full => r matches Ok(CallStatus::Suspended(back)) && back@ == sealed,
        Offer::Closed => r matches Err(CallError::QueueClosed),
    }
}

/// Backpressure, as the caller meets it: a call on a full queue is
/// suspended and changes nothing, however often it is tried. Once a frame has
/// been drawn the call is accepted, and the queue is within its capacity.
pub proof fn lemma_suspended_until_drained(
    q: ChannelView,
    sealed: Seq<u8>,
    before: Result<CallStatus, CallError>,
    after: Result<CallStatus, CallError>,
)
    requires
        q.wf(),
        !q.closed,
        q.is_full(),
        answers(q, sealed, before),
        answers(q.after_offer(sealed).after_next(), sealed, after),
    ensures
        before matches Ok(CallStatus::Suspended(back)) && back@ == sealed,
        q.after_offer(sealed) == q,
        after matches Ok(CallStatus::Accepted),
        q.after_next().after_offer(sealed).frames.last() == sealed,
        q.after_next().after_offer(sealed).wf(),
{
}

/// What a call comes to. An ill-typed call is refused and changes nothing.
/// The envelope of a well-typed call is offered to the queue `before`, which
/// is `after` afterwards, and the caller is answered as the queue answers.
pub open spec fn call_outcome(
    svc: Service,
    own: Seq<u8>,
    before: ChannelView,
    after: ChannelView,
    call: CallView,
    r: Result<CallStatus, CallError>,
) -> bool {
    if 0 <= call.method < svc.count() && call.args.len() == svc.arity(call.method) {
        let sealed = call_envelope(svc, own, call);
        &&& well_typed(svc, call)
        &&& after == before.after_offer(sealed)
        &&& after.wf()
        &&& answers(before, sealed, r)
    } else {
        &&& r matches Err(CallError::IllTyped)
        &&& after == before
    }
}

/// Calls method `method` of `service` with `args` in `session`.
pub fn call<R>(
    service: &Service,
    session: &mut WsClient<R>,
    method: usize,
    args: &Vec<Vec<u8>>,
) -> (r: Result<CallStatus, CallError>)
    ensures
        final(session).id() == old(session).id(),
        final(session).mode() == old(session).mode(),
        final(session).handler() == old(session).handler(),
        service.wf(),
        call_outcome(
            *service,
            old(session).id(),
            old(session).queue(),
            final(session).queue(),
            CallView { method: method as int, args: views(args@) },
            r,
        ),
{
    match service.encode(method, args) {
        None => Err(CallError::IllTyped),
        Some(frame) => match session.submit(frame) {
            Ok(()) => Ok(CallStatus::Accepted),
            Err(TrySendError::Full(sealed)) => Ok(CallStatus::Suspended(sealed)),
            Err(TrySendError::Closed(_)) => Err(CallError::QueueClosed),
        },
    }
}

/// Calls the method that is named `name`. A name that the service does not
/// declare makes the call ill typed.
pub fn call_named<R>(
    service: &Service,
    session: &mut WsClient<R>,
    name: &str,
    args: &Vec<Vec<u8>>,
) -> (r: Result<CallStatus, CallError>)
    ensures
        final(session).id() == old(session).id(),
        final(session).mode() == old(session).mode(),
        final(session).handler() == old(session).handler(),
        service.wf(),
        forall|method: int|
            0 <= method < service.count() && #[trigger] service.names()[method] == name@
                ==> call_outcome(
                *service,
                old(session).id(),
                old(session).queue(),
                final(session).queue(),
                CallView { method, args: views(args@) },
                r,
            ),
        (forall|method: int|
            0 <= method < service.count() ==> #[trigger] service.names()[method] != name@) ==> {
            &&& r matches Err(CallError::IllTyped)
            &&& final(session).queue() == old(session).queue()
        },
{
    match service.method_index(name) {
        None => Err(CallError::IllTyped),
        Some(method) => {
            proof {
                assert forall|other: int|
                    0 <= other < service.count() && #[trigger] service.names()[other]
                        == name@ implies other == method by {
                    if other < method {
                        assert(repeats(service.names(), other, method as int));
                    } else if method < other {
                        assert(repeats(service.names(), method as int, other));
                    }
                }
            }
            call(service, session, method, args)
        },
    }
}

/// Offers the envelope of a suspended call again.
pub fn resume<R>(session: &mut WsClient<R>, sealed: Vec<u8>) -> (r: Result<CallStatus, CallError>)
    ensures
        final(session).id() == old(session).id(),
        final(session).mode() == old(session).mode(),
        final(session).handler() == old(session).handler(),
        final(session).queue() == old(session).queue().after_offer(sealed@),
        final(session).queue().wf(),
        answers(old(session).queue(), sealed@, r),
{
    match session.resubmit(sealed) {
        Ok(()) => Ok(CallStatus::Accepted),
        Err(TrySendError::Full(sealed)) => Ok(CallStatus::Suspended(sealed)),
        Err(TrySendError::Closed(_)) => Err(CallError::QueueClosed),
    }
}

} // verus!
