//! The dispatcher: a handler bound to a service. An inbound frame is decoded
//! and handed to the arm of the method that it names. A frame that cannot be
//! decoded is dropped, and the connection goes on.

use std::sync::Arc;
use vstd::prelude::*;

use crate::codec::{
    frame, lemma_foreign_bytes_rejected, lemma_parse_sound, lemma_round_trip, parse, well_typed,
    Call, CallView, DecodeError,
};
use crate::service::Service;
use crate::wire::views;

verus! {

/// What takes the inbound frames of a connection.
pub trait HandleIncoming {
    fn handle_incoming_event(self, req: Vec<u8>);
}

/// The implementation of a service: one arm for each declared method, chosen
/// by the method's index. A handler is used up by a call, so a binding is
/// duplicated for each frame, and whatever state it has is shared behind it.
pub trait Handler: Sized {
    /// The arm of method `method`, with the arguments of the call. An arm is
    /// only ever invoked with a call that is well typed for `service`, the
    /// service that the handler is bound to: the method is one of its
    /// methods, and there are as many arguments as the method has parameters.
    fn invoke(self, service: &Service, method: usize, args: Vec<Vec<u8>>)
        requires
            well_typed(*service, CallView { method: method as int, args: views(args@) }),
    ;

    /// The diagnostic sink: told of every frame that was dropped, and why.
    /// Nothing is done with it unless the implementation says otherwise.
    fn dropped(self, why: DecodeError) {
    }

    /// Binds the handler to the service: the binding holds this handler,
    /// as it is, and nothing of it is called.
    fn serve(self, service: Arc<Service>) -> (server: Server<Self>)
        ensures
            server.bound() == self,
            server.interface() == *service,
    {
        Server::bind(self, service)
    }
}

/// What the dispatcher does with a frame.
#[derive(Debug)]
pub enum Dispatch {
    /// The frame holds this call: its arm is invoked with its arguments.
    Invoke(Call),
    /// The frame holds no call of the service: it is dropped, for this
    /// reason.
    Dropped(DecodeError),
}

/// `Dispatch` as a mathematical value.
pub enum DispatchView {
    Invoke(CallView),
    Dropped(DecodeError),
}

impl View for Dispatch {
    type V = DispatchView;

    open spec fn view(&self) -> DispatchView {
        match self {
            Dispatch::Invoke(call) => DispatchView::Invoke(call@),
            Dispatch::Dropped(e) => DispatchView::Dropped(*e),
        }
    }
}

/// Where a frame goes under a service: to the arm of the call that it holds,
/// or nowhere.
pub open spec fn routed(svc: Service, bytes: Seq<u8>) -> DispatchView {
    match parse(svc, bytes) {
        Ok(call) => DispatchView::Invoke(call),
        Err(e) => DispatchView::Dropped(e),
    }
}

/// Exhaustive dispatch: the frame of every well-typed call of every declared
/// method goes to the arm of that method with the arguments that were sent.
pub proof fn lemma_exhaustive_dispatch(svc: Service, call: CallView)
    requires
        svc.wf(),
        well_typed(svc, call),
    ensures
        routed(svc, frame(svc, call)) == DispatchView::Invoke(call),
{
    lemma_round_trip(svc, call);
}

/// Unknown frames: bytes that are the frame of no well-typed call reach no
/// arm. They are dropped.
pub proof fn lemma_unknown_frame_dropped(svc: Service, bytes: Seq<u8>)
    requires
        svc.wf(),
        forall|call: CallView| well_typed(svc, call) ==> bytes != #[trigger] frame(svc, call),
    ensures
        routed(svc, bytes) is Dropped,
{
    lemma_foreign_bytes_rejected(svc, bytes);
}

/// A handler bound to a service. A binding is duplicated for each
/// connection and for each frame: the copies share the service.
#[derive(Clone)]
pub struct Server<S> {
    handler: S,
    service: Arc<Service>,
}

impl<S> Server<S> {
    /// The handler that is bound.
    pub closed spec fn bound(&self) -> S {
        self.handler
    }

    /// The service that the handler is bound to.
    pub closed spec fn interface(&self) -> Service {
        *self.service
    }

    /// Binds `handler` to `service`.
    pub fn bind(handler: S, service: Arc<Service>) -> (server: Server<S>)
        ensures
            server.bound() == handler,
            server.interface() == *service,
    {
        Server { handler, service }
    }

    /// The service that the handler is bound to.
    pub fn service(&self) -> (r: &Service)
        ensures
            *r == self.interface(),
            r.wf(),
    {
        proof {
            use_type_invariant(&*self.service);
        }
        &self.service
    }

    /// Decides where a frame goes, and invokes nothing.
    pub fn route(&self, req: &[u8]) -> (r: Dispatch)
        ensures
            self.interface().wf(),
            r@ == routed(self.interface(), req@),
    {
        match self.service.decode(req) {
            Ok(call) => Dispatch::Invoke(call),
            Err(e) => Dispatch::Dropped(e),
        }
    }
}

impl<S: Handler> HandleIncoming for Server<S> {
    /// Decodes the frame and invokes the arm of its method. A frame that
    /// holds no call of the service is dropped: no arm is invoked, and the
    /// handler's sink is told why.
    fn handle_incoming_event(self, req: Vec<u8>) {
        match self.route(req.as_slice()) {
            Dispatch::Invoke(call) => {
                proof {
                    lemma_parse_sound(self.interface(), req@);
                }
                let Server { handler, service } = self;
                handler.invoke(&service, call.method, call.args);
            },
            Dispatch::Dropped(why) => {
                self.handler.dropped(why);
            },
        }
    }
}

} // verus!
