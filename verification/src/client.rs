//! A client session: its token, its outbound queue, and what it does with
//! an inbound message. In relay mode a session sees its own envelopes come
//! back and lets them pass unheard.

use vstd::prelude::*;

use crate::codec::DecodeError;
use crate::dispatch::HandleIncoming;
use crate::envelope::{
    is_token, lemma_unseal_seal, seal, unseal, Request, RequestView, SessionToken,
};
use crate::message::{Message, MessageView, Mode};
use crate::queue::{Channel, ChannelView, TrySendError, CHANNEL_CAPACITY};

verus! {

/// What a session does with an inbound message.
#[derive(Debug)]
pub enum Inbound {
    /// The frame goes to the handler.
    Deliver(Vec<u8>),
    /// The envelope is the session's own: nothing is done.
    SelfEcho,
    /// The message is no envelope, for this reason: nothing is done.
    Dropped(DecodeError),
    /// The message is text: nothing is done.
    Ignored,
}

/// `Inbound` as a mathematical value.
pub enum InboundView {
    Deliver(Seq<u8>),
    SelfEcho,
    Dropped(DecodeError),
    Ignored,
}

impl View for Inbound {
    type V = InboundView;

    open spec fn view(&self) -> InboundView {
        match self {
            Inbound::Deliver(frame) => InboundView::Deliver(frame@),
            Inbound::SelfEcho => InboundView::SelfEcho,
            Inbound::Dropped(e) => InboundView::Dropped(*e),
            Inbound::Ignored => InboundView::Ignored,
        }
    }
}

/// What was done with an inbound message.
#[derive(Clone, Copy, Debug, PartialEq, Eq, Structural)]
pub enum Received {
    /// The frame was handed to the handler.
    Delivered,
    /// The envelope was the session's own.
    SelfEcho,
    /// The message was no envelope.
    Dropped(DecodeError),
    /// The message was text.
    Ignored,
}

/// What the session with token `own` does with a message. Only in relay
/// mode is the sender looked at.
pub open spec fn inbound(mode: Mode, own: Seq<u8>, msg: MessageView) -> InboundView {
    match msg {
        MessageView::Text(_) => InboundView::Ignored,
        MessageView::Binary(bytes) => match unseal(bytes) {
            Err(e) => InboundView::Dropped(e),
            Ok(envelope) => if mode == Mode::Relay && envelope.sender == own {
                InboundView::SelfEcho
            } else {
                InboundView::Deliver(envelope.msg)
            },
        },
    }
}

/// What is reported of a decision once it has been carried out.
pub open spec fn reported(decision: InboundView) -> Received {
    match decision {
        InboundView::Deliver(_) => Received::Delivered,
        InboundView::SelfEcho => Received::SelfEcho,
        InboundView::Dropped(e) => Received::Dropped(e),
        InboundView::Ignored => Received::Ignored,
    }
}

/// Self-echo suppression: in relay mode a session never delivers an envelope
/// that it has sealed itself, whatever the frame.
pub proof fn lemma_self_echo_suppressed(own: Seq<u8>, frame: Seq<u8>)
    requires
        is_token(own),
    ensures
        inbound(
            Mode::Relay,
            own,
            MessageView::Binary(seal(RequestView { sender: own, msg: frame })),
        ) == InboundView::SelfEcho,
{
    lemma_unseal_seal(RequestView { sender: own, msg: frame });
}

/// What another session has sealed is delivered, frame for frame.
pub proof fn lemma_foreign_envelope_delivered(own: Seq<u8>, sender: Seq<u8>, frame: Seq<u8>)
    requires
        is_token(sender),
        sender != own,
    ensures
        inbound(
            Mode::Relay,
            own,
            MessageView::Binary(seal(RequestView { sender, msg: frame })),
        ) == InboundView::Deliver(frame),
{
    lemma_unseal_seal(RequestView { sender, msg: frame });
}

/// In direct mode every sealed envelope is delivered: nothing comes back to
/// its origin there, and the sender is not looked at.
pub proof fn lemma_direct_delivers(own: Seq<u8>, sender: Seq<u8>, frame: Seq<u8>)
    requires
        is_token(sender),
    ensures
        inbound(
            Mode::Direct,
            own,
            MessageView::Binary(seal(RequestView { sender, msg: frame })),
        ) == InboundView::Deliver(frame),
{
    lemma_unseal_seal(RequestView { sender, msg: frame });
}

/// A client session.
pub struct WsClient<R> {
    id: SessionToken,
    mode: Mode,
    resolvers: R,
    channel: Channel,
}

impl<R> WsClient<R> {
    /// The session's token.
    pub closed spec fn id(&self) -> Seq<u8> {
        self.id@
    }

    /// How the session is wired to its peers.
    pub closed spec fn mode(&self) -> Mode {
        self.mode
    }

    /// The session's outbound queue.
    pub closed spec fn queue(&self) -> ChannelView {
        self.channel@
    }

    /// The handler that the session's inbound frames go to.
    pub closed spec fn handler(&self) -> R {
        self.resolvers
    }

    /// Starts a session: a fresh random token and an empty, open queue.
    pub fn connect(mode: Mode, resolvers: R) -> (session: WsClient<R>)
        ensures
            is_token(session.id()),
            session.mode() == mode,
            session.handler() == resolvers,
            session.queue() == (ChannelView { frames: Seq::empty(), closed: false }),
    {
        Self::with_id(SessionToken::generate(), mode, resolvers)
    }

    /// Starts a session with the given token and an empty, open queue.
    pub fn with_id(id: SessionToken, mode: Mode, resolvers: R) -> (session: WsClient<R>)
        ensures
            session.id() == id@,
            is_token(session.id()),
            session.mode() == mode,
            session.handler() == resolvers,
            session.queue() == (ChannelView { frames: Seq::empty(), closed: false }),
    {
        proof {
            use_type_invariant(&id);
        }
        WsClient { id, mode, resolvers, channel: Channel::new() }
    }

    /// The session's token.
    pub fn token(&self) -> (r: &SessionToken)
        ensures
            r@ == self.id(),
            is_token(self.id()),
    {
        proof {
            use_type_invariant(&self.id);
        }
        &self.id
    }

    /// How many envelopes are waiting to be sent.
    pub fn pending(&self) -> (n: usize)
        ensures
            n == self.queue().frames.len(),
            n <= CHANNEL_CAPACITY,
    {
        self.channel.len()
    }

    /// Whether the session is over.
    pub fn is_closed(&self) -> (r: bool)
        ensures
            r == self.queue().closed,
    {
        self.channel.is_closed()
    }

    /// Decides what to do with an inbound message, and does nothing.
    pub fn on_message(&self, msg: Message) -> (r: Inbound)
        ensures
            r@ == inbound(self.mode(), self.id(), msg@),
    {
        match msg {
            Message::Text(_) => Inbound::Ignored,
            Message::Binary(bytes) => match Request::from_bytes(bytes.as_slice()) {
                Err(e) => Inbound::Dropped(e),
                Ok(envelope) => {
                    let own = match self.mode {
                        Mode::Relay => envelope.sender().same_as(&self.id),
                        Mode::Direct => false,
                    };
                    if own {
                        Inbound::SelfEcho
                    } else {
                        Inbound::Deliver(envelope.into_msg())
                    }
                },
            },
        }
    }

    /// Seals `frame` with the session's token and offers the envelope to the
    /// outbound queue. Where the queue does not take it, the sealed envelope
    /// comes back.
    pub fn submit(&mut self, frame: Vec<u8>) -> (r: Result<(), TrySendError>)
        ensures
            final(self).id() == old(self).id(),
            final(self).mode() == old(self).mode(),
            final(self).handler() == old(self).handler(),
            is_token(old(self).id()),
            ({
                let sealed = seal(RequestView { sender: old(self).id(), msg: frame@ });
                &&& final(self).queue() == old(self).queue().after_offer(sealed)
                &&& final(self).queue().wf()
                &&& match r {
                    Ok(()) => old(self).queue().offer(sealed) is Accepted,
                    Err(TrySendError::Full(back)) => old(self).queue().offer(sealed) is Full
                        && back@ == sealed,
                    Err(TrySendError::Closed(back)) => old(self).queue().offer(sealed) is Closed
                        && back@ == sealed,
                }
            }),
    {
        let sealed = Request::new(self.id.duplicate(), frame).to_bytes();
        self.channel.try_send(sealed)
    }

    /// Offers an envelope that was sealed earlier to the outbound queue.
    pub fn resubmit(&mut self, sealed: Vec<u8>) -> (r: Result<(), TrySendError>)
        ensures
            final(self).id() == old(self).id(),
            final(self).mode() == old(self).mode(),
            final(self).handler() == old(self).handler(),
            final(self).queue() == old(self).queue().after_offer(sealed@),
            final(self).queue().wf(),
            match r {
                Ok(()) => old(self).queue().offer(sealed@) is Accepted,
                Err(TrySendError::Full(back)) => old(self).queue().offer(sealed@) is Full && back
                    == sealed,
                Err(TrySendError::Closed(back)) => old(self).queue().offer(sealed@) is Closed
                    && back == sealed,
            },
    {
        self.channel.try_send(sealed)
    }

    /// Draws the envelope that goes on the wire next: the oldest in the
    /// queue, if there is any.
    pub fn next_frame(&mut self) -> (r: Option<Vec<u8>>)
        ensures
            final(self).id() == old(self).id(),
            final(self).mode() == old(self).mode(),
            final(self).handler() == old(self).handler(),
            final(self).queue() == old(self).queue().after_next(),
            final(self).queue().wf(),
            match r {
                Some(frame) => old(self).queue().next() == Some(frame@),
                None => old(self).queue().next() is None,
            },
    {
        self.channel.try_recv()
    }

    /// Ends the session: every later call is refused.
    pub fn close(&mut self)
        ensures
            final(self).id() == old(self).id(),
            final(self).mode() == old(self).mode(),
            final(self).handler() == old(self).handler(),
            final(self).queue() == old(self).queue().after_close(),
    {
        self.channel.close();
    }
}

impl<R: HandleIncoming + Clone> WsClient<R> {
    /// Takes an inbound message: a frame that is to be delivered goes to a
    /// copy of the handler, and everything else is let pass.
    pub fn receive(&self, msg: Message) -> (r: Received)
        ensures
            r == reported(inbound(self.mode(), self.id(), msg@)),
    {
        match self.on_message(msg) {
            Inbound::Deliver(frame) => {
                self.resolvers.clone().handle_incoming_event(frame);
                Received::Delivered
            },
            Inbound::SelfEcho => Received::SelfEcho,
            Inbound::Dropped(e) => Received::Dropped(e),
            Inbound::Ignored => Received::Ignored,
        }
    }
}

} // verus!
