//! The outbound queue of a session: a bounded first-in, first-out queue of
//! envelopes. A full queue takes nothing more until a frame has been drawn
//! from it, and that is the only brake on a caller.
//!
//! The queue is tokio's bounded channel. The session holds both halves of it
//! and never waits on it: an offer that finds no room comes back at once.

use tokio::sync::mpsc::{Receiver, Sender};
use vstd::prelude::*;

verus! {

/// How many envelopes the queue of a session holds.
pub const CHANNEL_CAPACITY: usize = 2;

/// Why the queue did not take an envelope. The envelope is handed back.
#[derive(Debug)]
pub enum TrySendError {
    /// The queue is full: the caller waits until a frame has been drawn.
    Full(Vec<u8>),
    /// The queue is closed: the session is over.
    Closed(Vec<u8>),
}

/// What an offer to the queue comes to.
pub enum Offer {
    Accepted,
    Full,
    Closed,
}

/// The queue as a mathematical value.
pub struct ChannelView {
    /// What is waiting, oldest first.
    pub frames: Seq<Seq<u8>>,
    /// Whether the session is over.
    pub closed: bool,
}

impl ChannelView {
    /// The queue never holds more than its capacity.
    pub open spec fn wf(self) -> bool {
        self.frames.len() <= CHANNEL_CAPACITY
    }

    pub open spec fn is_full(self) -> bool {
        self.frames.len() >= CHANNEL_CAPACITY
    }

    /// What an offer of `frame` comes to. A closed queue says so, full or not.
    pub open spec fn offer(self, frame: Seq<u8>) -> Offer {
        if self.closed {
            Offer::Closed
        } else if self.is_full() {
            Offer::Full
        } else {
            Offer::Accepted
        }
    }

    /// The queue after an offer of `frame`: the frame stands last where it
    /// was accepted, and nothing has changed where it was not.
    pub open spec fn after_offer(self, frame: Seq<u8>) -> ChannelView {
        match self.offer(frame) {
            Offer::Accepted => ChannelView { frames: self.frames.push(frame), closed: self.closed },
            _ => self,
        }
    }

    /// The frame that is drawn next: the oldest, if there is any.
    pub open spec fn next(self) -> Option<Seq<u8>> {
        if self.frames.len() == 0 {
            None
        } else {
            Some(self.frames[0])
        }
    }

    /// The queue after a frame has been drawn.
    pub open spec fn after_next(self) -> ChannelView {
        if self.frames.len() == 0 {
            self
        } else {
            ChannelView { frames: self.frames.drop_first(), closed: self.closed }
        }
    }

    /// The queue after the session has ended: what waits can still be drawn.
    pub open spec fn after_close(self) -> ChannelView {
        ChannelView { frames: self.frames, closed: true }
    }
}

/// The queue stays within its capacity, whatever is done to it.
pub proof fn lemma_capacity_kept(q: ChannelView, frame: Seq<u8>)
    requires
        q.wf(),
    ensures
        q.after_offer(frame).wf(),
        q.after_next().wf(),
        q.after_close().wf(),
{
}

/// Backpressure: a full, open queue refuses an offer and keeps what it has;
/// once a frame has been drawn the same offer is accepted, the offered frame
/// stands last, and the queue is within its capacity.
pub proof fn lemma_backpressure(q: ChannelView, frame: Seq<u8>)
    requires
        q.wf(),
        !q.closed,
        q.is_full(),
    ensures
        q.offer(frame) is Full,
        q.after_offer(frame) == q,
        q.after_next().offer(frame) is Accepted,
        q.after_next().after_offer(frame).frames == q.frames.drop_first().push(frame),
        q.after_next().after_offer(frame).wf(),
{
}

/// First in, first out: an accepted frame stands behind everything that
/// was waiting, in the order in which that was waiting, and what is drawn is
/// always what has waited longest.
pub proof fn lemma_fifo(q: ChannelView, frame: Seq<u8>)
    requires
        q.offer(frame) is Accepted,
    ensures
        q.after_offer(frame).frames.len() == q.frames.len() + 1,
        q.after_offer(frame).frames.last() == frame,
        forall|i: int|
            0 <= i < q.frames.len() ==> #[trigger] q.after_offer(frame).frames[i] == q.frames[i],
        q.frames.len() > 0 ==> q.after_offer(frame).next() == q.next(),
        q.frames.len() > 0 ==> q.after_offer(frame).after_next() == q.after_next().after_offer(
            frame,
        ),
        q.frames.len() == 0 ==> q.after_offer(frame).next() == Some(frame),
{
    if q.frames.len() > 0 {
        assert(q.frames.push(frame).drop_first() =~= q.frames.drop_first().push(frame));
    }
}

/// After the session has ended every offer is refused as closed.
pub proof fn lemma_closed_refuses(q: ChannelView, frame: Seq<u8>)
    ensures
        q.after_close().offer(frame) is Closed,
        q.after_close().after_offer(frame) == q.after_close(),
{
}

/// tokio's `mpsc::Sender`, the sending half of a bounded channel.
#[verifier::external_type_specification]
#[verifier::external_body]
#[verifier::reject_recursive_types(T)]
pub struct ExSender<T>(tokio::sync::mpsc::Sender<T>);

/// tokio's `mpsc::Receiver`, the receiving half of a bounded channel.
#[verifier::external_type_specification]
#[verifier::external_body]
#[verifier::reject_recursive_types(T)]
pub struct ExReceiver<T>(tokio::sync::mpsc::Receiver<T>);

/// What the channel of a receiver holds: the messages that were sent and not
/// yet received, oldest first.
pub uninterp spec fn waiting(rx: Receiver<Vec<u8>>) -> Seq<Seq<u8>>;

/// The buffer size that the channel of a receiver was made with.
pub uninterp spec fn limit(rx: Receiver<Vec<u8>>) -> nat;

/// The sender and the receiver are the two halves of one channel that has
/// not been closed, and nothing else sends on it or has a place reserved in
/// it.
pub uninterp spec fn feeds(tx: Sender<Vec<u8>>, rx: Receiver<Vec<u8>>) -> bool;

/// Calls tokio's `mpsc::channel`. Trusted: the two halves belong together,
/// and the channel holds nothing and has the buffer size asked for. tokio
/// panics on a size of zero and on one above the number of permits that its
/// semaphore can have, so these are left out.
#[verifier::external_body]
fn open_channel(buffer: usize) -> (halves: (Sender<Vec<u8>>, Receiver<Vec<u8>>))
    requires
        0 < buffer <= 0xffff,
    ensures
        feeds(halves.0, halves.1),
        waiting(halves.1) == Seq::<Seq<u8>>::empty(),
        limit(halves.1) == buffer,
{
    tokio::sync::mpsc::channel(buffer)
}

/// Calls tokio's `Sender::try_send`. Trusted: a channel that holds as many
/// messages as its buffer size refuses and hands the message back; one that
/// holds fewer takes the message behind those that it holds. The channel is
/// not closed, so it does not refuse for that.
#[verifier::external_body]
fn offer(tx: &Sender<Vec<u8>>, rx: &mut Receiver<Vec<u8>>, frame: Vec<u8>) -> (r: Result<
    (),
    TrySendError,
>)
    requires
        feeds(*tx, *old(rx)),
    ensures
        feeds(*tx, *final(rx)),
        limit(*final(rx)) == limit(*old(rx)),
        match r {
            Ok(()) => waiting(*old(rx)).len() < limit(*old(rx)) && waiting(*final(rx)) == waiting(
                *old(rx),
            ).push(frame@),
            Err(TrySendError::Full(back)) => waiting(*old(rx)).len() >= limit(*old(rx)) && back
                == frame && waiting(*final(rx)) == waiting(*old(rx)),
            Err(TrySendError::Closed(_)) => false,
        },
    no_unwind
{
    match tx.try_send(frame) {
        Ok(()) => Ok(()),
        Err(tokio::sync::mpsc::error::TrySendError::Full(back)) => Err(TrySendError::Full(back)),
        Err(tokio::sync::mpsc::error::TrySendError::Closed(back)) => Err(
            TrySendError::Closed(back),
        ),
    }
}

/// Calls tokio's `Receiver::try_recv`. Trusted: the oldest message is taken
/// out and handed over, and nothing is handed over only where the channel
/// holds nothing.
#[verifier::external_body]
fn draw(tx: &Sender<Vec<u8>>, rx: &mut Receiver<Vec<u8>>) -> (r: Option<Vec<u8>>)
    requires
        feeds(*tx, *old(rx)),
    ensures
        feeds(*tx, *final(rx)),
        limit(*final(rx)) == limit(*old(rx)),
        match r {
            Some(frame) => waiting(*old(rx)).len() > 0 && frame@ == waiting(*old(rx))[0]
                && waiting(*final(rx)) == waiting(*old(rx)).drop_first(),
            None => waiting(*old(rx)).len() == 0 && waiting(*final(rx)) == waiting(*old(rx)),
        },
    no_unwind
{
    rx.try_recv().ok()
}

/// Calls tokio's `Receiver::len`. Trusted: the number of messages that the
/// channel holds.
#[verifier::external_body]
fn count(rx: &Receiver<Vec<u8>>) -> (n: usize)
    ensures
        n == waiting(*rx).len(),
{
    rx.len()
}

/// The outbound queue of a session: a bounded channel, both halves of it,
/// and whether the session is over.
#[derive(Debug)]
pub struct Channel {
    tx: Sender<Vec<u8>>,
    rx: Receiver<Vec<u8>>,
    closed: bool,
}

impl View for Channel {
    type V = ChannelView;

    closed spec fn view(&self) -> ChannelView {
        ChannelView { frames: waiting(self.rx), closed: self.closed }
    }
}

impl Channel {
    /// What holds of every queue: its halves belong together, it was made
    /// with the capacity of a session's queue, and it is within it.
    #[verifier::type_invariant]
    closed spec fn inv(&self) -> bool {
        &&& feeds(self.tx, self.rx)
        &&& limit(self.rx) == CHANNEL_CAPACITY
        &&& waiting(self.rx).len() <= CHANNEL_CAPACITY
    }

    /// An empty, open queue.
    pub fn new() -> (r: Channel)
        ensures
            r@ == (ChannelView { frames: Seq::empty(), closed: false }),
    {
        let (tx, rx) = open_channel(CHANNEL_CAPACITY);
        Channel { tx, rx, closed: false }
    }

    /// Offers an envelope to the queue without waiting.
    pub fn try_send(&mut self, frame: Vec<u8>) -> (r: Result<(), TrySendError>)
        ensures
            old(self)@.wf(),
            final(self)@ == old(self)@.after_offer(frame@),
            final(self)@.wf(),
            match r {
                Ok(()) => old(self)@.offer(frame@) is Accepted,
                Err(TrySendError::Full(back)) => old(self)@.offer(frame@) is Full && back == frame,
                Err(TrySendError::Closed(back)) => old(self)@.offer(frame@) is Closed && back
                    == frame,
            },
    {
        proof {
            use_type_invariant(&*self);
        }
        if self.closed {
            return Err(TrySendError::Closed(frame));
        }
        offer(&self.tx, &mut self.rx, frame)
    }

    /// Draws the oldest envelope from the queue, if there is any.
    pub fn try_recv(&mut self) -> (r: Option<Vec<u8>>)
        ensures
            old(self)@.wf(),
            final(self)@ == old(self)@.after_next(),
            final(self)@.wf(),
            match r {
                Some(frame) => old(self)@.next() == Some(frame@),
                None => old(self)@.next() is None,
            },
    {
        proof {
            use_type_invariant(&*self);
        }
        draw(&self.tx, &mut self.rx)
    }

    /// Ends the session: from now on every offer is refused. What is
    /// waiting can still be drawn.
    pub fn close(&mut self)
        ensures
            final(self)@ == old(self)@.after_close(),
            final(self)@.wf(),
    {
        proof {
            use_type_invariant(&*self);
        }
        self.closed = true;
    }

    /// How many envelopes are waiting.
    pub fn len(&self) -> (n: usize)
        ensures
            n == self@.frames.len(),
            n <= CHANNEL_CAPACITY,
    {
        proof {
            use_type_invariant(self);
        }
        count(&self.rx)
    }

    /// Whether nothing is waiting.
    pub fn is_empty(&self) -> (r: bool)
        ensures
            r == (self@.frames.len() == 0),
    {
        count(&self.rx) == 0
    }

    /// Whether the queue would refuse an offer for want of room.
    pub fn is_full(&self) -> (r: bool)
        ensures
            r == self@.is_full(),
    {
        count(&self.rx) >= CHANNEL_CAPACITY
    }

    /// Whether the session is over.
    pub fn is_closed(&self) -> (r: bool)
        ensures
            r == self@.closed,
    {
        self.closed
    }
}

} // verus!
