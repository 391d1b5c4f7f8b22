//! The listening side: which peers are connected, and where an inbound
//! message goes. A relay hands every message to every other peer and reads
//! none. A direct endpoint hands the frame of each envelope to the handler
//! bound to the connection that it came in on.

use vstd::prelude::*;

use crate::codec::DecodeError;
use crate::envelope::{seal, unseal, Request, RequestView};
use crate::message::{Message, MessageView, Mode};

verus! {

/// The peers but `from`, in their order.
pub open spec fn others(peers: Seq<u32>, from: u32) -> Seq<u32>
    decreases peers.len(),
{
    if peers.len() == 0 {
        Seq::empty()
    } else if peers.last() == from {
        others(peers.drop_last(), from)
    } else {
        others(peers.drop_last(), from).push(peers.last())
    }
}

/// No peer stands twice.
pub open spec fn distinct(peers: Seq<u32>) -> bool {
    forall|i: int, j: int| 0 <= i < j < peers.len() ==> peers[i] != peers[j]
}

/// The peers after `peer` has connected: it stands last, unless it was
/// connected already.
pub open spec fn joined(peers: Seq<u32>, peer: u32) -> Seq<u32> {
    if peers.contains(peer) {
        peers
    } else {
        peers.push(peer)
    }
}

/// `others` holds exactly the peers that are not `from`.
pub proof fn lemma_others_members(peers: Seq<u32>, from: u32)
    ensures
        others(peers, from).len() <= peers.len(),
        forall|p: u32| #[trigger]
            others(peers, from).contains(p) <==> peers.contains(p) && p != from,
    decreases peers.len(),
{
    if peers.len() > 0 {
        let init = peers.drop_last();
        let last = peers.last();
        let kept = others(init, from);
        let out = others(peers, from);
        lemma_others_members(init, from);
        assert forall|p: u32| #[trigger] out.contains(p) <==> peers.contains(p) && p != from by {
            if out.contains(p) {
                let i = choose|i: int| 0 <= i < out.len() && out[i] == p;
                if last != from && i == kept.len() {
                    assert(peers[peers.len() - 1] == p);
                } else {
                    assert(kept[i] == p);
                    assert(kept.contains(p));
                    let k = choose|k: int| 0 <= k < init.len() && init[k] == p;
                    assert(peers[k] == p);
                }
            }
            if peers.contains(p) && p != from {
                let k = choose|k: int| 0 <= k < peers.len() && peers[k] == p;
                if k == peers.len() - 1 {
                    assert(last == p);
                    assert(out[kept.len() as int] == p);
                } else {
                    assert(init[k] == p);
                    assert(init.contains(p));
                    assert(kept.contains(p));
                    let i = choose|i: int| 0 <= i < kept.len() && kept[i] == p;
                    assert(out[i] == p);
                }
            }
        }
    }
}

/// Leaving out a peer that is not there leaves all.
pub proof fn lemma_others_same(peers: Seq<u32>, from: u32)
    requires
        !peers.contains(from),
    ensures
        others(peers, from) == peers,
    decreases peers.len(),
{
    if peers.len() > 0 {
        let init = peers.drop_last();
        assert(peers[peers.len() - 1] == peers.last());
        assert forall|k: int| 0 <= k < init.len() implies init[k] != from by {
            assert(peers[k] == init[k]);
        }
        lemma_others_same(init, from);
        assert(init.push(peers.last()) =~= peers);
    } else {
        assert(peers =~= Seq::<u32>::empty());
    }
}

/// Leaving a peer out keeps the others distinct.
pub proof fn lemma_others_distinct(peers: Seq<u32>, from: u32)
    requires
        distinct(peers),
    ensures
        distinct(others(peers, from)),
    decreases peers.len(),
{
    if peers.len() > 0 {
        let init = peers.drop_last();
        lemma_others_distinct(init, from);
        lemma_others_members(init, from);
        if peers.last() != from {
            let out = others(peers, from);
            assert forall|i: int, j: int| 0 <= i < j < out.len() implies out[i] != out[j] by {
                if j == out.len() - 1 {
                    assert(others(init, from)[i] == out[i]);
                    assert(others(init, from).contains(out[i]));
                    let k = choose|k: int| 0 <= k < init.len() && init[k] == out[i];
                    assert(peers[k] == out[i]);
                }
            }
        }
    }
}

/// Where an inbound message goes.
#[derive(Debug)]
pub enum Route {
    /// To these peers, as it came.
    Forward(Vec<u32>),
    /// To the handler bound to the connection that it came in on: the frame
    /// of the envelope.
    Deliver(Vec<u8>),
    /// Nowhere: the message is no envelope, for this reason.
    Dropped(DecodeError),
    /// Nowhere: the message is text.
    Ignored,
}

/// `Route` as a mathematical value.
pub enum RouteView {
    Forward(Seq<u32>),
    Deliver(Seq<u8>),
    Dropped(DecodeError),
    Ignored,
}

impl View for Route {
    type V = RouteView;

    open spec fn view(&self) -> RouteView {
        match self {
            Route::Forward(peers) => RouteView::Forward(peers@),
            Route::Deliver(frame) => RouteView::Deliver(frame@),
            Route::Dropped(e) => RouteView::Dropped(*e),
            Route::Ignored => RouteView::Ignored,
        }
    }
}

/// Where a message from `from` goes. A relay forwards whatever comes to all
/// the other peers and reads nothing of it. A direct endpoint opens the
/// envelope and keeps the frame for the handler of that connection.
pub open spec fn route_of(mode: Mode, peers: Seq<u32>, from: u32, msg: MessageView) -> RouteView {
    match mode {
        Mode::Relay => RouteView::Forward(others(peers, from)),
        Mode::Direct => match msg {
            MessageView::Text(_) => RouteView::Ignored,
            MessageView::Binary(bytes) => match unseal(bytes) {
                Ok(envelope) => RouteView::Deliver(envelope.msg),
                Err(e) => RouteView::Dropped(e),
            },
        },
    }
}

/// A relay sends a message to every connected peer but the one it came from,
/// to each of them once, and never back to where it came from.
pub proof fn lemma_relay_reaches_others(peers: Seq<u32>, from: u32, msg: MessageView)
    requires
        distinct(peers),
    ensures
        route_of(Mode::Relay, peers, from, msg) matches RouteView::Forward(to) && {
            &&& !to.contains(from)
            &&& forall|p: u32| peers.contains(p) && p != from ==> #[trigger] to.contains(p)
            &&& forall|p: u32| #[trigger] to.contains(p) ==> peers.contains(p)
            &&& distinct(to)
        },
{
    lemma_others_members(peers, from);
    lemma_others_distinct(peers, from);
}

/// A direct endpoint forwards nothing: the frame of a sealed envelope stays
/// with the connection that it came in on.
pub proof fn lemma_direct_is_point_to_point(peers: Seq<u32>, from: u32, envelope: RequestView)
    requires
        crate::envelope::is_token(envelope.sender),
    ensures
        route_of(Mode::Direct, peers, from, MessageView::Binary(seal(envelope)))
            == RouteView::Deliver(envelope.msg),
        forall|msg: MessageView| !(#[trigger] route_of(Mode::Direct, peers, from, msg) is Forward),
{
    crate::envelope::lemma_unseal_seal(envelope);
}

/// The listening side of a transport.
#[derive(Debug)]
pub struct WsServer {
    mode: Mode,
    peers: Vec<u32>,
}

impl WsServer {
    /// The connected peers, in the order in which they connected.
    pub closed spec fn peers(&self) -> Seq<u32> {
        self.peers@
    }

    /// What holds of every endpoint: no peer is connected twice.
    #[verifier::type_invariant]
    pub open spec fn wf(&self) -> bool {
        distinct(self.peers())
    }

    /// How the peers are wired.
    pub closed spec fn mode(&self) -> Mode {
        self.mode
    }

    /// An endpoint of the given kind with no peer connected.
    pub fn listen(mode: Mode) -> (server: WsServer)
        ensures
            server.peers() == Seq::<u32>::empty(),
            server.mode() == mode,
            server.wf(),
    {
        WsServer { mode, peers: Vec::new() }
    }

    /// Whether `peer` is connected.
    pub fn is_connected(&self, peer: u32) -> (r: bool)
        ensures
            r == self.peers().contains(peer),
    {
        let n = self.peers.len();
        let mut i: usize = 0;
        while i < n
            invariant
                n == self.peers@.len(),
                i <= n,
                forall|k: int| 0 <= k < i ==> self.peers@[k] != peer,
            decreases n - i,
        {
            if self.peers[i] == peer {
                return true;
            }
            i += 1;
        }
        false
    }

    /// How many peers are connected.
    pub fn peer_count(&self) -> (n: usize)
        ensures
            n == self.peers().len(),
    {
        self.peers.len()
    }

    /// A peer has connected.
    pub fn on_open(&mut self, peer: u32)
        ensures
            final(self).peers() == joined(old(self).peers(), peer),
            final(self).mode() == old(self).mode(),
            final(self).wf(),
    {
        proof {
            use_type_invariant(&*self);
        }
        if !self.is_connected(peer) {
            // The list is rebuilt and put back whole: `peer` is not in it, so
            // leaving it out copies the list.
            let mut next = Self::all_but(&self.peers, peer);
            proof {
                lemma_others_same(self.peers@, peer);
            }
            next.push(peer);
            self.peers = next;
        }
    }

    /// A peer has gone.
    pub fn on_close(&mut self, peer: u32)
        ensures
            final(self).peers() == others(old(self).peers(), peer),
            final(self).mode() == old(self).mode(),
            final(self).wf(),
    {
        proof {
            use_type_invariant(&*self);
            lemma_others_distinct(self.peers@, peer);
        }
        let kept = Self::all_but(&self.peers, peer);
        self.peers = kept;
    }

    /// A message has come in from `from`: where it goes.
    pub fn on_message(&self, from: u32, msg: Message) -> (r: Route)
        ensures
            self.wf(),
            r@ == route_of(self.mode(), self.peers(), from, msg@),
    {
        proof {
            use_type_invariant(self);
        }
        match self.mode {
            Mode::Relay => Route::Forward(Self::all_but(&self.peers, from)),
            Mode::Direct => match msg {
                Message::Text(_) => Route::Ignored,
                Message::Binary(bytes) => match Request::from_bytes(bytes.as_slice()) {
                    Ok(envelope) => Route::Deliver(envelope.into_msg()),
                    Err(e) => Route::Dropped(e),
                },
            },
        }
    }

    fn all_but(peers: &Vec<u32>, from: u32) -> (r: Vec<u32>)
        ensures
            r@ == others(peers@, from),
    {
        let n = peers.len();
        let mut out: Vec<u32> = Vec::new();
        let mut i: usize = 0;
        while i < n
            invariant
                n == peers@.len(),
                i <= n,
                out@ == others(peers@.subrange(0, i as int), from),
            decreases n - i,
        {
            let p = peers[i];
            proof {
                let next = peers@.subrange(0, i + 1);
                assert(next.drop_last() =~= peers@.subrange(0, i as int));
                assert(next.last() == p);
            }
            if p != from {
                out.push(p);
            }
            i += 1;
        }
        assert(peers@.subrange(0, n as int) =~= peers@);
        out
    }
}

} // verus!
