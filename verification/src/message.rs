//! What the transport carries, and how its peers are wired.

use vstd::prelude::*;

verus! {

/// How the peers of a transport are wired.
#[derive(Clone, Copy, Debug, PartialEq, Eq, Structural)]
pub enum Mode {
    /// Point to point: what a peer sends reaches the other end and nobody
    /// else.
    Direct,
    /// Through a relay: what a peer sends reaches every other peer.
    Relay,
}

/// A message of the transport.
#[derive(Debug)]
pub enum Message {
    /// Text: diagnostics. Never dispatched.
    Text(String),
    /// Binary: an envelope.
    Binary(Vec<u8>),
}

/// A message as a mathematical value.
pub enum MessageView {
    Text(Seq<char>),
    Binary(Seq<u8>),
}

impl View for Message {
    type V = MessageView;

    open spec fn view(&self) -> MessageView {
        match self {
            Message::Text(t) => MessageView::Text(t@),
            Message::Binary(b) => MessageView::Binary(b@),
        }
    }
}

} // verus!
