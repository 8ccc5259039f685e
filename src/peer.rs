//! The choke and interest bits of one peer connection.
use crate::message::{Message, MessageView};
use vstd::prelude::*;

verus! {

/// The four independent bits of a connection.
#[derive(Debug, Clone, Copy, PartialEq, Eq, Structural)]
pub struct PeerActor {
    /// This side chokes the remote.
    pub choked: bool,
    /// This side is interested in the remote.
    pub interested: bool,
    /// The remote chokes this side: no block requests are sent while it does.
    pub peer_choked: bool,
    /// The remote is interested in this side.
    pub peer_interested: bool,
}

/// The bits after the remote sends `m`: the choke and interest messages set the
/// remote's bits, every other message leaves them alone.
pub open spec fn bits_after(a: PeerActor, m: MessageView) -> PeerActor {
    match m {
        MessageView::Choke => PeerActor { peer_choked: true, ..a },
        MessageView::Unchoke => PeerActor { peer_choked: false, ..a },
        MessageView::Interested => PeerActor { peer_interested: true, ..a },
        MessageView::NotInterested => PeerActor { peer_interested: false, ..a },
        _ => a,
    }
}

impl PeerActor {
    /// All four bits clear.
    pub fn new() -> (r: PeerActor)
        ensures
            r == (PeerActor {
                choked: false,
                interested: false,
                peer_choked: false,
                peer_interested: false,
            }),
    {
        PeerActor { choked: false, interested: false, peer_choked: false, peer_interested: false }
    }

    /// Applies a message from the remote to the bits; returns whether it was one of
    /// the four choke and interest messages.
    pub fn handle(&mut self, msg: &Message) -> (r: bool)
        ensures
            *final(self) == bits_after(*old(self), msg@),
            r == (msg@ is Choke || msg@ is Unchoke || msg@ is Interested || msg@ is NotInterested),
    {
        match msg {
            Message::Choke => {
                self.peer_choked = true;
                true
            },
            Message::Unchoke => {
                self.peer_choked = false;
                true
            },
            Message::Interested => {
                self.peer_interested = true;
                true
            },
            Message::NotInterested => {
                self.peer_interested = false;
                true
            },
            _ => false,
        }
    }
}

} // verus!
