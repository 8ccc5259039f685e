//! The state machine of one peer connection. It decides; the caller performs what
//! it decides (socket reads and writes, calls into the piece manager) and hands back
//! what happened.
//!
//! A session goes `Connecting`, `Handshaking`, `Active`, and ends `Closed`. While
//! active it decodes each inbound frame, keeps the choke and interest bits and the
//! remote's bit field, and issues block requests only while the remote does not
//! choke it, at most `PIPELINE_DEPTH` at a time; requests assigned while choked are
//! held. On closing it hands back every request that is unanswered or held.
use crate::bits::{bits_of, bitvec_clone, bitvec_from_elem, bitvec_len, bitvec_set};
use crate::handshake::{check_handshake, handshake_preamble, preamble_accepted, preamble_of};
use crate::message::{
    frame_header, header_spec, parse_message, parse_spec, read_be32, FrameHeader, Message,
    MessageView, ProtocolError, MAX_MESSAGE_LEN,
};
use crate::peer::{bits_after, PeerActor};
use crate::pieces::BlockSpec;
use bit_vec::BitVec;
use vstd::prelude::*;

verus! {

/// Most requests outstanding to one peer at a time.
pub const PIPELINE_DEPTH: usize = 5;

/// Why a session ended.
#[derive(Debug, Clone, Copy, PartialEq, Eq, Structural)]
pub enum CloseReason {
    /// The connection could not be opened.
    ConnectFailed,
    /// The remote broke the protocol.
    Protocol(ProtocolError),
    /// A read or a write failed.
    Transport,
    /// The session was told to stop.
    Shutdown,
}

/// Where a session stands.
#[derive(Debug, Clone, Copy, PartialEq, Eq, Structural)]
pub enum Phase {
    Connecting,
    Handshaking,
    Active,
    Closed(CloseReason),
}

/// What the caller is to do next.
#[derive(Debug)]
pub enum Action {
    /// Write this message to the remote.
    Send(Message),
    /// Hand this message from the remote to the piece manager.
    Forward(Message),
    /// Read a frame body of this many bytes and pass it to `on_body`.
    ReadBody(usize),
    /// Give these requests back to the piece manager: this session will not ask for them.
    GiveBack(Vec<BlockSpec>),
    /// Close the connection, and give the requests back to the piece manager.
    Close(CloseReason, Vec<BlockSpec>),
}

/// An action as a mathematical value.
pub enum ActionView {
    Send(MessageView),
    Forward(MessageView),
    ReadBody(nat),
    GiveBack(Seq<BlockSpec>),
    Close(CloseReason, Seq<BlockSpec>),
}

impl View for Action {
    type V = ActionView;

    open spec fn view(&self) -> ActionView {
        match self {
            Action::Send(m) => ActionView::Send(m@),
            Action::Forward(m) => ActionView::Forward(m@),
            Action::ReadBody(n) => ActionView::ReadBody(*n as nat),
            Action::GiveBack(v) => ActionView::GiveBack(v@),
            Action::Close(r, v) => ActionView::Close(*r, v@),
        }
    }
}

pub open spec fn actions_view(a: Seq<Action>) -> Seq<ActionView> {
    a.map_values(|x: Action| x@)
}

/// The request message for a block.
pub open spec fn request_of(b: BlockSpec) -> MessageView {
    MessageView::Request { index: b.index, begin: b.begin, length: b.length }
}

/// `s` without the requests for the block at `begin` of piece `index`.
pub open spec fn without(s: Seq<BlockSpec>, index: u32, begin: u32) -> Seq<BlockSpec>
    decreases s.len(),
{
    if s.len() == 0 {
        s
    } else {
        let rest = without(s.drop_last(), index, begin);
        if s.last().index == index && s.last().begin == begin {
            rest
        } else {
            rest.push(s.last())
        }
    }
}

/// One session.
pub struct PeerSession {
    phase: Phase,
    bits: PeerActor,
    info_hash: [u8; 20],
    remote: BitVec,
    outstanding: Vec<BlockSpec>,
    queued: Vec<BlockSpec>,
}

/// A session as a mathematical value.
pub struct SessionView {
    pub phase: Phase,
    pub bits: PeerActor,
    pub info_hash: Seq<u8>,
    /// The pieces the remote has said it has.
    pub remote: Seq<bool>,
    /// Requests sent and not answered, oldest first.
    pub outstanding: Seq<BlockSpec>,
    /// Requests assigned and not sent yet, oldest first.
    pub queued: Seq<BlockSpec>,
}

impl View for PeerSession {
    type V = SessionView;

    closed spec fn view(&self) -> SessionView {
        SessionView {
            phase: self.phase,
            bits: self.bits,
            info_hash: self.info_hash@,
            remote: bits_of(self.remote),
            outstanding: self.outstanding@,
            queued: self.queued@,
        }
    }
}

/// The requests that leave the queue when `s` may send: as many as the pipeline has
/// room for, oldest first, and none while the remote chokes or the session is not active.
pub open spec fn sendable(s: SessionView) -> nat {
    let room = PIPELINE_DEPTH - s.outstanding.len();
    if s.phase != Phase::Active || s.bits.peer_choked || room <= 0 {
        0
    } else if s.queued.len() < room {
        s.queued.len()
    } else {
        room as nat
    }
}

impl SessionView {
    pub open spec fn wf(self) -> bool {
        &&& self.outstanding.len() <= PIPELINE_DEPTH
        &&& self.info_hash.len() == 20
    }

    /// Sends what the queue and the pipeline allow.
    pub open spec fn flush(self) -> (SessionView, Seq<ActionView>) {
        let k = sendable(self) as int;
        let moved = self.queued.take(k);
        (
            SessionView {
                outstanding: self.outstanding + moved,
                queued: self.queued.skip(k),
                ..self
            },
            moved.map_values(|b: BlockSpec| ActionView::Send(request_of(b))),
        )
    }

    /// Ends the session for `reason`, handing back every unanswered or held request.
    pub open spec fn close(self, reason: CloseReason) -> (SessionView, Seq<ActionView>) {
        if self.phase is Closed {
            (self, Seq::empty())
        } else {
            (
                SessionView {
                    phase: Phase::Closed(reason),
                    outstanding: Seq::empty(),
                    queued: Seq::empty(),
                    ..self
                },
                seq![ActionView::Close(reason, self.outstanding + self.queued)],
            )
        }
    }

    /// The session after the remote sends `m` while active.
    pub open spec fn on_message(self, m: MessageView) -> (SessionView, Seq<ActionView>) {
        match m {
            MessageView::Unchoke => SessionView { bits: bits_after(self.bits, m), ..self }.flush(),
            MessageView::Choke | MessageView::Interested | MessageView::NotInterested => (
                SessionView { bits: bits_after(self.bits, m), ..self },
                Seq::empty(),
            ),
            MessageView::Have(i) => (
                SessionView {
                    remote: if (i as int) < self.remote.len() {
                        self.remote.update(i as int, true)
                    } else {
                        self.remote
                    },
                    ..self
                },
                seq![ActionView::Forward(m)],
            ),
            MessageView::Bitfield(b) => (
                SessionView { remote: b, ..self },
                seq![ActionView::Forward(m)],
            ),
            MessageView::Piece { index, begin, .. } => {
                let s = SessionView {
                    outstanding: without(self.outstanding, index, begin),
                    ..self
                };
                let (t, sent) = s.flush();
                (t, seq![ActionView::Forward(m)] + sent)
            },
            _ => (self, seq![ActionView::Forward(m)]),
        }
    }

    /// The session after a frame body arrives.
    pub open spec fn on_body(self, body: Seq<u8>) -> (SessionView, Seq<ActionView>) {
        if self.phase != Phase::Active {
            (self, Seq::empty())
        } else {
            match parse_spec(body) {
                Err(e) => self.close(CloseReason::Protocol(e)),
                Ok(m) => self.on_message(m),
            }
        }
    }

    /// The session after a length prefix arrives.
    pub open spec fn on_length_prefix(self, prefix: Seq<u8>) -> (SessionView, Seq<ActionView>) {
        if self.phase != Phase::Active {
            (self, Seq::empty())
        } else {
            match header_spec(prefix) {
                Err(e) => self.close(CloseReason::Protocol(e)),
                Ok(FrameHeader::KeepAlive) => (self, Seq::empty()),
                Ok(FrameHeader::Body(n)) => (self, seq![ActionView::ReadBody(n as nat)]),
            }
        }
    }

    /// The session after the piece manager assigns `blocks` to it.
    pub open spec fn on_assigned(self, blocks: Seq<BlockSpec>) -> (SessionView, Seq<ActionView>) {
        if self.phase != Phase::Active {
            (self, seq![ActionView::GiveBack(blocks)])
        } else {
            SessionView { queued: self.queued + blocks, ..self }.flush()
        }
    }

    /// The session after the connection opens, and the preamble to send, announcing
    /// `peer_id`.
    pub open spec fn on_connected(self, peer_id: Seq<u8>) -> (SessionView, Option<Seq<u8>>) {
        if self.phase == Phase::Connecting {
            (
                SessionView { phase: Phase::Handshaking, ..self },
                Some(preamble_of(self.info_hash, peer_id)),
            )
        } else {
            (self, None)
        }
    }

    /// The session after the connection could not be opened.
    pub open spec fn on_connect_failed(self) -> (SessionView, Seq<ActionView>) {
        if self.phase == Phase::Connecting {
            self.close(CloseReason::ConnectFailed)
        } else {
            (self, Seq::empty())
        }
    }

    /// The session after the remote's preamble arrives: on a match it becomes active,
    /// announces `own` as this side's bit field and declares interest; otherwise it
    /// closes before any message is sent.
    pub open spec fn on_handshake(self, received: Seq<u8>, own: Seq<bool>) -> (
        SessionView,
        Seq<ActionView>,
    ) {
        if self.phase != Phase::Handshaking {
            (self, Seq::empty())
        } else if preamble_accepted(received, self.info_hash) {
            (
                SessionView {
                    phase: Phase::Active,
                    bits: PeerActor { interested: true, ..self.bits },
                    ..self
                },
                seq![
                    ActionView::Send(MessageView::Bitfield(own)),
                    ActionView::Send(MessageView::Interested),
                ],
            )
        } else {
            self.close(CloseReason::Protocol(ProtocolError::HandshakeMismatch))
        }
    }

    /// The session after the piece manager verifies piece `index`: the remote is told.
    pub open spec fn on_have(self, index: u32) -> (SessionView, Seq<ActionView>) {
        if self.phase == Phase::Active {
            (self, seq![ActionView::Send(MessageView::Have(index))])
        } else {
            (self, Seq::empty())
        }
    }
}

impl PeerSession {
    /// A session that is to connect to a peer of a torrent with `info_hash` and
    /// `pieces_count` pieces.
    pub fn new(info_hash: [u8; 20], pieces_count: usize) -> (r: PeerSession)
        ensures
            r@.wf(),
            r@ == (SessionView {
                phase: Phase::Connecting,
                bits: PeerActor {
                    choked: false,
                    interested: false,
                    peer_choked: false,
                    peer_interested: false,
                },
                info_hash: info_hash@,
                remote: Seq::new(pieces_count as nat, |k: int| false),
                outstanding: Seq::empty(),
                queued: Seq::empty(),
            }),
    {
        let r = PeerSession {
            phase: Phase::Connecting,
            bits: PeerActor::new(),
            info_hash,
            remote: bitvec_from_elem(pieces_count, false),
            outstanding: Vec::new(),
            queued: Vec::new(),
        };
        assert(r@.remote =~= Seq::new(pieces_count as nat, |k: int| false));
        r
    }

    /// Where the session stands.
    pub fn phase(&self) -> (r: Phase)
        ensures
            r == self@.phase,
    {
        self.phase
    }

    /// The choke and interest bits.
    pub fn bits(&self) -> (r: PeerActor)
        ensures
            r == self@.bits,
    {
        self.bits
    }

    /// The requests sent and not answered.
    pub fn outstanding(&self) -> (r: &Vec<BlockSpec>)
        ensures
            r@ == self@.outstanding,
    {
        &self.outstanding
    }

    /// The pieces the remote has said it has, for the piece manager's scheduling.
    pub fn remote_bitfield(&self) -> (r: &BitVec)
        ensures
            bits_of(*r) == self@.remote,
    {
        &self.remote
    }

    /// How many more blocks the session can take on: the room left in the pipeline
    /// once the held requests are counted, and none unless active.
    pub fn wanted(&self) -> (r: usize)
        requires
            self@.wf(),
        ensures
            r == (if self@.phase == Phase::Active && self@.outstanding.len() + self@.queued.len()
                < PIPELINE_DEPTH {
                PIPELINE_DEPTH - self@.outstanding.len() - self@.queued.len()
            } else {
                0
            }),
    {
        if self.phase == Phase::Active && self.outstanding.len() < PIPELINE_DEPTH
            && self.queued.len() < PIPELINE_DEPTH - self.outstanding.len() {
            PIPELINE_DEPTH - self.outstanding.len() - self.queued.len()
        } else {
            0
        }
    }

    /// Sends what the queue and the pipeline allow, appending the sends to `actions`.
    fn flush(&mut self, actions: &mut Vec<Action>)
        requires
            old(self)@.wf(),
        ensures
            final(self)@.wf(),
            final(self)@ == old(self)@.flush().0,
            actions_view(final(actions)@) == actions_view(old(actions)@) + old(self)@.flush().1,
    {
        let ghost v = self@;
        let ghost a0 = actions_view(actions@);
        let k: usize = if self.phase != Phase::Active || self.bits.peer_choked
            || self.outstanding.len() >= PIPELINE_DEPTH {
            0
        } else if self.queued.len() < PIPELINE_DEPTH - self.outstanding.len() {
            self.queued.len()
        } else {
            PIPELINE_DEPTH - self.outstanding.len()
        };
        assert(k == sendable(v));
        let ghost moved = v.queued.take(k as int);
        let mut rest: Vec<BlockSpec> = Vec::new();
        let mut i: usize = 0;
        while i < self.queued.len()
            invariant
                i <= v.queued.len(),
                k <= v.queued.len(),
                self.queued@ == v.queued,
                self.phase == v.phase,
                self.bits == v.bits,
                self.info_hash@ == v.info_hash,
                bits_of(self.remote) == v.remote,
                self.outstanding@ == v.outstanding + v.queued.take(if i < k { i as int } else { k as int }),
                rest@ == if i < k { Seq::empty() } else { v.queued.subrange(k as int, i as int) },
                actions_view(actions@) == a0 + v.queued.take(if i < k { i as int } else { k as int }).map_values(
                    |b: BlockSpec| ActionView::Send(request_of(b)),
                ),
            decreases v.queued.len() - i,
        {
            let b = self.queued[i];
            let ghost before = actions@;
            if i < k {
                self.outstanding.push(b);
                actions.push(Action::Send(Message::Request { index: b.index, begin: b.begin, length: b.length }));
                proof {
                    assert(v.queued.take(i + 1) =~= v.queued.take(i as int).push(b));
                    assert(actions@ =~= before.push(actions@.last()));
                    assert(actions_view(actions@) =~= actions_view(before).push(ActionView::Send(request_of(b))));
                    assert(v.queued.take(i + 1).map_values(|b: BlockSpec| ActionView::Send(request_of(b)))
                        =~= v.queued.take(i as int).map_values(|b: BlockSpec| ActionView::Send(request_of(b))).push(ActionView::Send(request_of(b))));
                }
            } else {
                rest.push(b);
                proof {
                    assert(v.queued.subrange(k as int, i + 1) =~= v.queued.subrange(k as int, i as int).push(b));
                }
            }
            i = i + 1;
        }
        proof {
            if k == v.queued.len() {
                assert(v.queued.subrange(k as int, k as int) =~= v.queued.skip(k as int));
            } else {
                assert(v.queued.subrange(k as int, v.queued.len() as int) =~= v.queued.skip(k as int));
            }
        }
        self.queued = rest;
        proof {
            assert(self@ =~= v.flush().0);
        }
    }

    /// Ends the session for `reason`, appending the close to `actions`.
    fn close(&mut self, reason: CloseReason, actions: &mut Vec<Action>)
        requires
            old(self)@.wf(),
        ensures
            final(self)@.wf(),
            final(self)@ == old(self)@.close(reason).0,
            actions_view(final(actions)@) == actions_view(old(actions)@) + old(self)@.close(reason).1,
    {
        let ghost v = self@;
        let ghost before = actions@;
        if let Phase::Closed(_) = self.phase {
            assert(actions_view(actions@) =~= actions_view(before) + Seq::<ActionView>::empty());
            return;
        }
        let mut returned: Vec<BlockSpec> = Vec::new();
        returned.append(&mut self.outstanding);
        returned.append(&mut self.queued);
        self.phase = Phase::Closed(reason);
        actions.push(Action::Close(reason, returned));
        proof {
            assert(self@ =~= v.close(reason).0);
            assert(actions@ =~= before.push(actions@.last()));
            assert(actions_view(actions@) =~= actions_view(before) + v.close(reason).1);
        }
    }
}

impl PeerSession {
    /// Removes the requests for the block at `begin` of piece `index`.
    fn answered(&mut self, index: u32, begin: u32)
        ensures
            final(self)@ == (SessionView {
                outstanding: without(old(self)@.outstanding, index, begin),
                ..old(self)@
            }),
            final(self)@.outstanding.len() <= old(self)@.outstanding.len(),
    {
        let ghost v = self@;
        let mut kept: Vec<BlockSpec> = Vec::new();
        let mut i: usize = 0;
        while i < self.outstanding.len()
            invariant
                i <= v.outstanding.len(),
                self@ == v,
                kept@ == without(v.outstanding.take(i as int), index, begin),
                kept@.len() <= i,
            decreases v.outstanding.len() - i,
        {
            let b = self.outstanding[i];
            proof {
                assert(v.outstanding.take(i + 1).drop_last() =~= v.outstanding.take(i as int));
                assert(v.outstanding.take(i + 1).last() == b);
            }
            if !(b.index == index && b.begin == begin) {
                kept.push(b);
            }
            i = i + 1;
        }
        assert(v.outstanding.take(v.outstanding.len() as int) =~= v.outstanding);
        self.outstanding = kept;
        assert(self@ =~= SessionView { outstanding: without(v.outstanding, index, begin), ..v });
    }

    /// Applies a message from the remote while active.
    fn on_message(&mut self, m: Message, actions: &mut Vec<Action>)
        requires
            old(self)@.wf(),
            old(self)@.phase == Phase::Active,
        ensures
            final(self)@.wf(),
            final(self)@ == old(self)@.on_message(m@).0,
            actions_view(final(actions)@) == actions_view(old(actions)@) + old(self)@.on_message(m@).1,
    {
        let ghost v = self@;
        let ghost before = actions@;
        match m {
            Message::Unchoke => {
                self.bits.handle(&Message::Unchoke);
                self.flush(actions);
            },
            Message::Choke => {
                self.bits.handle(&Message::Choke);
                assert(self@ =~= v.on_message(m@).0);
                assert(actions_view(actions@) =~= actions_view(before) + v.on_message(m@).1);
            },
            Message::Interested => {
                self.bits.handle(&Message::Interested);
                assert(self@ =~= v.on_message(m@).0);
                assert(actions_view(actions@) =~= actions_view(before) + v.on_message(m@).1);
            },
            Message::NotInterested => {
                self.bits.handle(&Message::NotInterested);
                assert(self@ =~= v.on_message(m@).0);
                assert(actions_view(actions@) =~= actions_view(before) + v.on_message(m@).1);
            },
            Message::Have(i) => {
                if (i as usize) < bitvec_len(&self.remote) {
                    bitvec_set(&mut self.remote, i as usize, true);
                }
                actions.push(Action::Forward(Message::Have(i)));
                proof {
                    assert(self@ =~= v.on_message(m@).0);
                    assert(actions@ =~= before.push(actions@.last()));
                    assert(actions_view(actions@) =~= actions_view(before) + v.on_message(m@).1);
                }
            },
            Message::Bitfield(b) => {
                self.remote = bitvec_clone(&b);
                actions.push(Action::Forward(Message::Bitfield(b)));
                proof {
                    assert(self@ =~= v.on_message(m@).0);
                    assert(actions@ =~= before.push(actions@.last()));
                    assert(actions_view(actions@) =~= actions_view(before) + v.on_message(m@).1);
                }
            },
            Message::Piece { index, begin, data } => {
                self.answered(index, begin);
                actions.push(Action::Forward(Message::Piece { index, begin, data }));
                proof {
                    assert(actions@ =~= before.push(actions@.last()));
                    assert(actions_view(actions@) =~= actions_view(before) + seq![ActionView::Forward(m@)]);
                }
                self.flush(actions);
                proof {
                    assert(actions_view(actions@) =~= actions_view(before) + v.on_message(m@).1);
                }
            },
            Message::Request { index, begin, length } => {
                actions.push(Action::Forward(Message::Request { index, begin, length }));
                proof {
                    assert(actions@ =~= before.push(actions@.last()));
                    assert(actions_view(actions@) =~= actions_view(before) + v.on_message(m@).1);
                }
            },
            Message::Cancel { index, begin, length } => {
                actions.push(Action::Forward(Message::Cancel { index, begin, length }));
                proof {
                    assert(actions@ =~= before.push(actions@.last()));
                    assert(actions_view(actions@) =~= actions_view(before) + v.on_message(m@).1);
                }
            },
        }
    }

    /// Takes in a frame body (tag and payload) read after a length prefix: a message
    /// that decodes is applied, one that does not closes the session with the
    /// protocol error. Nothing happens unless the session is active.
    pub fn on_body(&mut self, body: &[u8]) -> (r: Vec<Action>)
        requires
            old(self)@.wf(),
        ensures
            final(self)@.wf(),
            (final(self)@, actions_view(r@)) == old(self)@.on_body(body@),
    {
        let ghost v = self@;
        let mut actions: Vec<Action> = Vec::new();
        assert(actions_view(actions@) =~= Seq::<ActionView>::empty());
        if self.phase != Phase::Active {
            return actions;
        }
        match parse_message(body) {
            Err(e) => self.close(CloseReason::Protocol(e), &mut actions),
            Ok(m) => self.on_message(m, &mut actions),
        }
        assert(Seq::<ActionView>::empty() + v.on_body(body@).1 =~= v.on_body(body@).1);
        actions
    }
}

impl PeerSession {
    /// The connection is open: returns the preamble to send, announcing `peer_id`, and
    /// waits for the remote's. Nothing happens unless the session is connecting.
    pub fn on_connected(&mut self, peer_id: &[u8; 20]) -> (r: Option<Vec<u8>>)
        requires
            old(self)@.wf(),
        ensures
            final(self)@.wf(),
            final(self)@ == old(self)@.on_connected(peer_id@).0,
            match (r, old(self)@.on_connected(peer_id@).1) {
                (Some(x), Some(y)) => x@ == y,
                (None, None) => true,
                _ => false,
            },
    {
        if self.phase != Phase::Connecting {
            return None;
        }
        self.phase = Phase::Handshaking;
        Some(handshake_preamble(&self.info_hash, peer_id))
    }

    /// The connection could not be opened.
    pub fn on_connect_failed(&mut self) -> (r: Vec<Action>)
        requires
            old(self)@.wf(),
        ensures
            final(self)@.wf(),
            (final(self)@, actions_view(r@)) == old(self)@.on_connect_failed(),
    {
        let ghost v = self@;
        let mut actions: Vec<Action> = Vec::new();
        assert(actions_view(actions@) =~= Seq::<ActionView>::empty());
        if self.phase == Phase::Connecting {
            self.close(CloseReason::ConnectFailed, &mut actions);
            assert(Seq::<ActionView>::empty() + v.on_connect_failed().1 =~= v.on_connect_failed().1);
        }
        actions
    }

    /// The remote's 68-byte preamble arrived. On a match the session becomes active,
    /// sends `own_bitfield` (the piece manager's snapshot) and declares interest;
    /// otherwise it closes with a handshake mismatch.
    pub fn on_handshake(&mut self, received: &[u8], own_bitfield: BitVec) -> (r: Vec<Action>)
        requires
            old(self)@.wf(),
        ensures
            final(self)@.wf(),
            (final(self)@, actions_view(r@)) == old(self)@.on_handshake(
                received@,
                bits_of(own_bitfield),
            ),
    {
        let ghost v = self@;
        let mut actions: Vec<Action> = Vec::new();
        assert(actions_view(actions@) =~= Seq::<ActionView>::empty());
        if self.phase != Phase::Handshaking {
            return actions;
        }
        match check_handshake(received, &self.info_hash) {
            Ok(_) => {
                self.phase = Phase::Active;
                self.bits.interested = true;
                actions.push(Action::Send(Message::Bitfield(own_bitfield)));
                actions.push(Action::Send(Message::Interested));
                assert(self@ =~= v.on_handshake(received@, bits_of(own_bitfield)).0);
                assert(actions_view(actions@) =~= v.on_handshake(received@, bits_of(own_bitfield)).1);
            },
            Err(e) => {
                self.close(CloseReason::Protocol(e), &mut actions);
                assert(Seq::<ActionView>::empty() + v.on_handshake(received@, bits_of(own_bitfield)).1
                    =~= v.on_handshake(received@, bits_of(own_bitfield)).1);
            },
        }
        actions
    }

    /// A length prefix arrived: asks for the body, ignores a keep-alive, and closes
    /// the session with a protocol error when the length exceeds the maximum.
    /// Nothing happens unless the session is active.
    pub fn on_length_prefix(&mut self, prefix: &[u8; 4]) -> (r: Vec<Action>)
        requires
            old(self)@.wf(),
        ensures
            final(self)@.wf(),
            (final(self)@, actions_view(r@)) == old(self)@.on_length_prefix(prefix@),
    {
        let ghost v = self@;
        let mut actions: Vec<Action> = Vec::new();
        assert(actions_view(actions@) =~= Seq::<ActionView>::empty());
        if self.phase != Phase::Active {
            return actions;
        }
        match frame_header(prefix) {
            Err(e) => {
                self.close(CloseReason::Protocol(e), &mut actions);
                assert(Seq::<ActionView>::empty() + v.on_length_prefix(prefix@).1 =~= v.on_length_prefix(prefix@).1);
            },
            Ok(FrameHeader::KeepAlive) => {},
            Ok(FrameHeader::Body(n)) => {
                actions.push(Action::ReadBody(n));
                assert(actions_view(actions@) =~= v.on_length_prefix(prefix@).1);
            },
        }
        actions
    }

    /// The piece manager assigned `blocks`: they are queued and sent as the pipeline
    /// allows. A session that is not active gives them back.
    pub fn on_assigned(&mut self, blocks: Vec<BlockSpec>) -> (r: Vec<Action>)
        requires
            old(self)@.wf(),
        ensures
            final(self)@.wf(),
            (final(self)@, actions_view(r@)) == old(self)@.on_assigned(blocks@),
    {
        let ghost v = self@;
        let ghost bl = blocks@;
        let mut actions: Vec<Action> = Vec::new();
        assert(actions_view(actions@) =~= Seq::<ActionView>::empty());
        if self.phase != Phase::Active {
            actions.push(Action::GiveBack(blocks));
            assert(actions_view(actions@) =~= v.on_assigned(bl).1);
            return actions;
        }
        let mut blocks = blocks;
        self.queued.append(&mut blocks);
        assert(self@ =~= SessionView { queued: v.queued + bl, ..v });
        self.flush(&mut actions);
        assert(Seq::<ActionView>::empty() + v.on_assigned(bl).1 =~= v.on_assigned(bl).1);
        actions
    }

    /// The piece manager verified piece `index`: the remote is told.
    pub fn on_have(&mut self, index: u32) -> (r: Vec<Action>)
        requires
            old(self)@.wf(),
        ensures
            final(self)@.wf(),
            (final(self)@, actions_view(r@)) == old(self)@.on_have(index),
    {
        let mut actions: Vec<Action> = Vec::new();
        if self.phase == Phase::Active {
            actions.push(Action::Send(Message::Have(index)));
        }
        assert(actions_view(actions@) =~= self@.on_have(index).1);
        actions
    }

    /// A read or a write on the connection failed: the session closes.
    pub fn on_transport_error(&mut self) -> (r: Vec<Action>)
        requires
            old(self)@.wf(),
        ensures
            final(self)@.wf(),
            (final(self)@, actions_view(r@)) == old(self)@.close(CloseReason::Transport),
    {
        let ghost v = self@;
        let mut actions: Vec<Action> = Vec::new();
        assert(actions_view(actions@) =~= Seq::<ActionView>::empty());
        self.close(CloseReason::Transport, &mut actions);
        assert(Seq::<ActionView>::empty() + v.close(CloseReason::Transport).1 =~= v.close(CloseReason::Transport).1);
        actions
    }

    /// The session is told to stop: it closes.
    pub fn shutdown(&mut self) -> (r: Vec<Action>)
        requires
            old(self)@.wf(),
        ensures
            final(self)@.wf(),
            (final(self)@, actions_view(r@)) == old(self)@.close(CloseReason::Shutdown),
    {
        let ghost v = self@;
        let mut actions: Vec<Action> = Vec::new();
        assert(actions_view(actions@) =~= Seq::<ActionView>::empty());
        self.close(CloseReason::Shutdown, &mut actions);
        assert(Seq::<ActionView>::empty() + v.close(CloseReason::Shutdown).1 =~= v.close(CloseReason::Shutdown).1);
        actions
    }
}

/// A length prefix above the maximum closes an active session with a protocol error,
/// and every request it had sent or held is handed back.
pub proof fn lemma_oversized_prefix_closes(s: SessionView, prefix: Seq<u8>)
    requires
        s.phase == Phase::Active,
        read_be32(prefix, 0) > MAX_MESSAGE_LEN,
    ensures
        ({
            let reason = CloseReason::Protocol(ProtocolError::OversizedMessage(read_be32(prefix, 0)));
            s.on_length_prefix(prefix) == (
                SessionView {
                    phase: Phase::Closed(reason),
                    outstanding: Seq::<BlockSpec>::empty(),
                    queued: Seq::<BlockSpec>::empty(),
                    ..s
                },
                seq![ActionView::Close(reason, s.outstanding + s.queued)],
            )
        }),
{
}

/// A closed session stays closed: input changes nothing and sends nothing, and
/// blocks assigned to it are given back at once.
pub proof fn lemma_closed_is_terminal(
    s: SessionView,
    body: Seq<u8>,
    prefix: Seq<u8>,
    blocks: Seq<BlockSpec>,
    index: u32,
)
    requires
        s.phase is Closed,
    ensures
        s.on_body(body) == (s, Seq::<ActionView>::empty()),
        s.on_length_prefix(prefix) == (s, Seq::<ActionView>::empty()),
        s.on_assigned(blocks) == (s, seq![ActionView::GiveBack(blocks)]),
        s.on_have(index) == (s, Seq::<ActionView>::empty()),
        s.close(CloseReason::Transport) == (s, Seq::<ActionView>::empty()),
        s.close(CloseReason::Shutdown) == (s, Seq::<ActionView>::empty()),
{
}

/// While the remote chokes this side no request is sent: assigned blocks are held,
/// in order, and none is dropped.
pub proof fn lemma_choked_holds_requests(s: SessionView, blocks: Seq<BlockSpec>)
    requires
        s.phase == Phase::Active,
        s.bits.peer_choked,
    ensures
        s.on_assigned(blocks) == (
            SessionView { queued: s.queued + blocks, ..s },
            Seq::<ActionView>::empty(),
        ),
{
    let t = SessionView { queued: s.queued + blocks, ..s };
    assert(t.queued.skip(0) =~= t.queued);
    assert(t.outstanding + t.queued.take(0) =~= t.outstanding);
    assert(t.queued.take(0).map_values(|b: BlockSpec| ActionView::Send(request_of(b))) =~= Seq::<
        ActionView,
    >::empty());
}

} // verus!
