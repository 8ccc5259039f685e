use bit_vec::BitVec;
use sharku::handshake::handshake_preamble;
use sharku::message::{Message, ProtocolError, BLOCK_LENGTH, PEER_ID};
use sharku::peer::PeerActor;
use sharku::pieces::BlockSpec;
use sharku::session::{Action, CloseReason, PeerSession, Phase, PIPELINE_DEPTH};
use sharku::state::DownloadState;

const INFO_HASH: [u8; 20] = [7u8; 20];

fn block(i: u32) -> BlockSpec {
    BlockSpec { index: i, begin: 0, length: BLOCK_LENGTH }
}

fn active_session() -> PeerSession {
    let mut s = PeerSession::new(INFO_HASH, 16);
    let preamble = s.on_connected(&PEER_ID).unwrap();
    assert_eq!(preamble, handshake_preamble(&INFO_HASH, &PEER_ID));
    assert_eq!(s.phase(), Phase::Handshaking);
    let remote = handshake_preamble(&INFO_HASH, &[1u8; 20]);
    let actions = s.on_handshake(&remote, BitVec::from_elem(16, false));
    assert_eq!(actions.len(), 2);
    assert!(matches!(&actions[0], Action::Send(Message::Bitfield(b)) if b.len() == 16));
    assert!(matches!(&actions[1], Action::Send(Message::Interested)));
    assert_eq!(s.phase(), Phase::Active);
    assert!(s.bits().interested);
    s
}

fn frame(m: Message) -> ([u8; 4], Vec<u8>) {
    let f = m.encode();
    ([f[0], f[1], f[2], f[3]], f[4..].to_vec())
}

fn deliver(s: &mut PeerSession, m: Message) -> Vec<Action> {
    let (prefix, body) = frame(m);
    let read = s.on_length_prefix(&prefix);
    assert_eq!(read.len(), 1);
    match read[0] {
        Action::ReadBody(n) => assert_eq!(n, body.len()),
        _ => panic!("expected a body read"),
    }
    s.on_body(&body)
}

#[test]
fn peer_actor_starts_clear_and_tracks_remote_bits() {
    let mut a = PeerActor::new();
    assert_eq!(
        a,
        PeerActor { choked: false, interested: false, peer_choked: false, peer_interested: false }
    );
    assert!(a.handle(&Message::Choke));
    assert!(a.peer_choked);
    assert!(a.handle(&Message::Interested));
    assert!(a.peer_interested);
    assert!(a.handle(&Message::Unchoke));
    assert!(!a.peer_choked);
    assert!(a.handle(&Message::NotInterested));
    assert!(!a.peer_interested);
    assert!(!a.handle(&Message::Have(1)));
}

#[test]
fn download_state_default_is_zero() {
    let d = DownloadState::default();
    assert_eq!((d.uploaded, d.downloaded, d.left), (0, 0, 0));
}

#[test]
fn handshake_mismatch_closes_before_any_message() {
    let mut s = PeerSession::new(INFO_HASH, 4);
    s.on_connected(&PEER_ID).unwrap();
    let wrong = handshake_preamble(&[8u8; 20], &[1u8; 20]);
    let actions = s.on_handshake(&wrong, BitVec::new());
    assert_eq!(actions.len(), 1);
    assert!(matches!(
        &actions[0],
        Action::Close(CloseReason::Protocol(ProtocolError::HandshakeMismatch), v) if v.is_empty()
    ));
    assert_eq!(s.phase(), Phase::Closed(CloseReason::Protocol(ProtocolError::HandshakeMismatch)));
}

#[test]
fn connect_failure_closes() {
    let mut s = PeerSession::new(INFO_HASH, 4);
    let actions = s.on_connect_failed();
    assert_eq!(actions.len(), 1);
    assert_eq!(s.phase(), Phase::Closed(CloseReason::ConnectFailed));
    assert!(s.on_connected(&PEER_ID).is_none());
}

#[test]
fn requests_wait_for_unchoke_and_respect_the_pipeline() {
    let mut s = active_session();
    assert!(deliver(&mut s, Message::Choke).is_empty());
    assert!(s.bits().peer_choked);
    assert_eq!(s.wanted(), PIPELINE_DEPTH);
    let blocks: Vec<BlockSpec> = (0..7).map(block).collect();
    assert!(s.on_assigned(blocks).is_empty());
    assert!(s.outstanding().is_empty());
    assert_eq!(s.wanted(), 0);
    let sent = deliver(&mut s, Message::Unchoke);
    assert_eq!(sent.len(), PIPELINE_DEPTH);
    for (i, a) in sent.iter().enumerate() {
        match a {
            Action::Send(Message::Request { index, begin, length }) => {
                assert_eq!((*index, *begin, *length), (i as u32, 0, BLOCK_LENGTH));
            }
            _ => panic!("expected a request"),
        }
    }
    assert_eq!(s.outstanding().len(), PIPELINE_DEPTH);
    let after = deliver(&mut s, Message::Piece { index: 0, begin: 0, data: vec![1, 2, 3] });
    assert_eq!(after.len(), 2);
    assert!(matches!(&after[0], Action::Forward(Message::Piece { index: 0, .. })));
    assert!(matches!(&after[1], Action::Send(Message::Request { index: 5, .. })));
    assert_eq!(s.outstanding().len(), PIPELINE_DEPTH);
}

#[test]
fn keepalive_changes_nothing() {
    let mut s = active_session();
    assert!(s.on_length_prefix(&[0, 0, 0, 0]).is_empty());
    assert_eq!(s.phase(), Phase::Active);
}

#[test]
fn have_and_bitfield_update_the_remote_bits() {
    let mut s = active_session();
    let fwd = deliver(&mut s, Message::Have(3));
    assert!(matches!(&fwd[0], Action::Forward(Message::Have(3))));
    assert_eq!(s.remote_bitfield().get(3), Some(true));
    assert_eq!(s.remote_bitfield().get(2), Some(false));
    deliver(&mut s, Message::Have(1000));
    assert_eq!(s.remote_bitfield().len(), 16);
    deliver(&mut s, Message::Bitfield(BitVec::from_bytes(&[0xff])));
    assert!(s.remote_bitfield().eq_vec(&[true; 8]));
    assert!(deliver(&mut s, Message::Interested).is_empty());
    assert!(s.bits().peer_interested);
    let r = deliver(&mut s, Message::Request { index: 1, begin: 2, length: 3 });
    assert!(matches!(&r[0], Action::Forward(Message::Request { index: 1, begin: 2, length: 3 })));
}

#[test]
fn oversized_frame_closes_only_its_session() {
    let mut first = active_session();
    let mut second = active_session();
    first.on_assigned(vec![block(0), block(1)]);
    second.on_assigned(vec![block(2)]);
    let actions = first.on_length_prefix(&[0, 0, 0x40, 0x0a]);
    assert_eq!(actions.len(), 1);
    match &actions[0] {
        Action::Close(CloseReason::Protocol(ProtocolError::OversizedMessage(n)), returned) => {
            assert_eq!(*n, 16394);
            assert_eq!(returned, &vec![block(0), block(1)]);
        }
        _ => panic!("expected a close"),
    }
    assert!(matches!(first.phase(), Phase::Closed(_)));
    assert!(first.outstanding().is_empty());
    assert!(first.on_body(&[1]).is_empty());
    let given = first.on_assigned(vec![block(5)]);
    assert!(matches!(&given[0], Action::GiveBack(v) if v == &vec![block(5)]));

    assert_eq!(second.phase(), Phase::Active);
    let fwd = deliver(&mut second, Message::Piece { index: 2, begin: 0, data: vec![9] });
    assert!(matches!(&fwd[0], Action::Forward(Message::Piece { index: 2, .. })));
    assert!(second.outstanding().is_empty());
    assert_eq!(deliver(&mut second, Message::Have(4)).len(), 1);
}

#[test]
fn undecodable_body_closes_with_its_error() {
    let mut s = active_session();
    s.on_assigned(vec![block(0)]);
    let actions = s.on_body(&[42]);
    match &actions[0] {
        Action::Close(CloseReason::Protocol(ProtocolError::UnknownMessage(42)), returned) => {
            assert_eq!(returned, &vec![block(0)]);
        }
        _ => panic!("expected a close"),
    }
}

#[test]
fn transport_error_and_shutdown_hand_back_requests() {
    let mut s = active_session();
    deliver(&mut s, Message::Choke);
    s.on_assigned(vec![block(3)]);
    let actions = s.on_transport_error();
    assert!(matches!(&actions[0], Action::Close(CloseReason::Transport, v) if v == &vec![block(3)]));
    assert!(s.shutdown().is_empty());

    let mut t = active_session();
    let actions = t.shutdown();
    assert!(matches!(&actions[0], Action::Close(CloseReason::Shutdown, v) if v.is_empty()));
}

#[test]
fn have_broadcast_is_sent_only_while_active() {
    let mut s = active_session();
    let a = s.on_have(9);
    assert!(matches!(&a[0], Action::Send(Message::Have(9))));
    s.shutdown();
    assert!(s.on_have(9).is_empty());
}
