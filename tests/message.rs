use bit_vec::BitVec;
use sharku::handshake::{check_handshake, handshake_preamble, HANDSHAKE};
use sharku::message::{
    decode, frame_header, parse_message, FrameHeader, Message, MessageKind, ProtocolError,
    BLOCK_LENGTH, MAX_MESSAGE_LEN, PEER_ID,
};

#[test]
fn parse_message_bitfield() -> Result<(), String> {
    match parse_message(&mut [MessageKind::Bitfield as u8, 0b0000_0001, 0b1000_0010]) {
        Ok(Message::Bitfield(bytes))
            if bytes.eq_vec(&[
                false, false, false, false, false, false, false, true, true, false, false,
                false, false, false, true, false,
            ]) =>
        {
            Ok(())
        }
        other => Err(format!("Got {:#?}", other)),
    }
}

#[test]
fn parse_message_request() {
    let mut bytes = vec![MessageKind::Request as u8];
    bytes.extend_from_slice(&u32::to_be_bytes(0xcafe));
    bytes.extend_from_slice(&u32::to_be_bytes(0xabcd));
    bytes.extend_from_slice(&u32::to_be_bytes(0xef12));
    assert_eq!(
        parse_message(&mut bytes).unwrap(),
        Message::Request {
            index: 0xcafe,
            begin: 0xabcd,
            length: 0xef12,
        }
    );
}

#[test]
fn parse_message_piece() {
    let mut bytes = vec![MessageKind::Piece as u8];
    bytes.extend_from_slice(&u32::to_be_bytes(0xcafe));
    bytes.extend_from_slice(&u32::to_be_bytes(0xabcd));
    bytes.extend_from_slice(&[7, 8, 9, 10, 11]);
    assert_eq!(
        parse_message(&mut bytes).unwrap(),
        Message::Piece {
            index: 0xcafe,
            begin: 0xabcd,
            data: vec![7, 8, 9, 10, 11],
        }
    );
}

#[test]
fn parse_message_cancel() {
    let mut bytes = vec![MessageKind::Cancel as u8];
    bytes.extend_from_slice(&u32::to_be_bytes(0xcafe));
    bytes.extend_from_slice(&u32::to_be_bytes(0xabcd));
    bytes.extend_from_slice(&u32::to_be_bytes(0xef12));
    assert_eq!(
        parse_message(&mut bytes).unwrap(),
        Message::Cancel {
            index: 0xcafe,
            begin: 0xabcd,
            length: 0xef12,
        }
    );
}

#[test]
fn kind_bytes_follow_the_wire_tags() {
    let kinds = [
        MessageKind::Choke,
        MessageKind::Unchoke,
        MessageKind::Interested,
        MessageKind::NotInterested,
        MessageKind::Have,
        MessageKind::Bitfield,
        MessageKind::Request,
        MessageKind::Piece,
        MessageKind::Cancel,
    ];
    for (i, k) in kinds.iter().enumerate() {
        assert_eq!(k.byte() as usize, i);
        assert_eq!(*k as u8 as usize, i);
    }
    assert_eq!(Message::Have(3).tag(), MessageKind::Have);
    assert_eq!(Message::Piece { index: 0, begin: 0, data: vec![] }.tag(), MessageKind::Piece);
}

#[test]
fn encode_have_is_exact() {
    assert_eq!(Message::Have(0x0102_0304).encode(), vec![0, 0, 0, 5, 4, 1, 2, 3, 4]);
    assert_eq!(Message::Have(0x0102_0304).size(), 4);
}

#[test]
fn encode_keepalive_free_messages_are_five_bytes() {
    assert_eq!(Message::Choke.encode(), vec![0, 0, 0, 1, 0]);
    assert_eq!(Message::Unchoke.encode(), vec![0, 0, 0, 1, 1]);
    assert_eq!(Message::Interested.encode(), vec![0, 0, 0, 1, 2]);
    assert_eq!(Message::NotInterested.encode(), vec![0, 0, 0, 1, 3]);
}

#[test]
fn encode_request_is_exact() {
    let m = Message::Request { index: 1, begin: 0x4000, length: 0x4000 };
    assert_eq!(m.encode(), vec![0, 0, 0, 13, 6, 0, 0, 0, 1, 0, 0, 0x40, 0, 0, 0, 0x40, 0]);
    assert_eq!(m.size(), 12);
}

#[test]
fn encode_bitfield_packs_msb_first() {
    let bits = BitVec::from_bytes(&[0b0000_0001, 0b1000_0010]);
    assert_eq!(
        Message::Bitfield(bits).encode(),
        vec![0, 0, 0, 3, 5, 0b0000_0001, 0b1000_0010]
    );
    let mut odd = BitVec::from_elem(9, false);
    odd.set(0, true);
    odd.set(8, true);
    assert_eq!(Message::Bitfield(odd).encode(), vec![0, 0, 0, 3, 5, 0b1000_0000, 0b1000_0000]);
}

fn round_trip(m: Message) {
    let frame = m.encode();
    assert_eq!(decode(&frame), Ok(Some(m)));
}

#[test]
fn round_trip_every_variant() {
    round_trip(Message::Choke);
    round_trip(Message::Unchoke);
    round_trip(Message::Interested);
    round_trip(Message::NotInterested);
    round_trip(Message::Have(0xdead_beef));
    round_trip(Message::Bitfield(BitVec::from_bytes(&[0xa5, 0x01, 0xff])));
    round_trip(Message::Request { index: 7, begin: 16384, length: 16384 });
    round_trip(Message::Cancel { index: 7, begin: 0, length: 1 });
    round_trip(Message::Piece { index: 2, begin: 32768, data: vec![] });
    round_trip(Message::Piece {
        index: 9,
        begin: 0,
        data: vec![0x5a; BLOCK_LENGTH as usize],
    });
}

#[test]
fn piece_frame_decodes_to_its_fields() {
    let mut frame = vec![0, 0, 0, 14, 7];
    frame.extend_from_slice(&0xcafe_u32.to_be_bytes());
    frame.extend_from_slice(&0xabcd_u32.to_be_bytes());
    frame.extend_from_slice(&[7, 8, 9, 10, 11]);
    assert_eq!(
        decode(&frame),
        Ok(Some(Message::Piece { index: 0xcafe, begin: 0xabcd, data: vec![7, 8, 9, 10, 11] }))
    );
}

#[test]
fn keepalive_frame_is_none() {
    assert_eq!(decode(&[0, 0, 0, 0]), Ok(None));
    assert_eq!(frame_header(&[0, 0, 0, 0]), Ok(FrameHeader::KeepAlive));
}

#[test]
fn frame_header_limits() {
    assert_eq!(frame_header(&[0, 0, 0x40, 0x09]), Ok(FrameHeader::Body(MAX_MESSAGE_LEN)));
    assert_eq!(
        frame_header(&[0, 0, 0x40, 0x0a]),
        Err(ProtocolError::OversizedMessage(MAX_MESSAGE_LEN as u32 + 1))
    );
    assert_eq!(
        frame_header(&[0xff, 0xff, 0xff, 0xff]),
        Err(ProtocolError::OversizedMessage(u32::MAX))
    );
}

#[test]
fn unknown_tag_is_refused() {
    assert_eq!(parse_message(&[9]), Err(ProtocolError::UnknownMessage(9)));
    assert_eq!(decode(&[0, 0, 0, 1, 20]), Err(ProtocolError::UnknownMessage(20)));
}

#[test]
fn short_payloads_are_malformed() {
    assert_eq!(parse_message(&[]), Err(ProtocolError::MalformedMessage));
    assert_eq!(parse_message(&[4, 0, 0, 1]), Err(ProtocolError::MalformedMessage));
    assert_eq!(parse_message(&[6, 0, 0, 0, 1, 0, 0, 0, 2, 0, 0, 0]), Err(ProtocolError::MalformedMessage));
    assert_eq!(parse_message(&[7, 0, 0, 0, 1, 0, 0, 0]), Err(ProtocolError::MalformedMessage));
    assert_eq!(decode(&[0, 0, 0]), Err(ProtocolError::MalformedMessage));
    assert_eq!(decode(&[0, 0, 0, 2, 0]), Err(ProtocolError::MalformedMessage));
}

#[test]
fn oversized_body_is_refused() {
    let body = vec![7u8; MAX_MESSAGE_LEN + 1];
    assert_eq!(
        parse_message(&body),
        Err(ProtocolError::OversizedMessage(MAX_MESSAGE_LEN as u32 + 1))
    );
}

#[test]
fn handshake_preamble_layout() {
    let info_hash = [0xabu8; 20];
    let p = handshake_preamble(&info_hash, &PEER_ID);
    assert_eq!(p.len(), 68);
    assert_eq!(&p[..28], &HANDSHAKE[..]);
    assert_eq!(p[0], 19);
    assert_eq!(&p[1..20], b"BitTorrent protocol");
    assert_eq!(&p[20..28], &[0u8; 8]);
    assert_eq!(&p[28..48], &info_hash);
    assert_eq!(&p[48..68], b"unpetitnuagebleuvert");
}

#[test]
fn handshake_accepts_matching_peer() {
    let info_hash = [3u8; 20];
    let remote_id = [9u8; 20];
    let p = handshake_preamble(&info_hash, &remote_id);
    assert_eq!(check_handshake(&p, &info_hash), Ok(remote_id));
}

#[test]
fn handshake_rejects_other_info_hash() {
    let p = handshake_preamble(&[3u8; 20], &[9u8; 20]);
    let mut other = [3u8; 20];
    other[19] = 4;
    assert_eq!(check_handshake(&p, &other), Err(ProtocolError::HandshakeMismatch));
}

#[test]
fn handshake_rejects_any_prefix_change() {
    let info_hash = [3u8; 20];
    let p = handshake_preamble(&info_hash, &[9u8; 20]);
    for i in 0..28 {
        let mut q = p.clone();
        q[i] ^= 1;
        assert_eq!(check_handshake(&q, &info_hash), Err(ProtocolError::HandshakeMismatch));
    }
    assert_eq!(check_handshake(&p[..67], &info_hash), Err(ProtocolError::HandshakeMismatch));
}
