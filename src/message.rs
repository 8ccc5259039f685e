//! Peer-wire messages and their exact byte representation.
//!
//! A frame is a big-endian `u32` length (of the tag and the payload), a one-byte
//! tag and a tag-specific payload. A frame of length zero is a keep-alive.
use crate::bits::{
    bits_of, bitvec_from_bytes, bitvec_len, bitvec_to_bytes, bytes_for_bits, lemma_pack_unpack,
    lemma_unpack_pack, pack_bits, unpack_bits,
};
use bit_vec::BitVec;
use vstd::prelude::*;
use vstd::slice::{slice_subrange, slice_to_vec};

verus! {

/// The peer id this client announces.
pub const PEER_ID: [u8; 20] = [
    0x75, 0x6e, 0x70, 0x65, 0x74, 0x69, 0x74, 0x6e, 0x75, 0x61,
    0x67, 0x65, 0x62, 0x6c, 0x65, 0x75, 0x76, 0x65, 0x72, 0x74,
];

/// Largest block length that is requested or accepted.
pub const BLOCK_LENGTH: u32 = 16384;

/// Largest accepted frame length: a full block with the `Piece` header (tag, index, begin).
pub const MAX_MESSAGE_LEN: usize = 16393;

/// Why a peer's bytes were refused.
#[derive(Debug, Clone, Copy, PartialEq, Eq, Structural)]
pub enum ProtocolError {
    /// A frame whose tag is none of the known messages.
    UnknownMessage(u8),
    /// A frame whose advisory length exceeds the maximum.
    OversizedMessage(u32),
    /// A frame too short for what its tag announces.
    MalformedMessage,
    /// A handshake preamble that differs from the expected one.
    HandshakeMismatch,
}

/// The tag of each message.
#[derive(Debug, Clone, Copy, PartialEq, Eq, Structural)]
pub enum MessageKind {
    Choke,
    Unchoke,
    Interested,
    NotInterested,
    Have,
    Bitfield,
    Request,
    Piece,
    Cancel,
}

pub open spec fn kind_byte(k: MessageKind) -> u8 {
    match k {
        MessageKind::Choke => 0,
        MessageKind::Unchoke => 1,
        MessageKind::Interested => 2,
        MessageKind::NotInterested => 3,
        MessageKind::Have => 4,
        MessageKind::Bitfield => 5,
        MessageKind::Request => 6,
        MessageKind::Piece => 7,
        MessageKind::Cancel => 8,
    }
}

impl MessageKind {
    /// The tag byte on the wire.
    pub fn byte(&self) -> (r: u8)
        ensures
            r == kind_byte(*self),
    {
        match self {
            MessageKind::Choke => 0,
            MessageKind::Unchoke => 1,
            MessageKind::Interested => 2,
            MessageKind::NotInterested => 3,
            MessageKind::Have => 4,
            MessageKind::Bitfield => 5,
            MessageKind::Request => 6,
            MessageKind::Piece => 7,
            MessageKind::Cancel => 8,
        }
    }
}

/// A peer-wire message.
#[derive(Debug, PartialEq, Eq)]
pub enum Message {
    Choke,
    Unchoke,
    Interested,
    NotInterested,
    Have(u32),
    Bitfield(BitVec),
    Request { index: u32, begin: u32, length: u32 },
    Piece { index: u32, begin: u32, data: Vec<u8> },
    Cancel { index: u32, begin: u32, length: u32 },
}

/// A message as a mathematical value.
pub enum MessageView {
    Choke,
    Unchoke,
    Interested,
    NotInterested,
    Have(u32),
    Bitfield(Seq<bool>),
    Request { index: u32, begin: u32, length: u32 },
    Piece { index: u32, begin: u32, data: Seq<u8> },
    Cancel { index: u32, begin: u32, length: u32 },
}

impl View for Message {
    type V = MessageView;

    open spec fn view(&self) -> MessageView {
        match self {
            Message::Choke => MessageView::Choke,
            Message::Unchoke => MessageView::Unchoke,
            Message::Interested => MessageView::Interested,
            Message::NotInterested => MessageView::NotInterested,
            Message::Have(i) => MessageView::Have(*i),
            Message::Bitfield(b) => MessageView::Bitfield(bits_of(*b)),
            Message::Request { index, begin, length } => MessageView::Request {
                index: *index,
                begin: *begin,
                length: *length,
            },
            Message::Piece { index, begin, data } => MessageView::Piece {
                index: *index,
                begin: *begin,
                data: data@,
            },
            Message::Cancel { index, begin, length } => MessageView::Cancel {
                index: *index,
                begin: *begin,
                length: *length,
            },
        }
    }
}

pub open spec fn tag_of(m: MessageView) -> MessageKind {
    match m {
        MessageView::Choke => MessageKind::Choke,
        MessageView::Unchoke => MessageKind::Unchoke,
        MessageView::Interested => MessageKind::Interested,
        MessageView::NotInterested => MessageKind::NotInterested,
        MessageView::Have(_) => MessageKind::Have,
        MessageView::Bitfield(_) => MessageKind::Bitfield,
        MessageView::Request { .. } => MessageKind::Request,
        MessageView::Piece { .. } => MessageKind::Piece,
        MessageView::Cancel { .. } => MessageKind::Cancel,
    }
}

/// The four big-endian bytes of `x`.
pub open spec fn be32(x: u32) -> Seq<u8> {
    seq![
        (x / 0x100_0000) as u8,
        (x / 0x1_0000 % 0x100) as u8,
        (x / 0x100 % 0x100) as u8,
        (x % 0x100) as u8,
    ]
}

/// The big-endian `u32` held in `s[at..at + 4]`.
pub open spec fn read_be32(s: Seq<u8>, at: int) -> u32 {
    (s[at] * 0x100_0000 + s[at + 1] * 0x1_0000 + s[at + 2] * 0x100 + s[at + 3]) as u32
}

/// The payload of a message: what follows the tag.
pub open spec fn payload_of(m: MessageView) -> Seq<u8> {
    match m {
        MessageView::Have(i) => be32(i),
        MessageView::Bitfield(bits) => pack_bits(bits),
        MessageView::Request { index, begin, length } => be32(index) + be32(begin) + be32(length),
        MessageView::Piece { index, begin, data } => be32(index) + be32(begin) + data,
        MessageView::Cancel { index, begin, length } => be32(index) + be32(begin) + be32(length),
        _ => Seq::empty(),
    }
}

/// The length of a message's payload.
pub open spec fn payload_len(m: MessageView) -> nat {
    match m {
        MessageView::Have(_) => 4,
        MessageView::Bitfield(bits) => bytes_for_bits(bits.len()),
        MessageView::Request { .. } => 12,
        MessageView::Piece { data, .. } => 8 + data.len(),
        MessageView::Cancel { .. } => 12,
        _ => 0,
    }
}

/// A message can be framed: its length field fits in a `u32`.
pub open spec fn encodable(m: MessageView) -> bool {
    1 + payload_len(m) <= u32::MAX
}

/// The tag and the payload of a message.
pub open spec fn body_of(m: MessageView) -> Seq<u8> {
    seq![kind_byte(tag_of(m))] + payload_of(m)
}

/// The full frame of a message: length, tag, payload.
pub open spec fn frame_of(m: MessageView) -> Seq<u8> {
    be32((1 + payload_len(m)) as u32) + body_of(m)
}

/// What the tag and payload in `body` decode to.
pub open spec fn parse_spec(body: Seq<u8>) -> Result<MessageView, ProtocolError> {
    if body.len() > MAX_MESSAGE_LEN {
        Err(ProtocolError::OversizedMessage(body.len() as u32))
    } else if body.len() == 0 {
        Err(ProtocolError::MalformedMessage)
    } else {
        let tag = body[0];
        if tag == 0 {
            Ok(MessageView::Choke)
        } else if tag == 1 {
            Ok(MessageView::Unchoke)
        } else if tag == 2 {
            Ok(MessageView::Interested)
        } else if tag == 3 {
            Ok(MessageView::NotInterested)
        } else if tag == 4 {
            if body.len() < 5 {
                Err(ProtocolError::MalformedMessage)
            } else {
                Ok(MessageView::Have(read_be32(body, 1)))
            }
        } else if tag == 5 {
            Ok(MessageView::Bitfield(unpack_bits(body.subrange(1, body.len() as int))))
        } else if tag == 6 || tag == 8 {
            if body.len() < 13 {
                Err(ProtocolError::MalformedMessage)
            } else if tag == 6 {
                Ok(
                    MessageView::Request {
                        index: read_be32(body, 1),
                        begin: read_be32(body, 5),
                        length: read_be32(body, 9),
                    },
                )
            } else {
                Ok(
                    MessageView::Cancel {
                        index: read_be32(body, 1),
                        begin: read_be32(body, 5),
                        length: read_be32(body, 9),
                    },
                )
            }
        } else if tag == 7 {
            if body.len() < 9 {
                Err(ProtocolError::MalformedMessage)
            } else {
                Ok(
                    MessageView::Piece {
                        index: read_be32(body, 1),
                        begin: read_be32(body, 5),
                        data: body.subrange(9, body.len() as int),
                    },
                )
            }
        } else {
            Err(ProtocolError::UnknownMessage(tag))
        }
    }
}

/// What a length prefix announces.
#[derive(Debug, Clone, Copy, PartialEq, Eq, Structural)]
pub enum FrameHeader {
    /// A zero-length frame: no message follows.
    KeepAlive,
    /// A message of this many bytes (tag and payload) follows.
    Body(usize),
}

/// What the four bytes of a length prefix announce.
pub open spec fn header_spec(prefix: Seq<u8>) -> Result<FrameHeader, ProtocolError> {
    let n = read_be32(prefix, 0);
    if n == 0 {
        Ok(FrameHeader::KeepAlive)
    } else if n > MAX_MESSAGE_LEN {
        Err(ProtocolError::OversizedMessage(n))
    } else {
        Ok(FrameHeader::Body(n as usize))
    }
}

/// What a whole frame decodes to: `None` for a keep-alive.
pub open spec fn decode_spec(frame: Seq<u8>) -> Result<Option<MessageView>, ProtocolError> {
    if frame.len() < 4 {
        Err(ProtocolError::MalformedMessage)
    } else {
        match header_spec(frame.subrange(0, 4)) {
            Err(e) => Err(e),
            Ok(FrameHeader::KeepAlive) => if frame.len() == 4 {
                Ok(None)
            } else {
                Err(ProtocolError::MalformedMessage)
            },
            Ok(FrameHeader::Body(n)) => if frame.len() != 4 + n {
                Err(ProtocolError::MalformedMessage)
            } else {
                match parse_spec(frame.subrange(4, frame.len() as int)) {
                    Ok(m) => Ok(Some(m)),
                    Err(e) => Err(e),
                }
            },
        }
    }
}

/// Reading back the four big-endian bytes of `x` gives `x`.
pub proof fn lemma_be32_round_trip(x: u32, s: Seq<u8>, at: int)
    requires
        0 <= at,
        at + 4 <= s.len(),
        s.subrange(at, at + 4) == be32(x),
    ensures
        read_be32(s, at) == x,
{
    assert(s[at] == be32(x)[0]);
    assert(s[at + 1] == be32(x)[1]);
    assert(s[at + 2] == be32(x)[2]);
    assert(s[at + 3] == be32(x)[3]);
    let a = x / 0x100_0000;
    let b = x / 0x1_0000 % 0x100;
    let c = x / 0x100 % 0x100;
    let d = x % 0x100;
    assert(a * 0x100_0000 + b * 0x1_0000 + c * 0x100 + d == x) by (nonlinear_arith)
        requires
            a == x / 0x100_0000,
            b == x / 0x1_0000 % 0x100,
            c == x / 0x100 % 0x100,
            d == x % 0x100,
    ;
}

/// The payload of a message has the length that its frame announces.
pub proof fn lemma_payload_len(m: MessageView)
    ensures
        payload_of(m).len() == payload_len(m),
{
}

/// Decoding the frame of a message gives the message back, for every message whose
/// frame is within the maximum length; a bit field must fill its last byte, since
/// its padding bits come back as bits.
pub proof fn lemma_decode_encode(m: MessageView)
    requires
        1 + payload_len(m) <= MAX_MESSAGE_LEN,
        m is Bitfield ==> m->Bitfield_0.len() % 8 == 0,
    ensures
        decode_spec(frame_of(m)) == Ok::<Option<MessageView>, ProtocolError>(Some(m)),
{
    let n = (1 + payload_len(m)) as u32;
    let f = frame_of(m);
    let body = body_of(m);
    let p = payload_of(m);
    lemma_payload_len(m);
    assert(f.subrange(0, 4) =~= be32(n));
    assert(f.subrange(0, 4).subrange(0, 4) =~= be32(n));
    lemma_be32_round_trip(n, f.subrange(0, 4), 0);
    assert(header_spec(f.subrange(0, 4)) == Ok::<FrameHeader, ProtocolError>(
        FrameHeader::Body(n as usize),
    ));
    assert(f.subrange(4, f.len() as int) =~= body);
    assert(body[0] == kind_byte(tag_of(m)));
    assert(body.subrange(1, body.len() as int) =~= p);
    match m {
        MessageView::Have(i) => {
            assert(body.subrange(1, 5) =~= be32(i));
            lemma_be32_round_trip(i, body, 1);
        },
        MessageView::Bitfield(bits) => {
            lemma_unpack_pack(bits);
        },
        MessageView::Request { index, begin, length } | MessageView::Cancel {
            index,
            begin,
            length,
        } => {
            assert(body.subrange(1, 5) =~= be32(index));
            assert(body.subrange(5, 9) =~= be32(begin));
            assert(body.subrange(9, 13) =~= be32(length));
            lemma_be32_round_trip(index, body, 1);
            lemma_be32_round_trip(begin, body, 5);
            lemma_be32_round_trip(length, body, 9);
        },
        MessageView::Piece { index, begin, data } => {
            assert(body.subrange(1, 5) =~= be32(index));
            assert(body.subrange(5, 9) =~= be32(begin));
            assert(body.subrange(9, body.len() as int) =~= data);
            lemma_be32_round_trip(index, body, 1);
            lemma_be32_round_trip(begin, body, 5);
        },
        _ => {},
    }
}

/// A bit field decodes to the bits of its bytes, most significant first, and encodes
/// back to the same bytes.
pub proof fn lemma_bitfield_bit_exact(bytes: Seq<u8>)
    requires
        1 + bytes.len() <= MAX_MESSAGE_LEN,
    ensures
        parse_spec(seq![kind_byte(MessageKind::Bitfield)] + bytes) == Ok::<
            MessageView,
            ProtocolError,
        >(MessageView::Bitfield(unpack_bits(bytes))),
        payload_of(MessageView::Bitfield(unpack_bits(bytes))) == bytes,
{
    let body = seq![kind_byte(MessageKind::Bitfield)] + bytes;
    assert(body.subrange(1, body.len() as int) =~= bytes);
    lemma_pack_unpack(bytes);
}

/// Appends the four big-endian bytes of `x`.
fn push_be32(out: &mut Vec<u8>, x: u32)
    ensures
        final(out)@ == old(out)@ + be32(x),
{
    out.push((x / 0x100_0000) as u8);
    out.push((x / 0x1_0000 % 0x100) as u8);
    out.push((x / 0x100 % 0x100) as u8);
    out.push((x % 0x100) as u8);
    assert(out@ =~= old(out)@ + be32(x));
}

/// The big-endian `u32` at `at` in `b`.
fn get_be32(b: &[u8], at: usize) -> (r: u32)
    requires
        at + 4 <= b@.len(),
    ensures
        r == read_be32(b@, at as int),
{
    (b[at] as u32) * 0x100_0000 + (b[at + 1] as u32) * 0x1_0000 + (b[at + 2] as u32) * 0x100 + (
    b[at + 3] as u32)
}

impl Message {
    /// The kind of this message.
    pub fn tag(&self) -> (r: MessageKind)
        ensures
            r == tag_of(self@),
    {
        match self {
            Message::Choke => MessageKind::Choke,
            Message::Unchoke => MessageKind::Unchoke,
            Message::Interested => MessageKind::Interested,
            Message::NotInterested => MessageKind::NotInterested,
            Message::Have(_) => MessageKind::Have,
            Message::Bitfield(_) => MessageKind::Bitfield,
            Message::Request { .. } => MessageKind::Request,
            Message::Piece { .. } => MessageKind::Piece,
            Message::Cancel { .. } => MessageKind::Cancel,
        }
    }

    /// The length of the payload, which follows the tag.
    pub fn size(&self) -> (r: u32)
        requires
            encodable(self@),
        ensures
            r == payload_len(self@),
    {
        match self {
            Message::Have(_) => 4,
            Message::Bitfield(bits) => {
                let n = bitvec_len(bits);
                (n / 8 + if n % 8 == 0 { 0 } else { 1 }) as u32
            },
            Message::Request { .. } => 12,
            Message::Piece { data, .. } => 8 + data.len() as u32,
            Message::Cancel { .. } => 12,
            _ => 0,
        }
    }

    /// The full frame of this message: big-endian length, tag and payload.
    pub fn encode(&self) -> (r: Vec<u8>)
        requires
            encodable(self@),
        ensures
            r@ == frame_of(self@),
    {
        let mut out: Vec<u8> = Vec::new();
        let len = self.size() + 1;
        push_be32(&mut out, len);
        out.push(self.tag().byte());
        match self {
            Message::Have(piece) => {
                push_be32(&mut out, *piece);
            },
            Message::Bitfield(bits) => {
                let mut bytes = bitvec_to_bytes(bits);
                out.append(&mut bytes);
            },
            Message::Request { index, begin, length } | Message::Cancel { index, begin, length } => {
                push_be32(&mut out, *index);
                push_be32(&mut out, *begin);
                push_be32(&mut out, *length);
            },
            Message::Piece { index, begin, data } => {
                push_be32(&mut out, *index);
                push_be32(&mut out, *begin);
                let mut bytes = slice_to_vec(data.as_slice());
                out.append(&mut bytes);
            },
            _ => {},
        }
        assert(out@ =~= frame_of(self@));
        out
    }
}

/// Decodes the tag and payload of one frame (what follows the length prefix).
pub fn parse_message(buf: &[u8]) -> (r: Result<Message, ProtocolError>)
    ensures
        match (r, parse_spec(buf@)) {
            (Ok(m), Ok(v)) => m@ == v,
            (Err(e), Err(f)) => e == f,
            _ => false,
        },
{
    let len = buf.len();
    if len > MAX_MESSAGE_LEN {
        return Err(ProtocolError::OversizedMessage(len as u32));
    }
    if len == 0 {
        return Err(ProtocolError::MalformedMessage);
    }
    let tag = buf[0];
    if tag == 0 {
        Ok(Message::Choke)
    } else if tag == 1 {
        Ok(Message::Unchoke)
    } else if tag == 2 {
        Ok(Message::Interested)
    } else if tag == 3 {
        Ok(Message::NotInterested)
    } else if tag == 4 {
        if len < 5 {
            Err(ProtocolError::MalformedMessage)
        } else {
            Ok(Message::Have(get_be32(buf, 1)))
        }
    } else if tag == 5 {
        Ok(Message::Bitfield(bitvec_from_bytes(slice_subrange(buf, 1, len))))
    } else if tag == 6 || tag == 8 {
        if len < 13 {
            Err(ProtocolError::MalformedMessage)
        } else {
            let index = get_be32(buf, 1);
            let begin = get_be32(buf, 5);
            let length = get_be32(buf, 9);
            if tag == 6 {
                Ok(Message::Request { index, begin, length })
            } else {
                Ok(Message::Cancel { index, begin, length })
            }
        }
    } else if tag == 7 {
        if len < 9 {
            Err(ProtocolError::MalformedMessage)
        } else {
            let index = get_be32(buf, 1);
            let begin = get_be32(buf, 5);
            let data = slice_to_vec(slice_subrange(buf, 9, len));
            Ok(Message::Piece { index, begin, data })
        }
    } else {
        Err(ProtocolError::UnknownMessage(tag))
    }
}

/// Reads a length prefix: a keep-alive, the length of the message that follows,
/// or an error when that length exceeds the maximum.
pub fn frame_header(prefix: &[u8; 4]) -> (r: Result<FrameHeader, ProtocolError>)
    ensures
        r == header_spec(prefix@),
{
    let n = get_be32(prefix.as_slice(), 0);
    if n == 0 {
        Ok(FrameHeader::KeepAlive)
    } else if n as usize > MAX_MESSAGE_LEN {
        Err(ProtocolError::OversizedMessage(n))
    } else {
        Ok(FrameHeader::Body(n as usize))
    }
}

/// Decodes one whole frame: `Ok(None)` for a keep-alive.
pub fn decode(frame: &[u8]) -> (r: Result<Option<Message>, ProtocolError>)
    ensures
        match (r, decode_spec(frame@)) {
            (Ok(Some(m)), Ok(Some(v))) => m@ == v,
            (Ok(None), Ok(None)) => true,
            (Err(e), Err(f)) => e == f,
            _ => false,
        },
{
    let len = frame.len();
    if len < 4 {
        return Err(ProtocolError::MalformedMessage);
    }
    let prefix: [u8; 4] = [frame[0], frame[1], frame[2], frame[3]];
    assert(prefix@ =~= frame@.subrange(0, 4));
    match frame_header(&prefix) {
        Err(e) => Err(e),
        Ok(FrameHeader::KeepAlive) => if len == 4 {
            Ok(None)
        } else {
            Err(ProtocolError::MalformedMessage)
        },
        Ok(FrameHeader::Body(n)) => if len - 4 != n {
            Err(ProtocolError::MalformedMessage)
        } else {
            match parse_message(slice_subrange(frame, 4, len)) {
                Ok(m) => Ok(Some(m)),
                Err(e) => Err(e),
            }
        },
    }
}

} // verus!
