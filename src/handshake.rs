//! The fixed 68-byte preamble that opens every peer connection: the protocol
//! identifier, eight reserved bytes, the info-hash and the sender's peer id.
use crate::message::ProtocolError;
use vstd::prelude::*;

verus! {

/// Length byte, protocol identifier and reserved bytes: the first 28 bytes of a preamble.
pub const HANDSHAKE: [u8; 28] = [
    0x13, 0x42, 0x69, 0x74, 0x54, 0x6f, 0x72, 0x72, 0x65, 0x6e, 0x74, 0x20, 0x70, 0x72,
    0x6f, 0x74, 0x6f, 0x63, 0x6f, 0x6c, 0, 0, 0, 0, 0, 0, 0, 0,
];

/// Length of a whole preamble.
pub const HANDSHAKE_LEN: usize = 68;

/// `[0x13]`, "BitTorrent protocol", eight zero bytes.
pub open spec fn handshake_prefix() -> Seq<u8> {
    seq![
        0x13u8, 0x42u8, 0x69u8, 0x74u8, 0x54u8, 0x6fu8, 0x72u8, 0x72u8, 0x65u8, 0x6eu8, 0x74u8,
        0x20u8, 0x70u8, 0x72u8, 0x6fu8, 0x74u8, 0x6fu8, 0x63u8, 0x6fu8, 0x6cu8, 0u8, 0u8, 0u8, 0u8,
        0u8, 0u8, 0u8, 0u8,
    ]
}

/// The preamble that announces `info_hash` and `peer_id`.
pub open spec fn preamble_of(info_hash: Seq<u8>, peer_id: Seq<u8>) -> Seq<u8> {
    handshake_prefix() + info_hash + peer_id
}

/// A received preamble is accepted: the fixed prefix matches byte for byte and the
/// advertised info-hash is the expected one.
pub open spec fn preamble_accepted(received: Seq<u8>, expected_info_hash: Seq<u8>) -> bool {
    &&& received.len() == HANDSHAKE_LEN
    &&& received.subrange(0, 28) == handshake_prefix()
    &&& received.subrange(28, 48) == expected_info_hash
}

/// The preamble this side sends.
pub fn handshake_preamble(info_hash: &[u8; 20], peer_id: &[u8; 20]) -> (r: Vec<u8>)
    ensures
        r@ == preamble_of(info_hash@, peer_id@),
        r@.len() == HANDSHAKE_LEN,
{
    let mut out: Vec<u8> = Vec::new();
    let mut i: usize = 0;
    while i < 28
        invariant
            i <= 28,
            out@ == handshake_prefix().subrange(0, i as int),
        decreases 28 - i,
    {
        out.push(HANDSHAKE[i]);
        i = i + 1;
        assert(out@ =~= handshake_prefix().subrange(0, i as int));
    }
    let mut j: usize = 0;
    while j < 20
        invariant
            j <= 20,
            out@ == handshake_prefix() + info_hash@.subrange(0, j as int),
        decreases 20 - j,
    {
        out.push(info_hash[j]);
        j = j + 1;
        assert(out@ =~= handshake_prefix() + info_hash@.subrange(0, j as int));
    }
    let mut k: usize = 0;
    while k < 20
        invariant
            k <= 20,
            out@ == handshake_prefix() + info_hash@ + peer_id@.subrange(0, k as int),
        decreases 20 - k,
    {
        out.push(peer_id[k]);
        k = k + 1;
        assert(out@ =~= handshake_prefix() + info_hash@ + peer_id@.subrange(0, k as int));
    }
    assert(info_hash@.subrange(0, 20) =~= info_hash@);
    assert(peer_id@.subrange(0, 20) =~= peer_id@);
    out
}

/// Checks a received preamble against the expected info-hash and returns the remote
/// peer id; any difference in the fixed prefix or in the info-hash, or a wrong length,
/// is a handshake mismatch.
pub fn check_handshake(received: &[u8], expected_info_hash: &[u8; 20]) -> (r: Result<
    [u8; 20],
    ProtocolError,
>)
    ensures
        r is Ok <==> preamble_accepted(received@, expected_info_hash@),
        r is Ok ==> r->Ok_0@ == received@.subrange(48, 68),
        r is Err ==> r->Err_0 == ProtocolError::HandshakeMismatch,
{
    if received.len() != HANDSHAKE_LEN {
        return Err(ProtocolError::HandshakeMismatch);
    }
    let mut i: usize = 0;
    while i < 28
        invariant
            i <= 28,
            received@.len() == HANDSHAKE_LEN,
            received@.subrange(0, i as int) == handshake_prefix().subrange(0, i as int),
        decreases 28 - i,
    {
        if received[i] != HANDSHAKE[i] {
            assert(received@.subrange(0, 28)[i as int] != handshake_prefix()[i as int]);
            return Err(ProtocolError::HandshakeMismatch);
        }
        i = i + 1;
        assert(received@.subrange(0, i as int) =~= handshake_prefix().subrange(0, i as int));
    }
    assert(handshake_prefix().subrange(0, 28) =~= handshake_prefix());
    let mut j: usize = 0;
    while j < 20
        invariant
            j <= 20,
            received@.len() == HANDSHAKE_LEN,
            received@.subrange(0, 28) == handshake_prefix(),
            received@.subrange(28, 28 + j) == expected_info_hash@.subrange(0, j as int),
        decreases 20 - j,
    {
        if received[28 + j] != expected_info_hash[j] {
            assert(received@.subrange(28, 48)[j as int] != expected_info_hash@[j as int]);
            return Err(ProtocolError::HandshakeMismatch);
        }
        j = j + 1;
        assert(received@.subrange(28, 28 + j) =~= expected_info_hash@.subrange(0, j as int));
    }
    assert(expected_info_hash@.subrange(0, 20) =~= expected_info_hash@);
    let mut id: [u8; 20] = [0u8; 20];
    let mut k: usize = 0;
    while k < 20
        invariant
            k <= 20,
            received@.len() == HANDSHAKE_LEN,
            forall|t: int| 0 <= t < k ==> id@[t] == received@[48 + t],
        decreases 20 - k,
    {
        id[k] = received[48 + k];
        k = k + 1;
    }
    assert(id@ =~= received@.subrange(48, 68));
    Ok(id)
}

} // verus!
