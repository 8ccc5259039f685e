//! What the library knows of the tracker: the announce query it sends and the
//! compact peer list it gets back. The HTTP exchange and the bencode decoding
//! happen outside the library.
use crate::state::DownloadState;
use vstd::prelude::*;

verus! {

/// A peer address from the tracker: an IPv4 address and a port.
#[derive(Debug, Clone, Copy, PartialEq, Eq)]
pub struct Peer {
    pub port: u16,
    pub ip: [u8; 4],
}

/// The tracker's answer to an announce.
#[derive(Debug)]
pub struct TrackerResponse {
    pub failure_reason: Option<String>,
    pub interval: Option<usize>,
    /// Compact peer list: six bytes per peer.
    pub peers: Vec<u8>,
}

/// Why a tracker answer was refused.
#[derive(Debug, Clone, Copy, PartialEq, Eq, Structural)]
pub enum TrackerError {
    /// The compact peer list is not a whole number of six-byte entries.
    CompactPeersLength(usize),
}

/// The peer held in the six bytes at `at`: four address bytes, then a big-endian port.
pub open spec fn compact_peer(s: Seq<u8>, at: int) -> Peer {
    Peer {
        ip: [s[at], s[at + 1], s[at + 2], s[at + 3]],
        port: (s[at + 4] * 256 + s[at + 5]) as u16,
    }
}

/// Splits a compact peer list into its peers, in order.
pub fn decode_compact_peers(compact_peers: &[u8]) -> (r: Result<Vec<Peer>, TrackerError>)
    ensures
        compact_peers@.len() % 6 != 0 <==> r is Err,
        r is Err ==> r == Err::<Vec<Peer>, TrackerError>(
            TrackerError::CompactPeersLength(compact_peers@.len() as usize),
        ),
        r is Ok ==> r->Ok_0@.len() == compact_peers@.len() / 6 && forall|i: int|
            0 <= i < r->Ok_0@.len() ==> #[trigger] r->Ok_0@[i] == compact_peer(
                compact_peers@,
                6 * i,
            ),
{
    let len = compact_peers.len();
    if len % 6 != 0 {
        return Err(TrackerError::CompactPeersLength(len));
    }
    let n = len / 6;
    let mut peers: Vec<Peer> = Vec::new();
    let mut i: usize = 0;
    while i < n
        invariant
            i <= n,
            n == len / 6,
            len == compact_peers@.len(),
            len % 6 == 0,
            peers@.len() == i,
            forall|k: int| 0 <= k < i ==> #[trigger] peers@[k] == compact_peer(compact_peers@, 6 * k),
        decreases n - i,
    {
        let at = 6 * i;
        let ip: [u8; 4] = [
            compact_peers[at],
            compact_peers[at + 1],
            compact_peers[at + 2],
            compact_peers[at + 3],
        ];
        let port = (compact_peers[at + 4] as u16) * 256 + compact_peers[at + 5] as u16;
        let peer = Peer { port, ip };
        assert(peer == compact_peer(compact_peers@, 6 * i));
        peers.push(peer);
        i = i + 1;
    }
    Ok(peers)
}

/// The ASCII decimal digits of `n`.
pub open spec fn decimal(n: nat) -> Seq<u8>
    decreases n,
{
    if n < 10 {
        seq![(48 + n) as u8]
    } else {
        decimal(n / 10).push((48 + n % 10) as u8)
    }
}

/// The upper-case hexadecimal digit of `d`, below 16.
pub open spec fn hex_digit(d: nat) -> u8 {
    if d < 10 {
        (48 + d) as u8
    } else {
        (55 + d) as u8
    }
}

/// Each byte written as `%` and two upper-case hexadecimal digits.
pub open spec fn percent_encoded(s: Seq<u8>) -> Seq<u8>
    decreases s.len(),
{
    if s.len() == 0 {
        Seq::empty()
    } else {
        percent_encoded(s.drop_last()) + seq![
            37u8,
            hex_digit((s.last() / 16) as nat),
            hex_digit((s.last() % 16) as nat),
        ]
    }
}

/// Appends the decimal digits of `n`.
fn push_decimal(out: &mut Vec<u8>, n: u64)
    ensures
        final(out)@ == old(out)@ + decimal(n as nat),
{
    let mut digits: Vec<u8> = Vec::new();
    let mut m = n;
    while m >= 10
        invariant
            decimal(n as nat) == decimal(m as nat) + digits@,
        decreases m,
    {
        digits.insert(0, (48 + m % 10) as u8);
        proof {
            assert(decimal(m as nat) == decimal((m / 10) as nat).push((48 + m % 10) as u8));
        }
        m = m / 10;
        assert(decimal(n as nat) =~= decimal(m as nat) + digits@);
    }
    digits.insert(0, (48 + m) as u8);
    assert(decimal(n as nat) =~= digits@);
    out.append(&mut digits);
}

/// Appends the bytes of `s`.
fn push_bytes(out: &mut Vec<u8>, s: &[u8])
    ensures
        final(out)@ == old(out)@ + s@,
{
    let mut i: usize = 0;
    while i < s.len()
        invariant
            i <= s@.len(),
            out@ == old(out)@ + s@.subrange(0, i as int),
        decreases s@.len() - i,
    {
        out.push(s[i]);
        i = i + 1;
        assert(out@ =~= old(out)@ + s@.subrange(0, i as int));
    }
    assert(s@.subrange(0, s@.len() as int) =~= s@);
}

/// The upper-case hexadecimal digit of `d`, computed.
fn hex_digit_exec(d: u8) -> (r: u8)
    requires
        d < 16,
    ensures
        r == hex_digit(d as nat),
{
    if d < 10 {
        48 + d
    } else {
        55 + d
    }
}

/// Appends `s` percent-encoded.
fn push_percent_encoded(out: &mut Vec<u8>, s: &[u8])
    ensures
        final(out)@ == old(out)@ + percent_encoded(s@),
{
    let mut i: usize = 0;
    while i < s.len()
        invariant
            i <= s@.len(),
            out@ == old(out)@ + percent_encoded(s@.subrange(0, i as int)),
        decreases s@.len() - i,
    {
        let b = s[i];
        out.push(37);
        out.push(hex_digit_exec(b / 16));
        out.push(hex_digit_exec(b % 16));
        proof {
            let t = s@.subrange(0, i + 1);
            assert(t.drop_last() =~= s@.subrange(0, i as int));
            assert(t.last() == b);
        }
        i = i + 1;
        assert(out@ =~= old(out)@ + percent_encoded(s@.subrange(0, i as int)));
    }
    assert(s@.subrange(0, s@.len() as int) =~= s@);
}

/// `port=`
pub const QUERY_PORT: [u8; 5] = [112, 111, 114, 116, 61];
/// `&compact=1&peer_id=`
pub const QUERY_PEER_ID: [u8; 19] = [
    38, 99, 111, 109, 112, 97, 99, 116, 61, 49, 38, 112, 101, 101, 114, 95, 105, 100, 61,
];
/// `&left=`
pub const QUERY_LEFT: [u8; 6] = [38, 108, 101, 102, 116, 61];
/// `&uploaded=`
pub const QUERY_UPLOADED: [u8; 10] = [38, 117, 112, 108, 111, 97, 100, 101, 100, 61];
/// `&downloaded=`
pub const QUERY_DOWNLOADED: [u8; 12] = [38, 100, 111, 119, 110, 108, 111, 97, 100, 101, 100, 61];
/// `&info_hash=`
pub const QUERY_INFO_HASH: [u8; 11] = [38, 105, 110, 102, 111, 95, 104, 97, 115, 104, 61];

/// The announce query: port, compact form, peer id as it is, the three counters in
/// decimal and the percent-encoded info-hash.
pub open spec fn announce_query_spec(
    port: u16,
    peer_id: Seq<u8>,
    state: DownloadState,
    info_hash: Seq<u8>,
) -> Seq<u8> {
    QUERY_PORT@ + decimal(port as nat) + QUERY_PEER_ID@ + peer_id + QUERY_LEFT@ + decimal(
        state.left as nat,
    ) + QUERY_UPLOADED@ + decimal(state.uploaded as nat) + QUERY_DOWNLOADED@ + decimal(
        state.downloaded as nat,
    ) + QUERY_INFO_HASH@ + percent_encoded(info_hash)
}

/// The query string of an announce to the tracker.
pub fn announce_query(
    port: u16,
    peer_id: &[u8; 20],
    download_state: &DownloadState,
    info_hash: &[u8; 20],
) -> (r: Vec<u8>)
    ensures
        r@ == announce_query_spec(port, peer_id@, *download_state, info_hash@),
{
    let mut out: Vec<u8> = Vec::new();
    push_bytes(&mut out, QUERY_PORT.as_slice());
    push_decimal(&mut out, port as u64);
    push_bytes(&mut out, QUERY_PEER_ID.as_slice());
    push_bytes(&mut out, peer_id.as_slice());
    push_bytes(&mut out, QUERY_LEFT.as_slice());
    push_decimal(&mut out, download_state.left as u64);
    push_bytes(&mut out, QUERY_UPLOADED.as_slice());
    push_decimal(&mut out, download_state.uploaded as u64);
    push_bytes(&mut out, QUERY_DOWNLOADED.as_slice());
    push_decimal(&mut out, download_state.downloaded as u64);
    push_bytes(&mut out, QUERY_INFO_HASH.as_slice());
    push_percent_encoded(&mut out, info_hash.as_slice());
    assert(out@ =~= announce_query_spec(port, peer_id@, *download_state, info_hash@));
    out
}

} // verus!
