use sharku::fs::block_range;
use sharku::state::DownloadState;
use sharku::tracker::{announce_query, decode_compact_peers, Peer, TrackerError};

#[test]
fn compact_peers_decode_in_order() {
    let bytes = [127, 0, 0, 1, 0x1a, 0xe1, 10, 1, 2, 3, 0, 80];
    let peers = decode_compact_peers(&bytes).unwrap();
    assert_eq!(
        peers,
        vec![Peer { ip: [127, 0, 0, 1], port: 6881 }, Peer { ip: [10, 1, 2, 3], port: 80 }]
    );
    assert_eq!(decode_compact_peers(&[]).unwrap(), vec![]);
}

#[test]
fn compact_peers_wrong_length() {
    assert_eq!(decode_compact_peers(&[1, 2, 3, 4, 5]), Err(TrackerError::CompactPeersLength(5)));
}

#[test]
fn announce_query_text() {
    let state = DownloadState { uploaded: 0, downloaded: 12, left: 4096 };
    let mut info_hash = [0u8; 20];
    info_hash[0] = 0xab;
    info_hash[19] = 0x0f;
    let q = announce_query(6881, b"unpetitnuagebleuvert", &state, &info_hash);
    let expected = format!(
        "port=6881&compact=1&peer_id=unpetitnuagebleuvert&left=4096&uploaded=0&downloaded=12&info_hash=%AB{}%0F",
        "%00".repeat(18)
    );
    assert_eq!(String::from_utf8(q).unwrap(), expected);
}

#[test]
fn block_range_bounds() {
    assert_eq!(block_range(16384, 16384, 32768), Some((16384, 32768)));
    assert_eq!(block_range(16384, 16385, 32768), None);
    assert_eq!(block_range(40000, 0, 32768), None);
    assert_eq!(block_range(u64::MAX, 2, u64::MAX), None);
}
