use bit_vec::BitVec;
use sha1::{Digest, Sha1};
use sharku::message::BLOCK_LENGTH;
use sharku::pieces::{
    BlockError, BlockOutcome, BlockSpec, MetadataError, PieceVerdict, PiecesActor,
};
use sharku::torrent_file::{info_hash_of, Info};

const B: usize = BLOCK_LENGTH as usize;

fn digest(data: &[u8]) -> [u8; 20] {
    Sha1::digest(data).into()
}

/// A file of three blocks in two pieces of two blocks: piece 0 holds blocks of
/// 0x11 and 0x22, piece 1 a single short block of 0x33.
fn content() -> (Vec<u8>, Vec<u8>, Vec<u8>) {
    (vec![0x11; B], vec![0x22; B], vec![0x33; 100])
}

fn manager(max_retries: u32) -> PiecesActor {
    let (a, b, c) = content();
    let mut p0 = a.clone();
    p0.extend_from_slice(&b);
    let mut hashes = digest(&p0).to_vec();
    hashes.extend_from_slice(&digest(&c));
    PiecesActor::new((2 * B + 100) as u64, 2 * BLOCK_LENGTH, &hashes, max_retries).unwrap()
}

fn all_bits(n: usize) -> BitVec {
    BitVec::from_elem(n, true)
}

#[test]
fn compute_pieces_count() {
    let info = Info {
        name: String::new(),
        pieces: Vec::new(),
        piece_length: BLOCK_LENGTH,
        md5sum: None,
        length: Some(3 * BLOCK_LENGTH as usize + 1),
        files: None,
        private: None,
        path: None,
        root_hash: None,
    };
    assert_eq!(info.pieces_count(), 4);
}

#[test]
fn pieces_count_rounds_up() {
    let mut info = Info {
        name: String::new(),
        pieces: Vec::new(),
        piece_length: 16384,
        md5sum: None,
        length: Some(49153),
        files: None,
        private: None,
        path: None,
        root_hash: None,
    };
    assert_eq!(info.pieces_count(), 4);
    info.length = Some(49152);
    assert_eq!(info.pieces_count(), 3);
    info.length = None;
    assert_eq!(info.pieces_count(), 0);
    info.length = Some(usize::MAX);
    info.piece_length = 2;
    assert_eq!(info.pieces_count(), usize::MAX / 2 + 1);
}

#[test]
fn info_hash_is_sha1() {
    let bytes = b"d4:name3:abce";
    assert_eq!(info_hash_of(bytes), digest(bytes));
    assert_ne!(info_hash_of(bytes)[..13], bytes[..]);
}

#[test]
fn new_checks_metadata() {
    assert_eq!(
        PiecesActor::new(10, 0, &[], 1).err(),
        Some(MetadataError::ZeroPieceLength)
    );
    assert_eq!(
        PiecesActor::new(10, 4, &[0u8; 40], 1).err(),
        Some(MetadataError::HashCountMismatch)
    );
    let m = PiecesActor::new(10, 4, &[0u8; 60], 1).unwrap();
    assert_eq!(m.pieces_count(), 3);
    assert!(!m.all_complete());
    let empty = PiecesActor::new(0, 4, &[], 1).unwrap();
    assert_eq!(empty.pieces_count(), 0);
    assert!(empty.all_complete());
}

#[test]
fn schedules_lowest_piece_and_offset_first() {
    let mut m = manager(1);
    let got = m.next_blocks_for(1, &all_bits(2), 2);
    assert_eq!(
        got,
        vec![
            BlockSpec { index: 0, begin: 0, length: BLOCK_LENGTH },
            BlockSpec { index: 0, begin: BLOCK_LENGTH, length: BLOCK_LENGTH },
        ]
    );
    let rest = m.next_blocks_for(2, &all_bits(2), 10);
    assert_eq!(rest, vec![BlockSpec { index: 1, begin: 0, length: 100 }]);
    assert_eq!(m.next_blocks_for(3, &all_bits(2), 10), vec![]);
}

#[test]
fn schedules_only_pieces_the_peer_has() {
    let mut m = manager(1);
    let mut bits = BitVec::from_elem(2, false);
    bits.set(1, true);
    assert_eq!(
        m.next_blocks_for(1, &bits, 10),
        vec![BlockSpec { index: 1, begin: 0, length: 100 }]
    );
    assert_eq!(m.next_blocks_for(1, &BitVec::new(), 10), vec![]);
}

#[test]
fn closed_session_returns_its_blocks() {
    let mut m = manager(1);
    let got = m.next_blocks_for(1, &all_bits(2), 3);
    assert_eq!(got.len(), 3);
    m.on_session_closed(2, &got);
    assert_eq!(m.next_blocks_for(3, &all_bits(2), 3), vec![]);
    m.on_session_closed(1, &got[..1]);
    assert_eq!(m.next_blocks_for(3, &all_bits(2), 3), vec![got[0]]);
}

#[test]
fn piece_completes_when_every_block_matches() {
    let (a, b, c) = content();
    let mut m = manager(1);
    assert_eq!(m.on_block_received(0, 0, a.clone()), Ok(BlockOutcome::Stored { offset: 0 }));
    assert!(!m.is_complete(0));
    assert_eq!(
        m.on_block_received(0, BLOCK_LENGTH, b.clone()),
        Ok(BlockOutcome::Verified { offset: B as u64 })
    );
    assert!(m.is_complete(0));
    assert!(!m.all_complete());
    assert_eq!(
        m.on_block_received(1, 0, c.clone()),
        Ok(BlockOutcome::Verified { offset: 2 * B as u64 })
    );
    assert!(m.all_complete());
    assert!(m.snapshot_bitfield().eq_vec(&[true, true]));
    assert_eq!(m.next_blocks_for(1, &all_bits(2), 10), vec![]);
}

#[test]
fn delivering_a_block_twice_counts_it_once() {
    let (a, _, _) = content();
    let mut m = manager(1);
    assert_eq!(m.on_block_received(0, 0, a.clone()), Ok(BlockOutcome::Stored { offset: 0 }));
    assert_eq!(m.on_block_received(0, 0, a.clone()), Ok(BlockOutcome::Ignored));
    assert!(!m.is_complete(0));
    assert_eq!(
        m.next_blocks_for(1, &all_bits(2), 10),
        vec![
            BlockSpec { index: 0, begin: BLOCK_LENGTH, length: BLOCK_LENGTH },
            BlockSpec { index: 1, begin: 0, length: 100 },
        ]
    );
}

#[test]
fn verified_piece_ignores_further_blocks() {
    let (_, _, c) = content();
    let mut m = manager(1);
    assert!(matches!(m.on_block_received(1, 0, c.clone()), Ok(BlockOutcome::Verified { .. })));
    assert_eq!(m.on_block_received(1, 0, c), Ok(BlockOutcome::Ignored));
    assert!(m.is_complete(1));
}

#[test]
fn corrupted_block_keeps_piece_incomplete_and_reoffers_it() {
    let (a, b, _) = content();
    let mut m = manager(1);
    let mut bad = b.clone();
    bad[7] ^= 0xff;
    assert_eq!(m.on_block_received(0, 0, a.clone()), Ok(BlockOutcome::Stored { offset: 0 }));
    assert_eq!(
        m.on_block_received(0, BLOCK_LENGTH, bad),
        Ok(BlockOutcome::Rejected { poisoned: false })
    );
    assert!(!m.is_complete(0));
    assert_eq!(
        m.next_blocks_for(1, &all_bits(2), 2),
        vec![
            BlockSpec { index: 0, begin: 0, length: BLOCK_LENGTH },
            BlockSpec { index: 0, begin: BLOCK_LENGTH, length: BLOCK_LENGTH },
        ]
    );
    assert_eq!(m.on_block_received(0, 0, a), Ok(BlockOutcome::Stored { offset: 0 }));
    assert!(matches!(m.on_block_received(0, BLOCK_LENGTH, b), Ok(BlockOutcome::Verified { .. })));
    assert!(m.is_complete(0));
}

#[test]
fn piece_failing_too_often_is_given_up() {
    let (_, _, c) = content();
    let mut m = manager(1);
    let mut bad = c.clone();
    bad[0] = 0;
    assert_eq!(
        m.on_block_received(1, 0, bad.clone()),
        Ok(BlockOutcome::Rejected { poisoned: false })
    );
    assert_eq!(
        m.on_block_received(1, 0, bad),
        Ok(BlockOutcome::Rejected { poisoned: true })
    );
    assert_eq!(m.on_block_received(1, 0, c), Ok(BlockOutcome::Ignored));
    assert!(!m.is_complete(1));
    let mut bits = BitVec::from_elem(2, false);
    bits.set(1, true);
    assert_eq!(m.next_blocks_for(1, &bits, 10), vec![]);
}

#[test]
fn conclude_piece_by_digest() {
    let (a, b, _) = content();
    let mut p0 = a.clone();
    p0.extend_from_slice(&b);
    let mut m = manager(0);
    assert!(!m.is_filled(0));
    assert_eq!(m.conclude_piece(0, &digest(&p0)), None);
    assert_eq!(m.accept_block(0, 0, a.clone()), Ok(Some(0)));
    assert_eq!(m.accept_block(0, 0, a.clone()), Ok(None));
    assert_eq!(m.accept_block(0, BLOCK_LENGTH, b.clone()), Ok(Some(B as u64)));
    assert!(m.is_filled(0));
    assert!(!m.is_complete(0));
    assert_eq!(
        m.conclude_piece(0, &[0u8; 20]),
        Some(PieceVerdict::Rejected { poisoned: true })
    );
    assert!(!m.is_filled(0));

    let mut m = manager(0);
    assert_eq!(m.accept_block(0, 0, a), Ok(Some(0)));
    assert_eq!(m.accept_block(0, BLOCK_LENGTH, b), Ok(Some(B as u64)));
    assert_eq!(m.conclude_piece(0, &digest(&p0)), Some(PieceVerdict::Verified));
    assert!(m.is_complete(0));
    assert_eq!(m.conclude_piece(0, &digest(&p0)), None);
}

#[test]
fn bad_blocks_are_refused() {
    let mut m = manager(1);
    assert_eq!(m.on_block_received(2, 0, vec![0; 100]), Err(BlockError::UnknownPiece));
    assert_eq!(m.on_block_received(0, 1, vec![0; B]), Err(BlockError::BadBlock));
    assert_eq!(m.on_block_received(0, 2 * BLOCK_LENGTH, vec![0; B]), Err(BlockError::BadBlock));
    assert_eq!(m.on_block_received(0, 0, vec![0; B - 1]), Err(BlockError::BadBlock));
    assert_eq!(m.on_block_received(1, 0, vec![0; B]), Err(BlockError::BadBlock));
}

