//! The piece manager: the single owner of download progress. It keeps, for every
//! piece, which blocks have arrived and which are outstanding to a peer, reassembles
//! and verifies each piece against its expected SHA-1 digest, and decides which
//! blocks a peer is asked for next.
use crate::bits::{bits_of, bitvec_clone, bitvec_from_elem, bitvec_get, bitvec_len, bitvec_set};
use crate::message::BLOCK_LENGTH;
use bit_vec::BitVec;
use sha1::Digest;
use vstd::prelude::*;
use vstd::slice::slice_to_vec;

verus! {

/// The SHA-1 digest of a byte string.
pub uninterp spec fn sha1_of(data: Seq<u8>) -> Seq<u8>;

/// Relies on `sha1::Sha1` through `Digest::digest`: the 20-byte SHA-1 digest of `data`.
#[verifier::external_body]
pub(crate) fn sha1_digest(data: &[u8]) -> (r: [u8; 20])
    ensures
        r@ == sha1_of(data@),
{
    sha1::Sha1::digest(data).into()
}

/// A block of a piece: the unit that is requested and transferred.
#[derive(Debug, Clone, Copy, PartialEq, Eq, Structural)]
pub struct BlockSpec {
    pub index: u32,
    pub begin: u32,
    pub length: u32,
}

/// Number of pieces of `piece_length` bytes that cover `total_length` bytes.
pub open spec fn piece_count(total_length: nat, piece_length: nat) -> nat {
    (total_length / piece_length + if total_length % piece_length == 0 {
        0nat
    } else {
        1nat
    }) as nat
}

/// Size of piece `p`: the piece length, or what is left of the file for the last piece.
pub open spec fn piece_size(total_length: nat, piece_length: nat, p: int) -> nat {
    let rest = total_length - p * piece_length;
    if rest >= piece_length {
        piece_length
    } else {
        rest as nat
    }
}

/// Number of blocks in a piece of `size` bytes.
pub open spec fn block_count(size: nat) -> nat {
    piece_count(size, BLOCK_LENGTH as nat)
}

/// Length of block `b` of a piece of `size` bytes.
pub open spec fn block_len(size: nat, b: int) -> nat {
    piece_size(size, BLOCK_LENGTH as nat, b)
}

/// Every position below the count of `d`-sized chunks starts inside `total`.
pub proof fn lemma_chunk_start(total: nat, d: nat, p: nat)
    requires
        d > 0,
        p < piece_count(total, d),
    ensures
        p * d < total,
        piece_size(total, d, p as int) > 0,
        p * d + piece_size(total, d, p as int) <= total,
{
    let q = total / d;
    let r = total % d;
    assert(total == q * d + r && 0 <= r < d) by (nonlinear_arith)
        requires
            d > 0,
            q == total / d,
            r == total % d,
    ;
    if p < q {
        assert(p * d + d <= q * d) by (nonlinear_arith)
            requires
                p < q,
                d > 0,
        ;
    } else {
        assert(p == q);
    }
}

/// What the manager knows of one piece.
pub struct PieceRecord {
    received: Vec<bool>,
    owner: Vec<Option<usize>>,
    data: Vec<Vec<u8>>,
    failures: u64,
}

/// One piece as a mathematical value: for each block, whether it arrived, which
/// peer it is outstanding to, and its bytes; and how many times the piece failed
/// verification.
pub struct PieceView {
    pub received: Seq<bool>,
    pub owner: Seq<Option<usize>>,
    pub data: Seq<Seq<u8>>,
    pub failures: nat,
}

impl View for PieceRecord {
    type V = PieceView;

    closed spec fn view(&self) -> PieceView {
        PieceView {
            received: self.received@,
            owner: self.owner@,
            data: self.data@.map_values(|d: Vec<u8>| d@),
            failures: self.failures as nat,
        }
    }
}

/// The piece manager.
pub struct PiecesActor {
    piece_length: u32,
    total_length: u64,
    max_retries: u32,
    hashes: Vec<u8>,
    pieces: Vec<PieceRecord>,
    have: BitVec,
}

/// The piece manager as a mathematical value.
pub struct PiecesView {
    pub piece_length: nat,
    pub total_length: nat,
    pub max_retries: nat,
    /// The expected digests, 20 bytes per piece, one after the other.
    pub hashes: Seq<u8>,
    pub pieces: Seq<PieceView>,
    /// The completion bitmap: one bit per piece, set once the piece is verified.
    pub have: Seq<bool>,
}

impl View for PiecesActor {
    type V = PiecesView;

    closed spec fn view(&self) -> PiecesView {
        PiecesView {
            piece_length: self.piece_length as nat,
            total_length: self.total_length as nat,
            max_retries: self.max_retries as nat,
            hashes: self.hashes@,
            pieces: self.pieces@.map_values(|r: PieceRecord| r@),
            have: bits_of(self.have),
        }
    }
}

impl PiecesView {
    pub open spec fn count(self) -> nat {
        piece_count(self.total_length, self.piece_length)
    }

    pub open spec fn size(self, p: int) -> nat {
        piece_size(self.total_length, self.piece_length, p)
    }

    pub open spec fn blocks(self, p: int) -> nat {
        block_count(self.size(p))
    }

    /// The digest that piece `p` must have.
    pub open spec fn expected(self, p: int) -> Seq<u8> {
        self.hashes.subrange(20 * p, 20 * p + 20)
    }

    /// Piece `p` failed verification more often than retries allow and is no longer scheduled.
    pub open spec fn poisoned(self, p: int) -> bool {
        self.pieces[p].failures > self.max_retries
    }

    /// Every block of piece `p` has arrived.
    pub open spec fn all_received(self, p: int) -> bool {
        forall|b: int| 0 <= b < self.blocks(p) ==> #[trigger] self.pieces[p].received[b]
    }

    /// The bytes of piece `p`, its blocks one after the other.
    pub open spec fn content(self, p: int) -> Seq<u8> {
        concat_blocks(self.pieces[p].data, self.blocks(p))
    }

    /// Absolute file offset of byte `begin` of piece `p`.
    pub open spec fn offset(self, p: int, begin: int) -> int {
        p * self.piece_length + begin
    }

    pub open spec fn piece_wf(self, p: int) -> bool {
        let r = self.pieces[p];
        &&& r.received.len() == self.blocks(p)
        &&& r.owner.len() == self.blocks(p)
        &&& r.data.len() == self.blocks(p)
        &&& forall|b: int|
            0 <= b < self.blocks(p) ==> (#[trigger] r.received[b] ==> r.owner[b] is None)
        &&& forall|b: int|
            0 <= b < self.blocks(p) && !self.have[p] ==> (#[trigger] r.received[b] ==> r.data[b].len()
                == block_len(self.size(p), b))
        &&& self.have[p] ==> self.all_received(p)
        &&& self.have[p] || !self.poisoned(p) || forall|b: int|
            0 <= b < self.blocks(p) ==> !#[trigger] r.received[b]
    }

    /// The manager's invariant.
    pub open spec fn wf(self) -> bool {
        &&& 0 < self.piece_length <= u32::MAX
        &&& self.total_length <= u64::MAX
        &&& self.pieces.len() == self.count()
        &&& self.have.len() == self.count()
        &&& self.hashes.len() == 20 * self.count()
        &&& self.max_retries < u32::MAX + 1
        &&& forall|p: int| 0 <= p < self.count() ==> #[trigger] self.pieces[p].failures <= self.max_retries + 1
        &&& forall|p: int| 0 <= p < self.count() ==> #[trigger] self.piece_wf(p)
    }
}

/// The blocks `d[0..n]` one after the other.
pub open spec fn concat_blocks(d: Seq<Seq<u8>>, n: nat) -> Seq<u8>
    decreases n,
{
    if n == 0 {
        Seq::empty()
    } else {
        concat_blocks(d, (n - 1) as nat) + d[n - 1]
    }
}

/// Why torrent metadata cannot set up a piece manager.
#[derive(Debug, Clone, Copy, PartialEq, Eq, Structural)]
pub enum MetadataError {
    /// The piece length is zero.
    ZeroPieceLength,
    /// The digest list does not hold exactly 20 bytes per piece.
    HashCountMismatch,
}

/// A piece of `n` blocks with no bytes buffered and nothing outstanding, all of whose
/// blocks are marked `received` or not.
pub open spec fn blank_piece(n: nat, received: bool, failures: nat) -> PieceView {
    PieceView {
        received: Seq::new(n, |b: int| received),
        owner: Seq::new(n, |b: int| None),
        data: Seq::new(n, |b: int| Seq::empty()),
        failures,
    }
}

/// A piece of `n` blocks of which nothing has arrived.
pub open spec fn fresh_piece(n: nat) -> PieceView {
    blank_piece(n, false, 0)
}

impl PieceRecord {
    fn blank(n: usize, mark: bool, failures: u64) -> (r: PieceRecord)
        ensures
            r@ == blank_piece(n as nat, mark, failures as nat),
    {
        let mut received: Vec<bool> = Vec::new();
        let mut owner: Vec<Option<usize>> = Vec::new();
        let mut data: Vec<Vec<u8>> = Vec::new();
        let mut b: usize = 0;
        while b < n
            invariant
                b <= n,
                received@ == Seq::new(b as nat, |k: int| mark),
                owner@ == Seq::new(b as nat, |k: int| None::<usize>),
                data@.len() == b,
                forall|k: int| 0 <= k < b ==> (#[trigger] data@[k])@ == Seq::<u8>::empty(),
            decreases n - b,
        {
            received.push(mark);
            owner.push(None);
            let empty: Vec<u8> = Vec::new();
            data.push(empty);
            assert(data@[b as int]@ == Seq::<u8>::empty());
            b = b + 1;
            assert(received@ =~= Seq::new(b as nat, |k: int| mark));
            assert(owner@ =~= Seq::new(b as nat, |k: int| None::<usize>));
        }
        let r = PieceRecord { received, owner, data, failures };
        assert(r@.data =~= blank_piece(n as nat, mark, failures as nat).data);
        assert(r@ =~= blank_piece(n as nat, mark, failures as nat));
        r
    }
}

/// Size of a piece, computed.
fn piece_size_exec(total_length: u64, piece_length: u32, p: u64) -> (r: u32)
    requires
        piece_length > 0,
        p < piece_count(total_length as nat, piece_length as nat),
    ensures
        r == piece_size(total_length as nat, piece_length as nat, p as int),
        r > 0,
        p * piece_length + r <= total_length,
{
    proof {
        lemma_chunk_start(total_length as nat, piece_length as nat, p as nat);
    }
    let start = p * (piece_length as u64);
    let rest = total_length - start;
    if rest >= piece_length as u64 {
        piece_length
    } else {
        rest as u32
    }
}

/// Number of blocks in a piece of `size` bytes, computed.
fn block_count_exec(size: u32) -> (r: usize)
    ensures
        r == block_count(size as nat),
{
    (size / BLOCK_LENGTH + if size % BLOCK_LENGTH == 0 {
        0
    } else {
        1
    }) as usize
}

impl PiecesActor {
    /// A manager for a file of `total_length` bytes cut into pieces of `piece_length`
    /// bytes, with `piece_hashes` holding the expected 20-byte digest of each piece one
    /// after the other; a piece that fails verification more than `max_retries` times
    /// is given up.
    pub fn new(total_length: u64, piece_length: u32, piece_hashes: &[u8], max_retries: u32) -> (r:
        Result<PiecesActor, MetadataError>)
        ensures
            piece_length == 0 ==> r == Err::<PiecesActor, MetadataError>(
                MetadataError::ZeroPieceLength,
            ),
            piece_length > 0 && piece_hashes@.len() != 20 * piece_count(
                total_length as nat,
                piece_length as nat,
            ) ==> r == Err::<PiecesActor, MetadataError>(MetadataError::HashCountMismatch),
            r is Ok ==> {
                let v = r->Ok_0@;
                &&& v.wf()
                &&& v.piece_length == piece_length
                &&& v.total_length == total_length
                &&& v.max_retries == max_retries
                &&& v.hashes == piece_hashes@
                &&& forall|p: int| 0 <= p < v.count() ==> !#[trigger] v.have[p]
                &&& forall|p: int| 0 <= p < v.count() ==> #[trigger] v.pieces[p] == fresh_piece(v.blocks(p))
            },
            piece_length > 0 && piece_hashes@.len() == 20 * piece_count(
                total_length as nat,
                piece_length as nat,
            ) ==> r is Ok,
    {
        if piece_length == 0 {
            return Err(MetadataError::ZeroPieceLength);
        }
        let pl = piece_length as u64;
        let q = total_length / pl;
        let rem = total_length % pl;
        let count64: u64 = if rem == 0 {
            q
        } else {
            assert(q < u64::MAX) by (nonlinear_arith)
                requires
                    pl > 0,
                    q == total_length / pl,
                    rem == total_length % pl,
                    rem != 0,
            {
                assert(total_length == q * pl + rem);
                assert(q * pl >= q);
            }
            q + 1
        };
        let hlen = piece_hashes.len();
        if hlen % 20 != 0 || (hlen / 20) as u64 != count64 {
            return Err(MetadataError::HashCountMismatch);
        }
        let count: usize = hlen / 20;
        let mut pieces: Vec<PieceRecord> = Vec::new();
        let mut p: usize = 0;
        while p < count
            invariant
                p <= count,
                count == count64,
                piece_length > 0,
                count == piece_count(total_length as nat, piece_length as nat),
                pieces@.len() == p,
                forall|q: int|
                    0 <= q < p ==> #[trigger] pieces@[q]@ == fresh_piece(
                        block_count(piece_size(total_length as nat, piece_length as nat, q)),
                    ),
            decreases count - p,
        {
            let size = piece_size_exec(total_length, piece_length, p as u64);
            let rec = PieceRecord::blank(block_count_exec(size), false, 0);
            pieces.push(rec);
            p = p + 1;
        }
        let have = bitvec_from_elem(count, false);
        let hashes = slice_to_vec(piece_hashes);
        let r = PiecesActor { piece_length, total_length, max_retries, hashes, pieces, have };
        assert(r@.pieces.len() == count);
        assert forall|q: int| 0 <= q < r@.count() implies #[trigger] r@.piece_wf(q) by {
            assert(r@.pieces[q] == pieces@[q]@);
        }
        Ok(r)
    }
}

/// What became of a delivered block.
#[derive(Debug, Clone, Copy, PartialEq, Eq, Structural)]
pub enum BlockOutcome {
    /// The block is new: it is to be written at `offset` of the file.
    Stored { offset: u64 },
    /// The block is new and completed its piece, whose digest matched: it is to be
    /// written at `offset`, and the piece announced to every peer.
    Verified { offset: u64 },
    /// The block completed its piece but the digest differed: all of the piece's
    /// blocks are offered again, unless the piece is now given up (`poisoned`).
    Rejected { poisoned: bool },
    /// The block had arrived before, or its piece is verified or given up: nothing to do.
    Ignored,
}

/// Why a delivered block was refused.
#[derive(Debug, Clone, Copy, PartialEq, Eq, Structural)]
pub enum BlockError {
    /// No piece has this index.
    UnknownPiece,
    /// The offset or the length names no block of the piece.
    BadBlock,
}

/// The verdict on a piece whose blocks have all arrived.
#[derive(Debug, Clone, Copy, PartialEq, Eq, Structural)]
pub enum PieceVerdict {
    Verified,
    Rejected { poisoned: bool },
}

impl PiecesView {
    /// `begin` and `len` name block `begin / BLOCK_LENGTH` of piece `p` exactly.
    pub open spec fn names_block(self, p: int, begin: int, len: int) -> bool {
        &&& begin % (BLOCK_LENGTH as int) == 0
        &&& begin / (BLOCK_LENGTH as int) < self.blocks(p)
        &&& len == block_len(self.size(p), begin / (BLOCK_LENGTH as int))
    }

    /// Block `b` of piece `p` arrived with `data`.
    pub open spec fn stored(self, p: int, b: int, data: Seq<u8>) -> PiecesView {
        let r = self.pieces[p];
        PiecesView {
            pieces: self.pieces.update(
                p,
                PieceView {
                    received: r.received.update(b, true),
                    owner: r.owner.update(b, None),
                    data: r.data.update(b, data),
                    failures: r.failures,
                },
            ),
            ..self
        }
    }

    /// Piece `p`, whose blocks have all arrived, is judged by `digest`: on a match it
    /// is marked complete and its buffered bytes are dropped; otherwise all of its
    /// blocks are forgotten and its failure count grows by one.
    pub open spec fn concluded(self, p: int, digest: Seq<u8>) -> PiecesView {
        let f = self.pieces[p].failures;
        let n = self.blocks(p);
        if digest == self.expected(p) {
            PiecesView {
                have: self.have.update(p, true),
                pieces: self.pieces.update(p, blank_piece(n, true, f)),
                ..self
            }
        } else {
            PiecesView { pieces: self.pieces.update(p, blank_piece(n, false, f + 1)), ..self }
        }
    }

    /// `data` at `begin` of piece `index` is a block that is to be kept: it names a
    /// block of a piece neither verified nor given up, and that block has not arrived.
    pub open spec fn takes_new_block(self, index: u32, begin: u32, data: Seq<u8>) -> bool {
        let p = index as int;
        &&& p < self.count()
        &&& self.names_block(p, begin as int, data.len() as int)
        &&& !self.have[p]
        &&& !self.poisoned(p)
        &&& !self.pieces[p].received[(begin / BLOCK_LENGTH) as int]
    }

    /// Piece `p` is ready to be judged: all of its blocks arrived, and it is neither
    /// verified nor given up.
    pub open spec fn ready(self, p: int) -> bool {
        0 <= p < self.count() && self.all_received(p) && !self.have[p] && !self.poisoned(p)
    }

    /// The result of keeping `data` at `begin` of piece `index` without judging the
    /// piece, and the manager after it.
    pub open spec fn accept(self, index: u32, begin: u32, data: Seq<u8>) -> (
        Result<Option<u64>, BlockError>,
        PiecesView,
    ) {
        let p = index as int;
        if p >= self.count() {
            (Err(BlockError::UnknownPiece), self)
        } else if !self.names_block(p, begin as int, data.len() as int) {
            (Err(BlockError::BadBlock), self)
        } else if !self.takes_new_block(index, begin, data) {
            (Ok(None), self)
        } else {
            (
                Ok(Some(self.offset(p, begin as int) as u64)),
                self.stored(p, (begin / BLOCK_LENGTH) as int, data),
            )
        }
    }

    /// The outcome of delivering `data` at `begin` of piece `index`, and the manager after it.
    pub open spec fn receive(self, index: u32, begin: u32, data: Seq<u8>) -> (
        Result<BlockOutcome, BlockError>,
        PiecesView,
    ) {
        let p = index as int;
        let b = begin / BLOCK_LENGTH;
        if p >= self.count() {
            (Err(BlockError::UnknownPiece), self)
        } else if !self.names_block(p, begin as int, data.len() as int) {
            (Err(BlockError::BadBlock), self)
        } else if self.have[p] || self.poisoned(p) || self.pieces[p].received[b as int] {
            (Ok(BlockOutcome::Ignored), self)
        } else {
            let s = self.stored(p, b as int, data);
            let offset = self.offset(p, begin as int) as u64;
            if s.all_received(p) {
                let digest = sha1_of(s.content(p));
                let c = s.concluded(p, digest);
                if digest == s.expected(p) {
                    (Ok(BlockOutcome::Verified { offset }), c)
                } else {
                    (Ok(BlockOutcome::Rejected { poisoned: c.poisoned(p) }), c)
                }
            } else {
                (Ok(BlockOutcome::Stored { offset }), s)
            }
        }
    }
}

impl PiecesActor {
    /// Number of pieces.
    pub fn pieces_count(&self) -> (r: usize)
        requires
            self@.wf(),
        ensures
            r == self@.count(),
    {
        self.pieces.len()
    }

    /// Whether piece `index` is verified.
    pub fn is_complete(&self, index: usize) -> (r: bool)
        requires
            self@.wf(),
        ensures
            r == (index < self@.count() && self@.have[index as int]),
    {
        match bitvec_get(&self.have, index) {
            Some(b) => b,
            None => false,
        }
    }

    /// Whether every piece is verified: the download is done.
    pub fn all_complete(&self) -> (r: bool)
        requires
            self@.wf(),
        ensures
            r == forall|p: int| 0 <= p < self@.count() ==> #[trigger] self@.have[p],
    {
        let n = bitvec_len(&self.have);
        let mut p: usize = 0;
        while p < n
            invariant
                p <= n,
                n == self@.count(),
                self@.wf(),
                forall|q: int| 0 <= q < p ==> #[trigger] self@.have[q],
            decreases n - p,
        {
            if !self.is_complete(p) {
                return false;
            }
            p = p + 1;
        }
        true
    }

    /// A copy of the completion bitmap, for a session to announce what this side has.
    pub fn snapshot_bitfield(&self) -> (r: BitVec)
        ensures
            bits_of(r) == self@.have,
    {
        bitvec_clone(&self.have)
    }

    /// Judges piece `index`, whose blocks have all arrived, by `digest`.
    fn judge_piece(&mut self, index: usize, digest: &[u8; 20]) -> (r: PieceVerdict)
        requires
            old(self)@.wf(),
            index < old(self)@.count(),
            old(self)@.all_received(index as int),
            !old(self)@.have[index as int],
            !old(self)@.poisoned(index as int),
        ensures
            final(self)@.wf(),
            final(self)@ == old(self)@.concluded(index as int, digest@),
            r == (if digest@ == old(self)@.expected(index as int) {
                PieceVerdict::Verified
            } else {
                PieceVerdict::Rejected { poisoned: final(self)@.poisoned(index as int) }
            }),
    {
        let ghost v = self@;
        let hl = self.hashes.len();
        proof {
            assert(20 * index + 20 <= self.hashes@.len()) by (nonlinear_arith)
                requires
                    index < v.count(),
                    self.hashes@.len() == 20 * v.count(),
            ;
        }
        let base = index * 20;
        let mut matches = true;
        let mut k: usize = 0;
        while k < 20
            invariant
                k <= 20,
                base == 20 * index,
                base + 20 <= self.hashes@.len(),
                hl == self.hashes@.len(),
                matches == (forall|t: int| 0 <= t < k ==> digest@[t] == self.hashes@[base + t]),
            decreases 20 - k,
        {
            if digest[k] != self.hashes[base + k] {
                matches = false;
            }
            k = k + 1;
        }
        proof {
            if matches {
                assert(digest@ =~= v.expected(index as int));
            } else {
                let t = choose|t: int| 0 <= t < 20 && digest@[t] != self.hashes@[base + t];
                assert(digest@[t] != v.expected(index as int)[t]);
            }
        }
        let size = piece_size_exec(self.total_length, self.piece_length, index as u64);
        let n = block_count_exec(size);
        let failures = self.pieces[index].failures;
        proof {
            assert(v.piece_wf(index as int));
            assert(v.pieces[index as int] == self.pieces@[index as int]@);
        }
        let verdict = if matches {
            bitvec_set(&mut self.have, index, true);
            self.pieces.set(index, PieceRecord::blank(n, true, failures));
            PieceVerdict::Verified
        } else {
            self.pieces.set(index, PieceRecord::blank(n, false, failures + 1));
            PieceVerdict::Rejected { poisoned: failures + 1 > self.max_retries as u64 }
        };
        proof {
            let w = v.concluded(index as int, digest@);
            assert(self@.pieces =~= w.pieces);
            assert(self@ =~= w);
            assert forall|p: int| 0 <= p < self@.count() implies #[trigger] self@.piece_wf(p) by {
                if p != index {
                    assert(v.piece_wf(p));
                }
            }
        }
        verdict
    }
    /// The buffered bytes of the first `n` blocks of piece `p`, one after the other.
    fn piece_content(&self, p: usize, n: usize) -> (r: Vec<u8>)
        requires
            self@.wf(),
            p < self@.count(),
            n <= self@.blocks(p as int),
        ensures
            r@ == concat_blocks(self@.pieces[p as int].data, n as nat),
    {
        proof {
            assert(self@.piece_wf(p as int));
        }
        let rec = &self.pieces[p];
        assert(self@.pieces[p as int] == rec@);
        let mut out: Vec<u8> = Vec::new();
        let mut k: usize = 0;
        while k < n
            invariant
                k <= n,
                n <= rec.data@.len(),
                out@ == concat_blocks(rec@.data, k as nat),
            decreases n - k,
        {
            let mut chunk = slice_to_vec(rec.data[k].as_slice());
            out.append(&mut chunk);
            k = k + 1;
        }
        out
    }

    /// Whether piece `index` is ready to be judged: all of its blocks have arrived and
    /// it is neither verified nor given up.
    pub fn is_filled(&self, index: usize) -> (r: bool)
        requires
            self@.wf(),
        ensures
            r == self@.ready(index as int),
    {
        if index >= self.pieces.len() {
            return false;
        }
        proof {
            assert(self@.piece_wf(index as int));
            assert(self@.pieces[index as int] == self.pieces@[index as int]@);
        }
        if self.is_complete(index) || self.pieces[index].failures > self.max_retries as u64 {
            return false;
        }
        let n = self.pieces[index].received.len();
        let mut k: usize = 0;
        while k < n
            invariant
                k <= n,
                self@.wf(),
                index < self@.count(),
                n == self@.blocks(index as int),
                self@.piece_wf(index as int),
                !self@.have[index as int],
                !self@.poisoned(index as int),
                self@.pieces[index as int] == self.pieces@[index as int]@,
                forall|c: int| 0 <= c < k ==> #[trigger] self@.pieces[index as int].received[c],
            decreases n - k,
        {
            if !self.pieces[index].received[k] {
                return false;
            }
            k = k + 1;
        }
        true
    }

    /// Judges piece `index` by the SHA-1 `digest` of its content, when the piece is
    /// ready (see `is_filled`): on a match it becomes complete, otherwise its blocks
    /// are offered again and its failure count grows. A piece that is not ready is
    /// left alone and `None` returned.
    pub fn conclude_piece(&mut self, index: usize, digest: &[u8; 20]) -> (r: Option<PieceVerdict>)
        requires
            old(self)@.wf(),
        ensures
            final(self)@.wf(),
            old(self)@.ready(index as int) ==> final(self)@ == old(self)@.concluded(
                index as int,
                digest@,
            ) && r == Some(
                if digest@ == old(self)@.expected(index as int) {
                    PieceVerdict::Verified
                } else {
                    PieceVerdict::Rejected { poisoned: final(self)@.poisoned(index as int) }
                },
            ),
            !old(self)@.ready(index as int) ==> final(self)@ == old(self)@ && r is None,
    {
        if self.is_filled(index) {
            Some(self.judge_piece(index, digest))
        } else {
            None
        }
    }

    /// Keeps `data` as the block at `begin` of piece `index` and returns its file
    /// offset, without judging the piece; a block that arrived before, or one of a
    /// verified or given-up piece, changes nothing (`None`); an index, or an offset and
    /// length, that names no block is refused.
    pub fn accept_block(&mut self, index: u32, begin: u32, data: Vec<u8>) -> (r: Result<
        Option<u64>,
        BlockError,
    >)
        requires
            old(self)@.wf(),
        ensures
            final(self)@.wf(),
            (r, final(self)@) == old(self)@.accept(index, begin, data@),
    {
        let ghost v = self@;
        let p = index as usize;
        if p >= self.pieces.len() {
            return Err(BlockError::UnknownPiece);
        }
        let size = piece_size_exec(self.total_length, self.piece_length, p as u64);
        let n = block_count_exec(size);
        if begin % BLOCK_LENGTH != 0 {
            return Err(BlockError::BadBlock);
        }
        let b = (begin / BLOCK_LENGTH) as usize;
        if b >= n {
            return Err(BlockError::BadBlock);
        }
        let blen = piece_size_exec(size as u64, BLOCK_LENGTH, b as u64);
        if data.len() != blen as usize {
            return Err(BlockError::BadBlock);
        }
        proof {
            assert(v.piece_wf(p as int));
            assert(v.pieces[p as int] == self.pieces@[p as int]@);
            lemma_chunk_start(v.total_length, v.piece_length, p as nat);
            lemma_chunk_start(size as nat, BLOCK_LENGTH as nat, b as nat);
        }
        if self.is_complete(p) || self.pieces[p].failures > self.max_retries as u64
            || self.pieces[p].received[b] {
            return Ok(None);
        }
        let offset = (p as u64) * (self.piece_length as u64) + begin as u64;
        self.pieces[p].received.set(b, true);
        self.pieces[p].owner.set(b, None);
        self.pieces[p].data.set(b, data);
        let ghost s = v.stored(p as int, b as int, data@);
        proof {
            assert(self@.pieces[p as int].data =~= s.pieces[p as int].data);
            assert(self@.pieces =~= s.pieces);
            assert(self@ =~= s);
            assert forall|q: int| 0 <= q < self@.count() implies #[trigger] self@.piece_wf(q) by {
                if q != p {
                    assert(v.piece_wf(q));
                }
            }
        }
        Ok(Some(offset))
    }

    /// Takes in `data` as the block at `begin` of piece `index`. A new block is kept
    /// and its file offset returned for writing; when it completes its piece, the
    /// piece's content is hashed and the piece verified or its blocks offered again.
    /// A block that arrived before, or one of a verified or given-up piece, changes
    /// nothing; an index or an offset and length that name no block is refused.
    pub fn on_block_received(&mut self, index: u32, begin: u32, data: Vec<u8>) -> (r: Result<
        BlockOutcome,
        BlockError,
    >)
        requires
            old(self)@.wf(),
        ensures
            final(self)@.wf(),
            (r, final(self)@) == old(self)@.receive(index, begin, data@),
    {
        let ghost v = self@;
        let ghost d = data@;
        match self.accept_block(index, begin, data) {
            Err(e) => Err(e),
            Ok(None) => Ok(BlockOutcome::Ignored),
            Ok(Some(offset)) => {
                let p = index as usize;
                let ghost s = self@;
                proof {
                    assert(s.blocks(p as int) == v.blocks(p as int));
                    assert(!s.have[p as int] && !s.poisoned(p as int));
                }
                if self.is_filled(p) {
                    let n = self.pieces[p].received.len();
                    proof {
                        assert(s.piece_wf(p as int));
                        assert(s.pieces[p as int] == self.pieces@[p as int]@);
                    }
                    let content = self.piece_content(p, n);
                    let digest = sha1_digest(content.as_slice());
                    match self.judge_piece(p, &digest) {
                        PieceVerdict::Verified => Ok(BlockOutcome::Verified { offset }),
                        PieceVerdict::Rejected { poisoned } => Ok(BlockOutcome::Rejected { poisoned }),
                    }
                } else {
                    Ok(BlockOutcome::Stored { offset })
                }
            },
        }
    }
}

impl PiecesView {
    /// Block `b` of piece `p` may be requested from a peer whose bit field is `bits`:
    /// the peer has the piece, the piece is neither verified nor given up, and the
    /// block has neither arrived nor been handed to a peer.
    pub open spec fn eligible(self, bits: Seq<bool>, p: int, b: int) -> bool {
        &&& 0 <= p < self.count()
        &&& 0 <= b < self.blocks(p)
        &&& p < bits.len()
        &&& bits[p]
        &&& !self.have[p]
        &&& !self.poisoned(p)
        &&& !self.pieces[p].received[b]
        &&& self.pieces[p].owner[b] is None
    }

    /// The eligible blocks among the first `n` of piece `p`, in order.
    pub open spec fn candidates_in(self, bits: Seq<bool>, p: int, n: nat) -> Seq<(int, int)>
        decreases n,
    {
        if n == 0 {
            Seq::empty()
        } else {
            let prev = self.candidates_in(bits, p, (n - 1) as nat);
            if self.eligible(bits, p, n - 1) {
                prev.push((p, n - 1))
            } else {
                prev
            }
        }
    }

    /// The eligible blocks of the first `m` pieces, lowest piece and lowest offset first.
    pub open spec fn candidates_upto(self, bits: Seq<bool>, m: nat) -> Seq<(int, int)>
        decreases m,
    {
        if m == 0 {
            Seq::empty()
        } else {
            self.candidates_upto(bits, (m - 1) as nat) + self.candidates_in(
                bits,
                m - 1,
                self.blocks(m - 1),
            )
        }
    }

    /// All eligible blocks, lowest piece and lowest offset first.
    pub open spec fn candidates(self, bits: Seq<bool>) -> Seq<(int, int)> {
        self.candidates_upto(bits, self.count())
    }

    /// How many eligible blocks come before block `b` of piece `p`.
    pub open spec fn rank(self, bits: Seq<bool>, p: int, b: int) -> nat {
        self.candidates_upto(bits, p as nat).len() + self.candidates_in(bits, p, b as nat).len()
    }

    /// Block `b` of piece `p` is among the first `max_count` eligible blocks.
    pub open spec fn selected(self, bits: Seq<bool>, max_count: nat, p: int, b: int) -> bool {
        self.eligible(bits, p, b) && self.rank(bits, p, b) < max_count
    }

    /// The request for block `pb.1` of piece `pb.0`.
    pub open spec fn block_at(self, pb: (int, int)) -> BlockSpec {
        BlockSpec {
            index: pb.0 as u32,
            begin: (pb.1 * BLOCK_LENGTH) as u32,
            length: block_len(self.size(pb.0), pb.1) as u32,
        }
    }

    /// The requests handed to a peer with bit field `bits` that asks for `max_count`.
    pub open spec fn requests_for(self, bits: Seq<bool>, max_count: nat) -> Seq<BlockSpec> {
        let c = self.candidates(bits);
        let k = if c.len() < max_count {
            c.len()
        } else {
            max_count
        };
        c.take(k as int).map_values(|pb: (int, int)| self.block_at(pb))
    }

    /// The manager after the first `max_count` eligible blocks are handed to `peer`.
    pub open spec fn assigned(self, bits: Seq<bool>, max_count: nat, peer: usize) -> PiecesView {
        PiecesView {
            pieces: Seq::new(
                self.pieces.len(),
                |p: int|
                    PieceView {
                        owner: Seq::new(
                            self.pieces[p].owner.len(),
                            |b: int|
                                if self.selected(bits, max_count, p, b) {
                                    Some(peer)
                                } else {
                                    self.pieces[p].owner[b]
                                },
                        ),
                        ..self.pieces[p]
                    },
            ),
            ..self
        }
    }
}

impl PiecesActor {
    /// Hands up to `max_count` blocks to `peer`, whose bit field is `peer_bitfield`:
    /// the first eligible ones, lowest piece index and lowest offset first. A block
    /// handed out is not offered again until it is returned or its piece is rejected.
    pub fn next_blocks_for(&mut self, peer: usize, peer_bitfield: &BitVec, max_count: usize) -> (r:
        Vec<BlockSpec>)
        requires
            old(self)@.wf(),
        ensures
            final(self)@.wf(),
            r@ == old(self)@.requests_for(bits_of(*peer_bitfield), max_count as nat),
            final(self)@ == old(self)@.assigned(bits_of(*peer_bitfield), max_count as nat, peer),
    {
        let ghost v = self@;
        let ghost bits = bits_of(*peer_bitfield);
        let count = self.pieces.len();
        let mut out: Vec<BlockSpec> = Vec::new();
        let mut p: usize = 0;
        while p < count
            invariant
                p <= count,
                count == v.count(),
                v.wf(),
                bits == bits_of(*peer_bitfield),
                self@.pieces.len() == count,
                self@.have == v.have,
                self.piece_length == v.piece_length,
                self.total_length == v.total_length,
                self.max_retries == v.max_retries,
                self.hashes@ == v.hashes,
                forall|q: int|
                    0 <= q < count ==> {
                        &&& (#[trigger] self@.pieces[q]).received == v.pieces[q].received
                        &&& self@.pieces[q].data == v.pieces[q].data
                        &&& self@.pieces[q].failures == v.pieces[q].failures
                        &&& self@.pieces[q].owner.len() == v.pieces[q].owner.len()
                    },
                forall|q: int, c: int|
                    0 <= q < count && 0 <= c < v.blocks(q) ==> #[trigger] self@.pieces[q].owner[c]
                        == if q < p && v.selected(bits, max_count as nat, q, c) {
                        Some(peer)
                    } else {
                        v.pieces[q].owner[c]
                    },
                out@ == {
                    let l = v.candidates_upto(bits, p as nat);
                    l.take(if l.len() < max_count { l.len() as int } else { max_count as int }).map_values(
                        |pb: (int, int)| v.block_at(pb),
                    )
                },
            decreases count - p,
        {
            let size = piece_size_exec(self.total_length, self.piece_length, p as u64);
            let n = block_count_exec(size);
            proof {
                assert(self@.pieces[p as int] == self.pieces@[p as int]@);
            }
            let complete = match bitvec_get(&self.have, p) {
                Some(x) => x,
                None => false,
            };
            let wanted = !complete && self.pieces[p].failures <= self.max_retries as u64
                && match bitvec_get(peer_bitfield, p) {
                Some(x) => x,
                None => false,
            };
            proof {
                assert(v.piece_wf(p as int));
            }
            let mut b: usize = 0;
            while b < n
                invariant
                    b <= n,
                    p < count,
                    n == v.blocks(p as int),
                    size == v.size(p as int),
                    count == v.count(),
                    v.wf(),
                    bits == bits_of(*peer_bitfield),
                    wanted == (p < bits.len() && bits[p as int] && !v.have[p as int] && !v.poisoned(p as int)),
                    self@.pieces.len() == count,
                    self@.have == v.have,
                    self.piece_length == v.piece_length,
                    self.total_length == v.total_length,
                    self.max_retries == v.max_retries,
                    self.hashes@ == v.hashes,
                    forall|q: int|
                        0 <= q < count ==> {
                            &&& (#[trigger] self@.pieces[q]).received == v.pieces[q].received
                            &&& self@.pieces[q].data == v.pieces[q].data
                            &&& self@.pieces[q].failures == v.pieces[q].failures
                            &&& self@.pieces[q].owner.len() == v.pieces[q].owner.len()
                        },
                    forall|q: int, c: int|
                        0 <= q < count && 0 <= c < v.blocks(q) ==> #[trigger] self@.pieces[q].owner[c]
                            == if (q < p || (q == p && c < b)) && v.selected(
                            bits,
                            max_count as nat,
                            q,
                            c,
                        ) {
                            Some(peer)
                        } else {
                            v.pieces[q].owner[c]
                        },
                    out@ == {
                        let l = v.candidates_upto(bits, p as nat) + v.candidates_in(bits, p as int, b as nat);
                        l.take(if l.len() < max_count { l.len() as int } else { max_count as int }).map_values(
                            |pb: (int, int)| v.block_at(pb),
                        )
                    },
                decreases n - b,
            {
                proof {
                    assert(v.piece_wf(p as int));
                    assert(self@.pieces[p as int] == self.pieces@[p as int]@);
                    assert(self@.pieces[p as int].received == v.pieces[p as int].received);
                }
                let ghost l = v.candidates_upto(bits, p as nat) + v.candidates_in(bits, p as int, b as nat);
                let ghost taken = l.take(if l.len() < max_count { l.len() as int } else { max_count as int });
                if wanted && !self.pieces[p].received[b] && self.pieces[p].owner[b].is_none() {
                    assert(v.eligible(bits, p as int, b as int));
                    let ghost l2 = v.candidates_upto(bits, p as nat) + v.candidates_in(bits, p as int, (b + 1) as nat);
                    assert(l2 =~= l.push((p as int, b as int)));
                    if out.len() < max_count {
                        proof {
                            lemma_chunk_start(size as nat, BLOCK_LENGTH as nat, b as nat);
                        }
                        let blen = piece_size_exec(size as u64, BLOCK_LENGTH, b as u64);
                        let spec_b = BlockSpec { index: p as u32, begin: (b as u32) * BLOCK_LENGTH, length: blen };
                        assert(spec_b == v.block_at((p as int, b as int)));
                        out.push(spec_b);
                        let ghost before = self@;
                        let ghost before_vec = self.pieces@;
                        self.pieces[p].owner.set(b, Some(peer));
                        proof {
                            assert forall|q: int| 0 <= q < count implies #[trigger] self@.pieces[q] == (
                            if q == p {
                                PieceView {
                                    owner: before.pieces[q].owner.update(b as int, Some(peer)),
                                    ..before.pieces[q]
                                }
                            } else {
                                before.pieces[q]
                            }) by {
                                assert(self@.pieces[q] == self.pieces@[q]@);
                                assert(before.pieces[q] == before_vec[q]@);
                                if q == p {
                                    assert(self@.pieces[q].owner =~= before.pieces[q].owner.update(b as int, Some(peer)));
                                }
                            }
                            assert(out@ =~= l2.take(if l2.len() < max_count { l2.len() as int } else { max_count as int }).map_values(
                                |pb: (int, int)| v.block_at(pb),
                            ));
                        }
                    } else {
                        proof {
                            assert(l2.take(max_count as int) =~= l.take(max_count as int));
                        }
                    }
                } else {
                    assert(!v.eligible(bits, p as int, b as int));
                    assert(v.candidates_upto(bits, p as nat) + v.candidates_in(bits, p as int, (b + 1) as nat) =~= l);
                }
                b = b + 1;
            }
            assert(v.candidates_upto(bits, (p + 1) as nat) =~= v.candidates_upto(bits, p as nat) + v.candidates_in(bits, p as int, n as nat));
            p = p + 1;
        }
        proof {
            let w = v.assigned(bits, max_count as nat, peer);
            assert forall|q: int| 0 <= q < count implies #[trigger] self@.pieces[q] == w.pieces[q] by {
                assert(v.piece_wf(q));
                assert(self@.pieces[q].owner =~= w.pieces[q].owner);
            }
            assert(self@.pieces =~= w.pieces);
            assert(self@ =~= w);
            assert forall|q: int| 0 <= q < count implies #[trigger] self@.piece_wf(q) by {
                assert(v.piece_wf(q));
            }
        }
        out
    }
}

/// `s` names block `b` of piece `p`.
pub open spec fn names_block_of(s: BlockSpec, p: int, b: int) -> bool {
    s.index == p && s.begin == b * BLOCK_LENGTH
}

/// Some request of `returned` names block `b` of piece `p`.
pub open spec fn returns_block(returned: Seq<BlockSpec>, p: int, b: int) -> bool {
    exists|i: int| 0 <= i < returned.len() && #[trigger] names_block_of(returned[i], p, b)
}

impl PiecesView {
    /// The manager after `peer` gives back the blocks named in `returned`: each of
    /// them that is outstanding to `peer` becomes eligible again.
    pub open spec fn released(self, peer: usize, returned: Seq<BlockSpec>) -> PiecesView {
        PiecesView {
            pieces: Seq::new(
                self.pieces.len(),
                |p: int|
                    PieceView {
                        owner: Seq::new(
                            self.pieces[p].owner.len(),
                            |b: int|
                                if self.pieces[p].owner[b] == Some(peer) && returns_block(
                                    returned,
                                    p,
                                    b,
                                ) {
                                    None
                                } else {
                                    self.pieces[p].owner[b]
                                },
                        ),
                        ..self.pieces[p]
                    },
            ),
            ..self
        }
    }
}

impl PiecesActor {
    /// Takes back the blocks that a closed session of `peer` left unanswered, so that
    /// they can be handed to other peers; a request that names no block outstanding to
    /// `peer` changes nothing.
    pub fn on_session_closed(&mut self, peer: usize, outstanding: &[BlockSpec])
        requires
            old(self)@.wf(),
        ensures
            final(self)@.wf(),
            final(self)@ == old(self)@.released(peer, outstanding@),
    {
        let ghost v = self@;
        let count = self.pieces.len();
        proof {
            let w = v.released(peer, outstanding@.take(0));
            assert forall|q: int| 0 <= q < count implies #[trigger] v.pieces[q] == w.pieces[q] by {
                assert(v.pieces[q].owner =~= w.pieces[q].owner);
            }
            assert(v.pieces =~= w.pieces);
            assert(v =~= w);
        }
        let mut i: usize = 0;
        while i < outstanding.len()
            invariant
                i <= outstanding@.len(),
                count == v.count(),
                self.pieces@.len() == count,
                v.wf(),
                self@ == v.released(peer, outstanding@.take(i as int)),
            decreases outstanding@.len() - i,
        {
            let s = outstanding[i];
            let ghost next = outstanding@.take(i + 1);
            let ghost w = v.released(peer, next);
            let ghost before = self@;
            let ghost before_vec = self.pieces@;
            assert(outstanding@.take(i as int).push(s) =~= next);
            let p = s.index as usize;
            let mut changed = false;
            if p < count && s.begin % BLOCK_LENGTH == 0 {
                let size = piece_size_exec(self.total_length, self.piece_length, p as u64);
                let n = block_count_exec(size);
                let b = (s.begin / BLOCK_LENGTH) as usize;
                proof {
                    assert(v.piece_wf(p as int));
                    assert(self@.pieces[p as int] == self.pieces@[p as int]@);
                }
                if b < n {
                    let owned = match self.pieces[p].owner[b] {
                        Some(x) => x == peer,
                        None => false,
                    };
                    if owned {
                        self.pieces[p].owner.set(b, None);
                        changed = true;
                        proof {
                            assert(names_block_of(next[i as int], p as int, b as int));
                            assert forall|q: int| 0 <= q < count implies #[trigger] self@.pieces[q]
                                == w.pieces[q] by {
                                assert(self@.pieces[q] == self.pieces@[q]@);
                                assert(before.pieces[q] == before_vec[q]@);
                                assert(v.piece_wf(q));
                                assert forall|c: int| 0 <= c < v.blocks(q) implies #[trigger] self@.pieces[q].owner[c] == w.pieces[q].owner[c] by {
                                    if returns_block(next, q, c) && !returns_block(outstanding@.take(i as int), q, c) {
                                        let t = choose|t: int| 0 <= t < next.len() && #[trigger] names_block_of(next[t], q, c);
                                        assert(t == i);
                                    }
                                    if returns_block(outstanding@.take(i as int), q, c) {
                                        let t = choose|t: int| 0 <= t < i && #[trigger] names_block_of(outstanding@.take(i as int)[t], q, c);
                                        assert(names_block_of(next[t], q, c));
                                    }
                                }
                                assert(self@.pieces[q].owner =~= w.pieces[q].owner);
                            }
                        }
                    }
                }
            }
            proof {
                if !changed {
                    assert forall|q: int| 0 <= q < count implies #[trigger] self@.pieces[q]
                        == w.pieces[q] by {
                        assert(v.piece_wf(q));
                        assert forall|c: int| 0 <= c < v.blocks(q) implies #[trigger] self@.pieces[q].owner[c] == w.pieces[q].owner[c] by {
                            if returns_block(next, q, c) && !returns_block(outstanding@.take(i as int), q, c) {
                                let t = choose|t: int| 0 <= t < next.len() && #[trigger] names_block_of(next[t], q, c);
                                assert(t == i);
                            }
                            if returns_block(outstanding@.take(i as int), q, c) {
                                let t = choose|t: int| 0 <= t < i && #[trigger] names_block_of(outstanding@.take(i as int)[t], q, c);
                                assert(names_block_of(next[t], q, c));
                            }
                        }
                        assert(self@.pieces[q].owner =~= w.pieces[q].owner);
                    }
                }
                assert(self@.pieces =~= w.pieces);
                assert(self@ =~= w);
            }
            i = i + 1;
        }
        proof {
            assert(outstanding@.take(outstanding@.len() as int) =~= outstanding@);
            assert forall|q: int| 0 <= q < count implies #[trigger] self@.piece_wf(q) by {
                assert(v.piece_wf(q));
            }
        }
    }
}

/// Delivering the same block twice has the effect of delivering it once, and the
/// second delivery is ignored (or refused as the first was), unless the first one
/// completed its piece with a wrong digest and so discarded the piece's blocks.
pub proof fn lemma_receive_idempotent(v: PiecesView, index: u32, begin: u32, data: Seq<u8>)
    requires
        v.wf(),
        !(v.receive(index, begin, data).0 matches Ok(BlockOutcome::Rejected { .. })),
    ensures
        v.receive(index, begin, data).1.receive(index, begin, data).1 == v.receive(
            index,
            begin,
            data,
        ).1,
        v.receive(index, begin, data).0 is Ok ==> v.receive(index, begin, data).1.receive(
            index,
            begin,
            data,
        ).0 == Ok::<BlockOutcome, BlockError>(BlockOutcome::Ignored),
        v.receive(index, begin, data).0 is Err ==> v.receive(index, begin, data).1.receive(
            index,
            begin,
            data,
        ).0 == v.receive(index, begin, data).0,
{
    let p = index as int;
    let b = (begin / BLOCK_LENGTH) as int;
    let w = v.receive(index, begin, data).1;
    if p < v.count() && v.names_block(p, begin as int, data.len() as int) && !(v.have[p]
        || v.poisoned(p) || v.pieces[p].received[b]) {
        assert(v.piece_wf(p));
        let s = v.stored(p, b, data);
        assert(s.pieces[p].received[b]);
        if s.all_received(p) {
            let digest = sha1_of(s.content(p));
            assert(digest == s.expected(p));
            assert(w.have[p]);
        }
    }
}

/// A piece becomes complete exactly when the delivered block is the last one missing
/// and the digest of the reassembled content is the expected one; a complete piece
/// stays complete, and every block of a piece is received once it is complete.
pub proof fn lemma_complete_iff_verified(v: PiecesView, index: u32, begin: u32, data: Seq<u8>, p: int)
    requires
        v.wf(),
        0 <= p < v.count(),
    ensures
        ({
            let s = v.stored(index as int, (begin / BLOCK_LENGTH) as int, data);
            let w = v.receive(index, begin, data).1;
            w.have[p] <==> (v.have[p] || (p == index && v.takes_new_block(index, begin, data)
                && s.all_received(p) && sha1_of(s.content(p)) == s.expected(p)))
        }),
        v.have[p] ==> v.all_received(p),
{
    assert(v.piece_wf(p));
}

/// After a piece is rejected, each of its blocks is offered again to every peer
/// that has the piece, unless the piece is given up.
pub proof fn lemma_rejected_blocks_reoffered(
    v: PiecesView,
    index: u32,
    begin: u32,
    data: Seq<u8>,
    bits: Seq<bool>,
    b: int,
)
    requires
        v.wf(),
        v.receive(index, begin, data).0 == Ok::<BlockOutcome, BlockError>(
            BlockOutcome::Rejected { poisoned: false },
        ),
        (index as int) < bits.len(),
        bits[index as int],
        0 <= b < v.blocks(index as int),
    ensures
        v.receive(index, begin, data).1.eligible(bits, index as int, b),
        v.receive(index, begin, data).1.candidates(bits).contains((index as int, b)),
{
    let w = v.receive(index, begin, data).1;
    let p = index as int;
    assert(w.blocks(p) == v.blocks(p));
    assert(w.eligible(bits, p, b));
    lemma_candidates_contains(w, bits, p, b);
}

/// Every eligible block is among the candidates.
pub proof fn lemma_candidates_contains(v: PiecesView, bits: Seq<bool>, p: int, b: int)
    requires
        v.eligible(bits, p, b),
    ensures
        v.candidates(bits).contains((p, b)),
{
    lemma_candidates_in_contains(v, bits, p, b, v.blocks(p));
    lemma_candidates_upto_contains(v, bits, p, b, v.count());
}

proof fn lemma_candidates_in_contains(v: PiecesView, bits: Seq<bool>, p: int, b: int, n: nat)
    requires
        v.eligible(bits, p, b),
        b < n,
    ensures
        v.candidates_in(bits, p, n).contains((p, b)),
    decreases n,
{
    let prev = v.candidates_in(bits, p, (n - 1) as nat);
    if b == n - 1 {
        assert(prev.push((p, b))[prev.len() as int] == (p, b));
    } else {
        lemma_candidates_in_contains(v, bits, p, b, (n - 1) as nat);
        let i = choose|i: int| 0 <= i < prev.len() && prev[i] == (p, b);
        if v.eligible(bits, p, n - 1) {
            assert(prev.push((p, n - 1))[i] == (p, b));
        }
    }
}

proof fn lemma_candidates_upto_contains(v: PiecesView, bits: Seq<bool>, p: int, b: int, m: nat)
    requires
        v.eligible(bits, p, b),
        v.candidates_in(bits, p, v.blocks(p)).contains((p, b)),
        p < m,
    ensures
        v.candidates_upto(bits, m).contains((p, b)),
    decreases m,
{
    let prev = v.candidates_upto(bits, (m - 1) as nat);
    let here = v.candidates_in(bits, m - 1, v.blocks(m - 1));
    if p == m - 1 {
        let i = choose|i: int| 0 <= i < here.len() && here[i] == (p, b);
        assert((prev + here)[prev.len() + i] == (p, b));
    } else {
        lemma_candidates_upto_contains(v, bits, p, b, (m - 1) as nat);
        let i = choose|i: int| 0 <= i < prev.len() && prev[i] == (p, b);
        assert((prev + here)[i] == (p, b));
    }
}

proof fn lemma_candidates_in_eligible(v: PiecesView, bits: Seq<bool>, p: int, n: nat)
    ensures
        forall|i: int|
            0 <= i < v.candidates_in(bits, p, n).len() ==> {
                let c = #[trigger] v.candidates_in(bits, p, n)[i];
                v.eligible(bits, c.0, c.1)
            },
    decreases n,
{
    if n > 0 {
        lemma_candidates_in_eligible(v, bits, p, (n - 1) as nat);
        let prev = v.candidates_in(bits, p, (n - 1) as nat);
        if v.eligible(bits, p, n - 1) {
            assert forall|i: int| 0 <= i < prev.len() + 1 implies {
                let c = #[trigger] prev.push((p, n - 1))[i];
                v.eligible(bits, c.0, c.1)
            } by {
                if i < prev.len() {
                    assert(prev.push((p, n - 1))[i] == prev[i]);
                }
            }
        }
    }
}

proof fn lemma_candidates_upto_eligible(v: PiecesView, bits: Seq<bool>, m: nat)
    ensures
        forall|i: int|
            0 <= i < v.candidates_upto(bits, m).len() ==> {
                let c = #[trigger] v.candidates_upto(bits, m)[i];
                v.eligible(bits, c.0, c.1)
            },
    decreases m,
{
    if m > 0 {
        lemma_candidates_upto_eligible(v, bits, (m - 1) as nat);
        lemma_candidates_in_eligible(v, bits, m - 1, v.blocks(m - 1));
        let prev = v.candidates_upto(bits, (m - 1) as nat);
        let here = v.candidates_in(bits, m - 1, v.blocks(m - 1));
        assert forall|i: int| 0 <= i < (prev + here).len() implies {
            let c = #[trigger] (prev + here)[i];
            v.eligible(bits, c.0, c.1)
        } by {
            if i >= prev.len() {
                assert((prev + here)[i] == here[i - prev.len()]);
            }
        }
    }
}

/// Every request handed to a peer names an existing piece, starts on a block
/// boundary inside it, is at most one block long and ends inside the piece, and
/// names a block that had neither arrived nor been handed out.
pub proof fn lemma_requests_within_piece(v: PiecesView, bits: Seq<bool>, max_count: nat)
    requires
        v.wf(),
        v.count() <= 0x1_0000_0000,
    ensures
        forall|i: int|
            0 <= i < v.requests_for(bits, max_count).len() ==> {
                let r = #[trigger] v.requests_for(bits, max_count)[i];
                &&& (r.index as int) < v.count()
                &&& r.begin % BLOCK_LENGTH == 0
                &&& r.length <= BLOCK_LENGTH
                &&& 0 < r.length
                &&& r.begin + r.length <= v.size(r.index as int)
                &&& !v.pieces[r.index as int].received[(r.begin / BLOCK_LENGTH) as int]
                &&& v.pieces[r.index as int].owner[(r.begin / BLOCK_LENGTH) as int] is None
            },
{
    let c = v.candidates(bits);
    lemma_candidates_upto_eligible(v, bits, v.count());
    assert forall|i: int| 0 <= i < v.requests_for(bits, max_count).len() implies {
        let r = #[trigger] v.requests_for(bits, max_count)[i];
        &&& (r.index as int) < v.count()
        &&& r.begin % BLOCK_LENGTH == 0
        &&& r.length <= BLOCK_LENGTH
        &&& 0 < r.length
        &&& r.begin + r.length <= v.size(r.index as int)
        &&& !v.pieces[r.index as int].received[(r.begin / BLOCK_LENGTH) as int]
        &&& v.pieces[r.index as int].owner[(r.begin / BLOCK_LENGTH) as int] is None
    } by {
        let pb = c[i];
        assert(v.eligible(bits, pb.0, pb.1));
        let p = pb.0;
        let b = pb.1;
        lemma_chunk_start(v.total_length, v.piece_length, p as nat);
        lemma_chunk_start(v.size(p), BLOCK_LENGTH as nat, b as nat);
        assert(v.size(p) <= v.piece_length);
        assert(v.requests_for(bits, max_count)[i] == v.block_at(pb));
    }
}

} // verus!
