//! The metadata of a torrent, as plain values. Decoding it from bencode happens
//! outside the library, which receives the decoded fields.
use crate::pieces::{piece_count, sha1_digest, sha1_of};
use vstd::prelude::*;

verus! {

/// A DHT node: host and port.
#[derive(Debug)]
pub struct Node(pub String, pub i64);

/// One file of a multi-file torrent.
#[derive(Debug)]
pub struct File {
    pub path: Vec<String>,
    pub length: i64,
    pub md5sum: Option<String>,
}

/// The `info` dictionary of a torrent.
#[derive(Debug)]
pub struct Info {
    pub name: String,
    /// The expected SHA-1 digests of the pieces, 20 bytes each, one after the other.
    pub pieces: Vec<u8>,
    pub piece_length: u32,
    pub md5sum: Option<String>,
    /// Length of the file of a single-file torrent.
    pub length: Option<usize>,
    pub files: Option<Vec<File>>,
    pub private: Option<u8>,
    pub path: Option<Vec<String>>,
    pub root_hash: Option<String>,
}

/// A whole torrent file.
#[derive(Debug)]
pub struct Torrent {
    pub info: Info,
    pub announce: Option<String>,
    pub nodes: Option<Vec<Node>>,
    pub encoding: Option<String>,
    pub httpseeds: Option<Vec<String>>,
    pub announce_list: Option<Vec<Vec<String>>>,
    pub creation_date: Option<i64>,
    pub comment: Option<String>,
    pub created_by: Option<String>,
}

/// The file length an `info` dictionary gives, zero when it gives none.
pub open spec fn info_length(length: Option<usize>) -> nat {
    match length {
        Some(n) => n as nat,
        None => 0,
    }
}

/// The piece count is the ceiling of the length over the piece length: the pieces
/// cover the file, and the last one starts inside it.
pub proof fn lemma_piece_count_is_ceiling(length: nat, piece_length: nat)
    requires
        piece_length > 0,
    ensures
        piece_count(length, piece_length) * piece_length >= length,
        piece_count(length, piece_length) > 0 ==> (piece_count(length, piece_length) - 1)
            * piece_length < length,
        piece_count(length, piece_length) == (length + piece_length - 1) / (piece_length as int),
{
    let q = length / piece_length;
    let r = length % piece_length;
    let c = piece_count(length, piece_length);
    assert(length == q * piece_length + r && 0 <= r < piece_length) by (nonlinear_arith)
        requires
            piece_length > 0,
            q == length / piece_length,
            r == length % piece_length,
    ;
    if r == 0 {
        assert(c == q);
        assert((length + piece_length - 1) / (piece_length as int) == q) by (nonlinear_arith)
            requires
                length == q * piece_length,
                piece_length > 0,
        {
            assert(length + piece_length - 1 == q * piece_length + (piece_length - 1));
        }
        if q > 0 {
            assert((q - 1) * piece_length == q * piece_length - piece_length) by (nonlinear_arith);
        }
    } else {
        assert(c == q + 1);
        assert((q + 1) * piece_length == q * piece_length + piece_length) by (nonlinear_arith);
        assert((length + piece_length - 1) / (piece_length as int) == q + 1) by (nonlinear_arith)
            requires
                length == q * piece_length + r,
                0 < r < piece_length,
        {
            assert(length + piece_length - 1 == (q + 1) * piece_length + (r - 1));
        }
    }
}

/// The info-hash of a torrent: the SHA-1 digest of its bencoded `info` dictionary.
pub fn info_hash_of(bencoded_info: &[u8]) -> (r: [u8; 20])
    ensures
        r@ == sha1_of(bencoded_info@),
{
    sha1_digest(bencoded_info)
}

impl Info {
    /// Number of pieces: the file length over the piece length, rounded up.
    pub fn pieces_count(&self) -> (r: usize)
        requires
            self.piece_length > 0,
        ensures
            r == piece_count(info_length(self.length), self.piece_length as nat),
    {
        let length: usize = match self.length {
            Some(n) => n,
            None => 0,
        };
        let pl = self.piece_length as usize;
        let q = length / pl;
        let rem = length % pl;
        if rem == 0 {
            q
        } else {
            assert(q < usize::MAX) by (nonlinear_arith)
                requires
                    pl > 0,
                    q == length / pl,
                    rem == length % pl,
                    rem != 0,
            {
                assert(length == q * pl + rem);
                assert(q * pl >= q);
            }
            q + 1
        }
    }
}

} // verus!
