//! A BitTorrent peer-wire client core: the message codec, the handshake,
//! the per-connection session state machine and the piece manager.

pub mod bits;
pub mod fs;
pub mod handshake;
pub mod message;
pub mod peer;
pub mod pieces;
pub mod session;
pub mod state;
pub mod torrent_file;
pub mod tracker;
