//! A small BitTorrent transfer engine: wire-protocol codec, tracker
//! protocol framing, peer-session state machine, and verified piece
//! assembly.

use vstd::prelude::*;

pub mod util;
pub mod bencode;
pub mod digest;
pub mod engine;
pub mod magnet;
pub mod metainfo;
pub mod session;
pub mod tracker;
pub mod udp;
pub mod store;
pub mod wire;

verus! {

/// Errors of the transfer engine, scoped as the protocol demands:
/// decode and tracker errors end one parse or one endpoint, connection
/// errors end one session, and a hash mismatch only requeues a piece.
#[derive(Debug)]
pub enum TransferError {
    /// Malformed bencode or wire data; fatal to the single parse.
    DecodeError,
    /// The peer's handshake does not carry the expected protocol label.
    ProtocolMismatch,
    /// The peer's handshake carries a different infohash.
    HandshakeMismatch,
    /// Fewer bytes than a frame declared arrived before end of stream.
    FrameTruncated,
    /// I/O failure or premature disconnect on one connection.
    TransportError,
    /// The tracker explicitly reported failure, carrying its message.
    TrackerFailure(Vec<u8>),
    /// No response within the retry budget.
    TrackerUnreachable,
    /// An assembled piece did not match its expected digest.
    HashMismatch,
}

} // verus!
