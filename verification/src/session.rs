//! The per-connection state machine: handshake validation, choke and
//! interest state, the peer's advertised pieces, and the bookkeeping
//! of outstanding block requests. No I/O: the caller feeds events in
//! and sends what comes out.

use vstd::prelude::*;
use crate::TransferError;
use crate::wire::{
    Handshake, Message, parse_handshake, spec_handshake_head_ok, spec_bit, bitfield_to_flags,
};
use crate::store::{BlockRange, PieceStore, SubmitOutcome, BLOCK_SIZE, spec_num_blocks};
use crate::util::repeat_val;

verus! {

/// Where one connection stands.
#[derive(Clone, Copy, PartialEq, Eq, Structural, Debug)]
pub enum SessionState {
    /// The transport connection is being established.
    Connecting,
    /// Connected; the handshakes are being exchanged.
    Handshaking,
    /// Handshake validated; interest not yet declared.
    AwaitingBitfield,
    /// Interested, but the peer chokes us: no requests may be issued.
    Choked,
    /// Unchoked: requests may be issued, up to the pipelining window.
    Unchoked,
    /// Failed or shut down; the session is over for good.
    Closed,
}

/// The per-connection state.
pub struct PeerConnectionState {
    pub state: SessionState,
    pub choking_us: bool,
    pub interested_us: bool,
    pub peer_has: Vec<bool>,
    pub outstanding: Vec<BlockRange>,
}

impl PeerConnectionState {
    /// The choke flag agrees with the ready states, and while requests
    /// may not be issued none are outstanding.
    pub open spec fn wf(self) -> bool {
        &&& (self.state == SessionState::Unchoked ==> !self.choking_us)
        &&& (self.state == SessionState::Choked ==> self.choking_us)
        &&& (self.state != SessionState::Unchoked ==> self.outstanding@.len() == 0)
    }

    /// A fresh connection, about to connect, knowing of `n_pieces`
    /// pieces and assuming the peer has none of them yet.
    pub fn new(n_pieces: usize) -> (r: PeerConnectionState)
        ensures
            r.wf(),
            r.state == SessionState::Connecting,
            r.choking_us,
            !r.interested_us,
            r.peer_has@.len() == n_pieces,
            forall|i: int| 0 <= i < n_pieces ==> !(#[trigger] r.peer_has@[i]),
            r.outstanding@.len() == 0,
    {
        PeerConnectionState {
            state: SessionState::Connecting,
            choking_us: true,
            interested_us: false,
            peer_has: repeat_val(false, n_pieces),
            outstanding: Vec::new(),
        }
    }

    /// The transport-level connect succeeded.
    pub fn on_connected(&mut self)
        requires
            old(self).wf(),
            old(self).state == SessionState::Connecting,
        ensures
            final(self).wf(),
            final(self).state == SessionState::Handshaking,
            final(self).choking_us == old(self).choking_us,
            final(self).interested_us == old(self).interested_us,
            final(self).peer_has == old(self).peer_has,
            final(self).outstanding == old(self).outstanding,
    {
        self.state = SessionState::Handshaking;
    }

    /// Judges the peer's 68-byte handshake reply. A malformed reply or
    /// a reply for a different torrent closes the session, before any
    /// request could ever be issued on it; a reply with the expected
    /// label and infohash moves the session on.
    pub fn on_handshake_reply(&mut self, expected_infohash: &Vec<u8>, reply: &Vec<u8>) -> (r:
        Result<(), TransferError>)
        requires
            old(self).wf(),
            old(self).state == SessionState::Handshaking,
            expected_infohash@.len() == 20,
        ensures
            final(self).wf(),
            final(self).choking_us == old(self).choking_us,
            final(self).interested_us == old(self).interested_us,
            final(self).peer_has == old(self).peer_has,
            final(self).outstanding == old(self).outstanding,
            final(self).outstanding@.len() == 0,
            match r {
                Ok(()) => {
                    &&& spec_handshake_head_ok(reply@)
                    &&& reply@.subrange(28, 48) == expected_infohash@
                    &&& final(self).state == SessionState::AwaitingBitfield
                },
                Err(e) => {
                    &&& final(self).state == SessionState::Closed
                    &&& if spec_handshake_head_ok(reply@) {
                        &&& e == TransferError::HandshakeMismatch
                        &&& reply@.subrange(28, 48) != expected_infohash@
                    } else {
                        e == TransferError::FrameTruncated || e == TransferError::ProtocolMismatch
                    }
                },
            },
    {
        match parse_handshake(reply) {
            Ok(h) => {
                if crate::util::bytes_eq(&h.infohash, expected_infohash) {
                    self.state = SessionState::AwaitingBitfield;
                    Ok(())
                } else {
                    self.state = SessionState::Closed;
                    Err(TransferError::HandshakeMismatch)
                }
            },
            Err(e) => {
                self.state = SessionState::Closed;
                Err(e)
            },
        }
    }

    /// Declares interest: the session enters the ready states, choked
    /// until the peer says otherwise. Returns the message to send.
    pub fn declare_interest(&mut self) -> (r: Message)
        requires
            old(self).wf(),
            old(self).state == SessionState::AwaitingBitfield,
        ensures
            final(self).wf(),
            final(self).state == SessionState::Choked,
            final(self).choking_us,
            final(self).interested_us,
            final(self).peer_has == old(self).peer_has,
            final(self).outstanding@.len() == 0,
            r == Message::Interested,
    {
        self.state = SessionState::Choked;
        self.choking_us = true;
        self.interested_us = true;
        Message::Interested
    }

    /// Closes the session (transport error, protocol violation, or
    /// shutdown) and returns every outstanding claim to the pool so
    /// other sessions may complete them.
    pub fn close(&mut self, store: &mut PieceStore)
        requires
            old(self).wf(),
            old(store).wf(),
        ensures
            final(self).wf(),
            final(store).wf(),
            final(self).state == SessionState::Closed,
            final(self).outstanding@.len() == 0,
            final(self).peer_has == old(self).peer_has,
            final(store).pieces == old(store).pieces,
            final(store).completed == old(store).completed,
            forall|k: int| 0 <= k < old(self).outstanding@.len() ==> ({
                let i = (#[trigger] old(self).outstanding@[k]).piece as int;
                let b = old(self).outstanding@[k].begin as int / (BLOCK_SIZE as int);
                (i < final(store).pieces@.len() && !final(store).assemblies@[i].done
                    && b < spec_num_blocks(final(store).pieces@[i].length))
                    ==> !final(store).assemblies@[i].claimed@[b]
            }),
    {
        store.release_blocks(&self.outstanding);
        self.outstanding = Vec::new();
        self.state = SessionState::Closed;
    }

    /// Drives the ready states by one received message, as the
    /// protocol demands: a choke abandons the outstanding requests and
    /// returns them to the pool; an unchoke opens the request window;
    /// have and bitfield update the advertised pieces whatever the
    /// choke state; a piece message is written into the store, which
    /// verifies a completed piece; everything else changes nothing.
    /// Returns what the store said of a piece message.
    pub fn on_message(&mut self, store: &mut PieceStore, m: &Message) -> (r: Option<SubmitOutcome>)
        requires
            old(self).wf(),
            old(store).wf(),
            old(self).state == SessionState::Choked || old(self).state == SessionState::Unchoked,
        ensures
            final(self).wf(),
            final(store).wf(),
            final(self).interested_us == old(self).interested_us,
            match m {
                Message::Choke => {
                    &&& final(self).state == SessionState::Choked
                    &&& final(self).choking_us
                    &&& final(self).outstanding@.len() == 0
                    &&& final(self).peer_has == old(self).peer_has
                    &&& final(store).pieces == old(store).pieces
                    &&& final(store).completed == old(store).completed
                    &&& r is None
                    &&& forall|k: int| 0 <= k < old(self).outstanding@.len() ==> ({
                        let i = (#[trigger] old(self).outstanding@[k]).piece as int;
                        let b = old(self).outstanding@[k].begin as int / (BLOCK_SIZE as int);
                        (i < final(store).pieces@.len() && !final(store).assemblies@[i].done
                            && b < spec_num_blocks(final(store).pieces@[i].length))
                            ==> !final(store).assemblies@[i].claimed@[b]
                    })
                },
                Message::Unchoke => {
                    &&& final(self).state == SessionState::Unchoked
                    &&& !final(self).choking_us
                    &&& final(self).peer_has == old(self).peer_has
                    &&& final(self).outstanding == old(self).outstanding
                    &&& *final(store) == *old(store)
                    &&& r is None
                },
                Message::Have(index) => {
                    &&& final(self).state == old(self).state
                    &&& final(self).outstanding == old(self).outstanding
                    &&& final(self).peer_has@.len() == old(self).peer_has@.len()
                    &&& (if *index < old(self).peer_has@.len() {
                        final(self).peer_has@ == old(self).peer_has@.update(*index as int, true)
                    } else {
                        final(self).peer_has == old(self).peer_has
                    })
                    &&& *final(store) == *old(store)
                    &&& r is None
                },
                Message::Bitfield(bits) => {
                    &&& final(self).state == old(self).state
                    &&& final(self).outstanding == old(self).outstanding
                    &&& final(self).peer_has@.len() == old(self).peer_has@.len()
                    &&& forall|i: int| 0 <= i < old(self).peer_has@.len()
                        ==> final(self).peer_has@[i] == spec_bit(bits@, i)
                    &&& *final(store) == *old(store)
                    &&& r is None
                },
                Message::Piece { index, begin, block } => {
                    &&& final(self).state == old(self).state
                    &&& final(self).peer_has == old(self).peer_has
                    &&& (match r {
                        Some(outcome) => PieceStore::spec_submit_rel(
                            *old(store), *final(store), *index, *begin, block@, outcome),
                        None => false,
                    })
                    &&& final(self).outstanding@.len() <= old(self).outstanding@.len()
                    &&& forall|k: int| 0 <= k < final(self).outstanding@.len()
                        ==> old(self).outstanding@.contains(#[trigger] final(self).outstanding@[k])
                    &&& forall|k: int| 0 <= k < final(self).outstanding@.len()
                        ==> !((#[trigger] final(self).outstanding@[k]).piece == *index
                            && final(self).outstanding@[k].begin == *begin)
                    &&& forall|k: int| 0 <= k < old(self).outstanding@.len()
                        && !((#[trigger] old(self).outstanding@[k]).piece == *index
                            && old(self).outstanding@[k].begin == *begin)
                        ==> final(self).outstanding@.contains(old(self).outstanding@[k])
                },
                _ => {
                    &&& *final(self) == *old(self)
                    &&& *final(store) == *old(store)
                    &&& r is None
                },
            },
    {
        match m {
            Message::Choke => {
                store.release_blocks(&self.outstanding);
                self.outstanding = Vec::new();
                self.state = SessionState::Choked;
                self.choking_us = true;
                None
            },
            Message::Unchoke => {
                self.state = SessionState::Unchoked;
                self.choking_us = false;
                None
            },
            Message::Have(index) => {
                let i = *index as usize;
                if i < self.peer_has.len() {
                    self.peer_has[i] = true;
                }
                None
            },
            Message::Bitfield(bits) => {
                let n = self.peer_has.len();
                self.peer_has = bitfield_to_flags(bits, n);
                None
            },
            Message::Piece { index, begin, block } => {
                let outcome = store.submit_block(*index, *begin, block);
                let mut kept: Vec<BlockRange> = Vec::new();
                let mut k: usize = 0;
                while k < self.outstanding.len()
                    invariant
                        k <= self.outstanding@.len(),
                        self.outstanding == old(self).outstanding,
                        forall|j: int| 0 <= j < kept@.len()
                            ==> old(self).outstanding@.contains(#[trigger] kept@[j]),
                        forall|j: int| 0 <= j < kept@.len()
                            ==> !((#[trigger] kept@[j]).piece == *index
                                && kept@[j].begin == *begin),
                        kept@.len() <= k,
                        forall|j: int| 0 <= j < k
                            && !((#[trigger] self.outstanding@[j]).piece == *index
                                && self.outstanding@[j].begin == *begin)
                            ==> kept@.contains(self.outstanding@[j]),
                    decreases self.outstanding@.len() - k,
                {
                    let blk = self.outstanding[k];
                    let ghost kept0 = kept@;
                    if !(blk.piece == *index && blk.begin == *begin) {
                        kept.push(blk);
                        proof {
                            assert(kept@.last() == blk);
                            assert forall|e: BlockRange| kept0.contains(e)
                                implies kept@.contains(e) by {
                                let i = choose|i: int| 0 <= i < kept0.len() && kept0[i] == e;
                                assert(kept@[i] == e);
                            }
                            assert(kept@.contains(self.outstanding@[k as int]));
                        }
                    }
                    k = k + 1;
                }
                self.outstanding = kept;
                Some(outcome)
            },
            _ => {
                None
            },
        }
    }

    /// Issues requests while the window has room and the store still
    /// has blocks this peer can supply. Requests are only ever issued
    /// while unchoked, only for advertised pieces, each aligned to and
    /// capped at the block size; the returned messages are the
    /// requests for exactly the newly claimed blocks, in order; the
    /// store changes only by those claims; and the filling stopped
    /// only because the window is full or no claimable advertised
    /// block remains.
    pub fn fill_requests(&mut self, store: &mut PieceStore, window: usize) -> (r: Vec<Message>)
        requires
            old(self).wf(),
            old(store).wf(),
            old(self).state == SessionState::Unchoked,
        ensures
            final(self).wf(),
            final(store).wf(),
            final(self).state == SessionState::Unchoked,
            final(self).choking_us == old(self).choking_us,
            final(self).interested_us == old(self).interested_us,
            final(self).peer_has == old(self).peer_has,
            PieceStore::spec_only_claims_set(*old(store), *final(store)),
            final(self).outstanding@.len() <= old(self).outstanding@.len() + r@.len(),
            old(self).outstanding@.len() < window ==> final(self).outstanding@.len() <= window,
            old(self).outstanding@.len() >= window ==> final(self).outstanding@
                == old(self).outstanding@,
            final(self).outstanding@.subrange(0, old(self).outstanding@.len() as int)
                == old(self).outstanding@,
            r@.len() == final(self).outstanding@.len() - old(self).outstanding@.len(),
            // the filling stopped only for a full window or exhaustion
            final(self).outstanding@.len() < window ==> forall|i: int, b: int|
                !final(store).spec_avail(i, b, old(self).peer_has@),
            // every claim that was set belongs to one returned block
            forall|j: int, b: int| 0 <= j < old(store).assemblies@.len()
                && 0 <= b < old(store).assemblies@[j].claimed@.len()
                && !(#[trigger] old(store).assemblies@[j].claimed@[b])
                && final(store).assemblies@[j].claimed@[b]
                ==> exists|k: int| old(self).outstanding@.len() <= k
                    < final(self).outstanding@.len()
                    && (#[trigger] final(self).outstanding@[k]).piece == j
                    && final(self).outstanding@[k].begin as int / (BLOCK_SIZE as int) == b,
            forall|j: int| 0 <= j < r@.len() ==> ({
                let blk = final(self).outstanding@[old(self).outstanding@.len() + j];
                &&& #[trigger] r@[j] == (Message::Request {
                    index: blk.piece,
                    begin: blk.begin,
                    length: blk.length,
                })
                &&& blk.piece < old(store).pieces@.len()
                &&& blk.piece < old(self).peer_has@.len()
                &&& old(self).peer_has@[blk.piece as int]
                &&& blk.length >= 1
                &&& blk.length <= BLOCK_SIZE
                &&& blk.begin == (blk.begin as int / (BLOCK_SIZE as int)) * (BLOCK_SIZE as int)
                &&& blk.begin + blk.length <= old(store).pieces@[blk.piece as int].length
            }),
    {
        let mut msgs: Vec<Message> = Vec::new();
        while self.outstanding.len() < window
            invariant
                self.wf(),
                store.wf(),
                self.state == SessionState::Unchoked,
                self.choking_us == old(self).choking_us,
                self.interested_us == old(self).interested_us,
                self.peer_has == old(self).peer_has,
                PieceStore::spec_only_claims_set(*old(store), *store),
                self.outstanding@.len() >= old(self).outstanding@.len(),
                old(self).outstanding@.len() < window ==> self.outstanding@.len() <= window,
                old(self).outstanding@.len() >= window ==> self.outstanding@
                    == old(self).outstanding@,
                self.outstanding@.subrange(0, old(self).outstanding@.len() as int)
                    == old(self).outstanding@,
                msgs@.len() == self.outstanding@.len() - old(self).outstanding@.len(),
                forall|j: int, b: int| 0 <= j < old(store).assemblies@.len()
                    && 0 <= b < old(store).assemblies@[j].claimed@.len()
                    && !(#[trigger] old(store).assemblies@[j].claimed@[b])
                    && store.assemblies@[j].claimed@[b]
                    ==> exists|k: int| old(self).outstanding@.len() <= k
                        < self.outstanding@.len()
                        && (#[trigger] self.outstanding@[k]).piece == j
                        && self.outstanding@[k].begin as int / (BLOCK_SIZE as int) == b,
                forall|j: int| 0 <= j < msgs@.len() ==> ({
                    let blk = self.outstanding@[old(self).outstanding@.len() + j];
                    &&& #[trigger] msgs@[j] == (Message::Request {
                        index: blk.piece,
                        begin: blk.begin,
                        length: blk.length,
                    })
                    &&& blk.piece < old(store).pieces@.len()
                    &&& blk.piece < old(self).peer_has@.len()
                    &&& old(self).peer_has@[blk.piece as int]
                    &&& blk.length >= 1
                    &&& blk.length <= BLOCK_SIZE
                    &&& blk.begin == (blk.begin as int / (BLOCK_SIZE as int))
                        * (BLOCK_SIZE as int)
                    &&& blk.begin + blk.length <= old(store).pieces@[blk.piece as int].length
                }),
            decreases window - self.outstanding@.len(),
        {
            let ghost mid_store = *store;
            let ghost mid_out = self.outstanding@;
            let got = store.next_work(&self.peer_has);
            match got {
                Some(blk) => {
                    self.outstanding.push(blk);
                    msgs.push(Message::Request {
                        index: blk.piece,
                        begin: blk.begin,
                        length: blk.length,
                    });
                    proof {
                        assert(self.outstanding@.subrange(
                            0, old(self).outstanding@.len() as int)
                            =~= old(self).outstanding@);
                        let i0 = blk.piece as int;
                        let b0 = blk.begin as int / (BLOCK_SIZE as int);
                        assert(store.assemblies@[i0].claimed@
                            == mid_store.assemblies@[i0].claimed@.update(b0, true));
                        assert forall|j: int, b: int| 0 <= j < old(store).assemblies@.len()
                            && 0 <= b < old(store).assemblies@[j].claimed@.len()
                            && !(#[trigger] old(store).assemblies@[j].claimed@[b])
                            && store.assemblies@[j].claimed@[b]
                            implies exists|k: int| old(self).outstanding@.len() <= k
                                < self.outstanding@.len()
                                && (#[trigger] self.outstanding@[k]).piece == j
                                && self.outstanding@[k].begin as int / (BLOCK_SIZE as int) == b by {
                            if j == i0 && b == b0 {
                                let kw = self.outstanding@.len() - 1;
                                assert(self.outstanding@[kw] == blk);
                            } else {
                                assert(store.assemblies@[j].claimed@[b]
                                    == mid_store.assemblies@[j].claimed@[b]);
                                let kw = choose|k: int| old(self).outstanding@.len() <= k
                                    < mid_out.len()
                                    && (#[trigger] mid_out[k]).piece == j
                                    && mid_out[k].begin as int / (BLOCK_SIZE as int) == b;
                                assert(self.outstanding@[kw] == mid_out[kw]);
                            }
                        }
                    }
                },
                None => {
                    return msgs;
                },
            }
        }
        msgs
    }
}

} // verus!
