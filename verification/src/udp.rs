//! The UDP tracker protocol: the 16-byte connect and 98-byte announce
//! requests, their replies, and the announce state machine that guards
//! every reply by the transaction id of the most recent request. The
//! socket itself stays with the caller, which feeds datagrams and
//! timeouts in.

use vstd::prelude::*;
use crate::tracker::{PeerAddr, spec_peer_at};
use crate::util::{
    be4, be8, spec_u16_bytes, spec_u32_bytes, spec_u64_bytes, read_u32_be, read_u64_be,
    read_u16_be, push_u16_be, push_u32_be, push_u64_be, push_all,
};

verus! {

/// The protocol magic that opens every connect request.
pub const UDP_PROTOCOL_ID: u64 = 0x41727101980;

/// How long a granted connection id stays valid, in seconds; an
/// announce delayed past this window must repeat the connect step.
pub const CONNECTION_ID_VALIDITY_SECS: u64 = 60;

/// The connect request: protocol magic, action `0`, transaction id.
pub open spec fn spec_connect_request(txn: u32) -> Seq<u8> {
    spec_u64_bytes(UDP_PROTOCOL_ID) + spec_u32_bytes(0) + spec_u32_bytes(txn)
}

/// Builds the 16-byte connect request.
pub fn build_connect_request(txn: u32) -> (r: Vec<u8>)
    ensures
        r@ == spec_connect_request(txn),
        r@.len() == 16,
{
    let mut r: Vec<u8> = Vec::new();
    push_u64_be(&mut r, UDP_PROTOCOL_ID);
    push_u32_be(&mut r, 0);
    push_u32_be(&mut r, txn);
    proof {
        assert(r@ =~= spec_connect_request(txn));
    }
    r
}

/// A connect reply that answers the request with id `txn`: at least 16
/// bytes, action `0`, and the transaction id echoed.
pub open spec fn spec_connect_ok(b: Seq<u8>, txn: u32) -> bool {
    &&& b.len() >= 16
    &&& be4(b[0], b[1], b[2], b[3]) == 0
    &&& be4(b[4], b[5], b[6], b[7]) == txn
}

/// The connection id a connect reply carries.
pub open spec fn spec_connection_id(b: Seq<u8>) -> int {
    be8(b[8], b[9], b[10], b[11], b[12], b[13], b[14], b[15])
}

/// Judges a connect reply against the transaction id of the most
/// recent request, and reads its connection id.
pub fn parse_connect_response(b: &Vec<u8>, txn: u32) -> (r: Option<u64>)
    ensures
        match r {
            Some(cid) => spec_connect_ok(b@, txn) && cid == spec_connection_id(b@),
            None => !spec_connect_ok(b@, txn),
        },
{
    if b.len() < 16 {
        return None;
    }
    let action = read_u32_be(b[0], b[1], b[2], b[3]);
    let echoed = read_u32_be(b[4], b[5], b[6], b[7]);
    if action != 0 || echoed != txn {
        return None;
    }
    Some(read_u64_be(b[8], b[9], b[10], b[11], b[12], b[13], b[14], b[15]))
}

/// The announce request: connection id, action `1`, transaction id,
/// infohash, peer id, the three byte counters, event `0`, address `0`,
/// key `0`, `num_want` of all-ones, and the listen port. 98 bytes.
pub open spec fn spec_announce_request(
    conn_id: u64,
    txn: u32,
    infohash: Seq<u8>,
    peer_id: Seq<u8>,
    downloaded: u64,
    left: u64,
    uploaded: u64,
    port: u16,
) -> Seq<u8> {
    spec_u64_bytes(conn_id) + spec_u32_bytes(1) + spec_u32_bytes(txn) + infohash + peer_id
        + spec_u64_bytes(downloaded) + spec_u64_bytes(left) + spec_u64_bytes(uploaded)
        + spec_u32_bytes(0) + spec_u32_bytes(0) + spec_u32_bytes(0) + spec_u32_bytes(0xffffffff)
        + spec_u16_bytes(port)
}

/// Builds the 98-byte announce request.
pub fn build_announce_request(
    conn_id: u64,
    txn: u32,
    infohash: &Vec<u8>,
    peer_id: &Vec<u8>,
    downloaded: u64,
    left: u64,
    uploaded: u64,
    port: u16,
) -> (r: Vec<u8>)
    requires
        infohash@.len() == 20,
        peer_id@.len() == 20,
    ensures
        r@ == spec_announce_request(
            conn_id, txn, infohash@, peer_id@, downloaded, left, uploaded, port),
        r@.len() == 98,
{
    let mut r: Vec<u8> = Vec::new();
    push_u64_be(&mut r, conn_id);
    push_u32_be(&mut r, 1);
    push_u32_be(&mut r, txn);
    push_all(&mut r, infohash);
    push_all(&mut r, peer_id);
    push_u64_be(&mut r, downloaded);
    push_u64_be(&mut r, left);
    push_u64_be(&mut r, uploaded);
    push_u32_be(&mut r, 0);
    push_u32_be(&mut r, 0);
    push_u32_be(&mut r, 0);
    push_u32_be(&mut r, 0xffffffff);
    push_u16_be(&mut r, port);
    proof {
        assert(r@ =~= spec_announce_request(
            conn_id, txn, infohash@, peer_id@, downloaded, left, uploaded, port));
    }
    r
}

/// An announce reply that answers the request with id `txn`: at least
/// 20 bytes, action `1`, the transaction id echoed, and a peer region
/// that splits evenly into 6-byte records — a ragged region is
/// rejected, never silently truncated.
pub open spec fn spec_announce_ok(b: Seq<u8>, txn: u32) -> bool {
    &&& b.len() >= 20
    &&& be4(b[0], b[1], b[2], b[3]) == 1
    &&& be4(b[4], b[5], b[6], b[7]) == txn
    &&& (b.len() - 20) % 6 == 0
}

/// What a valid announce reply carries.
pub struct AnnounceReply {
    pub interval: u32,
    pub leechers: u32,
    pub seeders: u32,
    pub peers: Vec<PeerAddr>,
}

/// Judges an announce reply against the transaction id of the most
/// recent request, and reads its counters and the 6-byte peer records
/// after them.
pub fn parse_announce_response(b: &Vec<u8>, txn: u32) -> (r: Option<AnnounceReply>)
    ensures
        match r {
            Some(rep) => {
                &&& spec_announce_ok(b@, txn)
                &&& rep.interval == be4(b@[8], b@[9], b@[10], b@[11])
                &&& rep.leechers == be4(b@[12], b@[13], b@[14], b@[15])
                &&& rep.seeders == be4(b@[16], b@[17], b@[18], b@[19])
                &&& rep.peers@.len() == (b@.len() - 20) / 6
                &&& forall|i: int| 0 <= i < rep.peers@.len()
                    ==> #[trigger] rep.peers@[i] == spec_peer_at(
                        b@.subrange(20, b@.len() as int), i)
            },
            None => !spec_announce_ok(b@, txn),
        },
{
    if b.len() < 20 {
        return None;
    }
    let action = read_u32_be(b[0], b[1], b[2], b[3]);
    let echoed = read_u32_be(b[4], b[5], b[6], b[7]);
    if action != 1 || echoed != txn {
        return None;
    }
    let interval = read_u32_be(b[8], b[9], b[10], b[11]);
    let leechers = read_u32_be(b[12], b[13], b[14], b[15]);
    let seeders = read_u32_be(b[16], b[17], b[18], b[19]);
    let blen = b.len();
    if (blen - 20) % 6 != 0 {
        return None;
    }
    let n = (blen - 20) / 6;
    proof {
        vstd::arithmetic::div_mod::lemma_fundamental_div_mod(b@.len() - 20, 6);
    }
    let mut peers: Vec<PeerAddr> = Vec::new();
    let mut i: usize = 0;
    while i < n
        invariant
            i <= n,
            blen == b@.len(),
            blen >= 20,
            n == (b@.len() - 20) / 6,
            20 + 6 * n <= blen,
            peers@.len() == i,
            forall|j: int| 0 <= j < i
                ==> #[trigger] peers@[j] == spec_peer_at(b@.subrange(20, b@.len() as int), j),
        decreases n - i,
    {
        proof {
            assert(6 * (i as int) + 6 <= 6 * (n as int));
        }
        let base = 20 + 6 * i;
        let port = read_u16_be(b[base + 4], b[base + 5]);
        let p = PeerAddr { o1: b[base], o2: b[base + 1], o3: b[base + 2], o4: b[base + 3], port };
        peers.push(p);
        proof {
            let sub = b@.subrange(20, b@.len() as int);
            assert(sub[6 * (i as int)] == b@[base as int]);
            assert(sub[6 * (i as int) + 1] == b@[base as int + 1]);
            assert(sub[6 * (i as int) + 2] == b@[base as int + 2]);
            assert(sub[6 * (i as int) + 3] == b@[base as int + 3]);
            assert(sub[6 * (i as int) + 4] == b@[base as int + 4]);
            assert(sub[6 * (i as int) + 5] == b@[base as int + 5]);
        }
        i = i + 1;
    }
    Some(AnnounceReply { interval, leechers, seeders, peers })
}

/// Where one UDP announce attempt stands.
#[derive(Clone, Copy, PartialEq, Eq, Structural, Debug)]
pub enum UdpPhase {
    /// Nothing sent yet.
    Idle,
    /// A connect request is in flight.
    AwaitingConnect,
    /// An announce request is in flight.
    AwaitingAnnounce,
    /// The announce was answered; the peers are ready.
    Done,
    /// The retry budget ran out: the tracker is unreachable.
    Failed,
}

/// One announce attempt against a UDP tracker: the current phase, the
/// transaction id of the most recent request, the connection id the
/// tracker granted, the retries that remain, and the peers once done.
pub struct TrackerAnnounceState {
    pub phase: UdpPhase,
    pub txn_id: u32,
    pub connection_id: u64,
    pub retries_left: u32,
    pub peers: Vec<PeerAddr>,
}

impl TrackerAnnounceState {
    /// A fresh attempt with a retry budget.
    pub fn new(retry_budget: u32) -> (r: TrackerAnnounceState)
        ensures
            r.phase == UdpPhase::Idle,
            r.retries_left == retry_budget,
            r.peers@.len() == 0,
    {
        TrackerAnnounceState {
            phase: UdpPhase::Idle,
            txn_id: 0,
            connection_id: 0,
            retries_left: retry_budget,
            peers: Vec::new(),
        }
    }

    /// Opens the attempt: records the transaction id and hands back
    /// the connect request to send.
    pub fn begin_connect(&mut self, txn: u32) -> (r: Vec<u8>)
        requires
            old(self).phase == UdpPhase::Idle,
        ensures
            final(self).phase == UdpPhase::AwaitingConnect,
            final(self).txn_id == txn,
            final(self).retries_left == old(self).retries_left,
            final(self).peers == old(self).peers,
            r@ == spec_connect_request(txn),
    {
        self.txn_id = txn;
        self.phase = UdpPhase::AwaitingConnect;
        build_connect_request(txn)
    }

    /// Judges a datagram while a connect request is in flight. A reply
    /// whose transaction id does not match the most recent request is
    /// discarded and the state does not move: it is never taken for an
    /// answer. A matching reply yields the announce request to send
    /// next, under a fresh transaction id.
    pub fn on_connect_reply(
        &mut self,
        buf: &Vec<u8>,
        next_txn: u32,
        infohash: &Vec<u8>,
        peer_id: &Vec<u8>,
        downloaded: u64,
        left: u64,
        uploaded: u64,
        port: u16,
    ) -> (r: Option<Vec<u8>>)
        requires
            old(self).phase == UdpPhase::AwaitingConnect,
            infohash@.len() == 20,
            peer_id@.len() == 20,
        ensures
            match r {
                Some(pkt) => {
                    &&& spec_connect_ok(buf@, old(self).txn_id)
                    &&& final(self).phase == UdpPhase::AwaitingAnnounce
                    &&& final(self).txn_id == next_txn
                    &&& final(self).connection_id == spec_connection_id(buf@)
                    &&& final(self).retries_left == old(self).retries_left
                    &&& final(self).peers == old(self).peers
                    &&& pkt@ == spec_announce_request(
                        final(self).connection_id, next_txn, infohash@, peer_id@, downloaded,
                        left, uploaded, port)
                },
                None => {
                    &&& !spec_connect_ok(buf@, old(self).txn_id)
                    &&& *final(self) == *old(self)
                },
            },
    {
        match parse_connect_response(buf, self.txn_id) {
            Some(cid) => {
                self.connection_id = cid;
                self.txn_id = next_txn;
                self.phase = UdpPhase::AwaitingAnnounce;
                Some(build_announce_request(
                    cid, next_txn, infohash, peer_id, downloaded, left, uploaded, port))
            },
            None => None,
        }
    }

    /// Judges a datagram while an announce request is in flight. A
    /// reply whose transaction id does not match the most recent
    /// request is discarded and the state does not move; it is never
    /// taken for a successful empty answer. A matching reply finishes
    /// the attempt with its peer list.
    pub fn on_announce_reply(&mut self, buf: &Vec<u8>) -> (r: bool)
        requires
            old(self).phase == UdpPhase::AwaitingAnnounce,
        ensures
            if r {
                &&& spec_announce_ok(buf@, old(self).txn_id)
                &&& final(self).phase == UdpPhase::Done
                &&& final(self).txn_id == old(self).txn_id
                &&& final(self).peers@.len() == (buf@.len() - 20) / 6
                &&& forall|i: int| 0 <= i < final(self).peers@.len()
                    ==> #[trigger] final(self).peers@[i] == spec_peer_at(
                        buf@.subrange(20, buf@.len() as int), i)
            } else {
                &&& !spec_announce_ok(buf@, old(self).txn_id)
                &&& *final(self) == *old(self)
            },
    {
        match parse_announce_response(buf, self.txn_id) {
            Some(rep) => {
                self.peers = rep.peers;
                self.phase = UdpPhase::Done;
                true
            },
            None => false,
        }
    }

    /// The granted connection id outlived its validity window before
    /// the announce was answered: the connect step must be repeated.
    /// Records a fresh transaction id and hands back the connect
    /// request to send; the retry budget is untouched.
    pub fn on_connection_expired(&mut self, txn: u32) -> (r: Vec<u8>)
        requires
            old(self).phase == UdpPhase::AwaitingAnnounce,
        ensures
            final(self).phase == UdpPhase::AwaitingConnect,
            final(self).txn_id == txn,
            final(self).retries_left == old(self).retries_left,
            final(self).peers == old(self).peers,
            r@ == spec_connect_request(txn),
    {
        self.txn_id = txn;
        self.phase = UdpPhase::AwaitingConnect;
        build_connect_request(txn)
    }

    /// A request went unanswered for its timeout: spend one retry, or
    /// give the attempt up when the budget is exhausted — exhaustion is
    /// the terminal unreachable verdict, never an empty peer list.
    pub fn on_timeout(&mut self) -> (r: bool)
        requires
            old(self).phase == UdpPhase::AwaitingConnect || old(self).phase
                == UdpPhase::AwaitingAnnounce,
        ensures
            final(self).txn_id == old(self).txn_id,
            final(self).connection_id == old(self).connection_id,
            final(self).peers == old(self).peers,
            if r {
                &&& old(self).retries_left > 0
                &&& final(self).retries_left == old(self).retries_left - 1
                &&& final(self).phase == old(self).phase
            } else {
                &&& old(self).retries_left == 0
                &&& final(self).phase == UdpPhase::Failed
            },
    {
        if self.retries_left > 0 {
            self.retries_left = self.retries_left - 1;
            true
        } else {
            self.phase = UdpPhase::Failed;
            false
        }
    }
}

} // verus!
