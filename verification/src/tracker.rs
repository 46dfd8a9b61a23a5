//! The HTTP tracker protocol: the announce URL with its raw-byte
//! percent-encoded parameters, and the bencoded response with its
//! compact or dictionary-form peer list. The network round trip itself
//! stays with the caller.

use vstd::prelude::*;
use crate::TransferError;
use crate::bencode::{
    BValue, BSpec, bview, bviews, bpviews, spec_parse_value, spec_scan_digits, spec_digits_val,
    decode_value, dict_get, NEST_LIMIT,
};
use crate::metainfo::{spec_lookup, spec_as_bytes};
use crate::util::{be2, read_u16_be, spec_dec, dec_u64, push_all};

verus! {

broadcast use crate::bencode::lemma_bviews_index;

/// One peer's socket address: a dotted-quad address and a port.
#[derive(Clone, Copy, PartialEq, Eq, Structural, Debug)]
pub struct PeerAddr {
    pub o1: u8,
    pub o2: u8,
    pub o3: u8,
    pub o4: u8,
    pub port: u16,
}

/// What an announce gives back: the peers to try.
pub struct TrackerResponse {
    pub peers: Vec<PeerAddr>,
}

/// The peer encoded at entry `i` of a compact peer list: four address
/// octets and a big-endian port.
pub open spec fn spec_peer_at(b: Seq<u8>, i: int) -> PeerAddr {
    PeerAddr {
        o1: b[6 * i],
        o2: b[6 * i + 1],
        o3: b[6 * i + 2],
        o4: b[6 * i + 3],
        port: be2(b[6 * i + 4], b[6 * i + 5]) as u16,
    }
}

/// Decodes a compact peer list: every 6 bytes are one peer. A length
/// that is not a multiple of 6 is rejected, never truncated silently.
pub fn parse_compact_peers(b: &Vec<u8>) -> (r: Result<Vec<PeerAddr>, TransferError>)
    ensures
        match r {
            Ok(peers) => {
                &&& b@.len() % 6 == 0
                &&& peers@.len() == b@.len() / 6
                &&& forall|i: int| 0 <= i < peers@.len()
                    ==> #[trigger] peers@[i] == spec_peer_at(b@, i)
            },
            Err(e) => {
                &&& e == TransferError::DecodeError
                &&& b@.len() % 6 != 0
            },
        },
{
    if b.len() % 6 != 0 {
        return Err(TransferError::DecodeError);
    }
    let blen = b.len();
    let n = blen / 6;
    proof {
        vstd::arithmetic::div_mod::lemma_fundamental_div_mod(b@.len() as int, 6);
    }
    let mut peers: Vec<PeerAddr> = Vec::new();
    let mut i: usize = 0;
    while i < n
        invariant
            i <= n,
            n == b@.len() / 6,
            blen == b@.len(),
            6 * n <= blen,
            peers@.len() == i,
            forall|j: int| 0 <= j < i ==> #[trigger] peers@[j] == spec_peer_at(b@, j),
        decreases n - i,
    {
        proof {
            assert(6 * (i as int) + 6 <= 6 * (n as int));
        }
        let base = 6 * i;
        let port = read_u16_be(b[base + 4], b[base + 5]);
        peers.push(PeerAddr { o1: b[base], o2: b[base + 1], o3: b[base + 2], o4: b[base + 3], port });
        i = i + 1;
    }
    Ok(peers)
}

/// A byte the query string carries as itself: an ASCII letter, digit,
/// or one of `-`, `.`, `_`, `~`.
pub open spec fn spec_is_unreserved(c: u8) -> bool {
    ||| 65 <= c <= 90
    ||| 97 <= c <= 122
    ||| 48 <= c <= 57
    ||| c == 45
    ||| c == 46
    ||| c == 95
    ||| c == 126
}

/// The uppercase hex digit for a value below 16.
pub open spec fn spec_hex_digit(x: u8) -> u8 {
    if x < 10 {
        (48 + x) as u8
    } else {
        (55 + x) as u8
    }
}

/// One byte percent-encoded: itself if unreserved, `%XX` otherwise.
pub open spec fn spec_percent_byte(c: u8) -> Seq<u8> {
    if spec_is_unreserved(c) {
        seq![c]
    } else {
        seq![37u8, spec_hex_digit(c / 16), spec_hex_digit(c % 16)]
    }
}

/// A byte string percent-encoded, byte for byte, without any text
/// interpretation.
pub open spec fn spec_percent_encode(b: Seq<u8>) -> Seq<u8>
    decreases b.len(),
{
    if b.len() == 0 {
        Seq::empty()
    } else {
        spec_percent_byte(b[0]) + spec_percent_encode(b.drop_first())
    }
}

/// Percent-encodes raw bytes for a query string.
pub fn encode_binary(b: &Vec<u8>) -> (r: Vec<u8>)
    ensures
        r@ == spec_percent_encode(b@),
{
    let mut out: Vec<u8> = Vec::new();
    let ghost full = b@;
    proof {
        assert(full.skip(0) =~= full);
    }
    let mut i: usize = 0;
    while i < b.len()
        invariant
            i <= b@.len(),
            b@ == full,
            out@ + spec_percent_encode(full.skip(i as int)) == spec_percent_encode(full),
        decreases b@.len() - i,
    {
        proof {
            assert(full.skip(i as int)[0] == full[i as int]);
            assert(full.skip(i as int).drop_first() =~= full.skip(i as int + 1));
        }
        let c = b[i];
        let ghost out0 = out@;
        if (65 <= c && c <= 90) || (97 <= c && c <= 122) || (48 <= c && c <= 57) || c == 45
            || c == 46 || c == 95 || c == 126 {
            out.push(c);
        } else {
            out.push(37);
            let hi = c / 16;
            let lo = c % 16;
            out.push(if hi < 10 { 48 + hi } else { 55 + hi });
            out.push(if lo < 10 { 48 + lo } else { 55 + lo });
        }
        proof {
            assert(out@ =~= out0 + spec_percent_byte(full[i as int]));
            assert(out0 + (spec_percent_byte(full[i as int]) + spec_percent_encode(
                full.skip(i as int + 1))) =~= (out0 + spec_percent_byte(full[i as int]))
                + spec_percent_encode(full.skip(i as int + 1)));
        }
        i = i + 1;
    }
    proof {
        assert(full.skip(i as int).len() == 0);
        assert(spec_percent_encode(full.skip(i as int)) =~= Seq::<u8>::empty());
        assert(out@ + Seq::<u8>::empty() =~= out@);
    }
    out
}

/// The query text `?info_hash=`.
pub open spec fn spec_q_info_hash() -> Seq<u8> {
    seq![63u8, 105, 110, 102, 111, 95, 104, 97, 115, 104, 61]
}

/// The query text `&peer_id=`.
pub open spec fn spec_q_peer_id() -> Seq<u8> {
    seq![38u8, 112, 101, 101, 114, 95, 105, 100, 61]
}

/// The query text `&port=`.
pub open spec fn spec_q_port() -> Seq<u8> {
    seq![38u8, 112, 111, 114, 116, 61]
}

/// The query text `&uploaded=`.
pub open spec fn spec_q_uploaded() -> Seq<u8> {
    seq![38u8, 117, 112, 108, 111, 97, 100, 101, 100, 61]
}

/// The query text `&downloaded=`.
pub open spec fn spec_q_downloaded() -> Seq<u8> {
    seq![38u8, 100, 111, 119, 110, 108, 111, 97, 100, 101, 100, 61]
}

/// The query text `&left=`.
pub open spec fn spec_q_left() -> Seq<u8> {
    seq![38u8, 108, 101, 102, 116, 61]
}

/// The query text `&compact=1`.
pub open spec fn spec_q_compact() -> Seq<u8> {
    seq![38u8, 99, 111, 109, 112, 97, 99, 116, 61, 49]
}

/// The full announce URL: the endpoint, then the raw-byte
/// percent-encoded infohash and peer id, the port, the three byte
/// counters, and the compact flag.
pub open spec fn spec_announce_url(
    announce: Seq<u8>,
    infohash: Seq<u8>,
    peer_id: Seq<u8>,
    port: u16,
    uploaded: u64,
    downloaded: u64,
    left: u64,
) -> Seq<u8> {
    announce + spec_q_info_hash() + spec_percent_encode(infohash) + spec_q_peer_id()
        + spec_percent_encode(peer_id) + spec_q_port() + spec_dec(port as nat) + spec_q_uploaded()
        + spec_dec(uploaded as nat) + spec_q_downloaded() + spec_dec(downloaded as nat)
        + spec_q_left() + spec_dec(left as nat) + spec_q_compact()
}

/// Builds the announce URL for one HTTP tracker query.
pub fn build_announce_url(
    announce: &Vec<u8>,
    infohash: &Vec<u8>,
    peer_id: &Vec<u8>,
    port: u16,
    uploaded: u64,
    downloaded: u64,
    left: u64,
) -> (r: Vec<u8>)
    ensures
        r@ == spec_announce_url(
            announce@, infohash@, peer_id@, port, uploaded, downloaded, left),
{
    let mut url: Vec<u8> = Vec::new();
    push_all(&mut url, announce);
    push_lit_info_hash(&mut url);
    let ih = encode_binary(infohash);
    push_all(&mut url, &ih);
    push_lit_peer_id(&mut url);
    let pid = encode_binary(peer_id);
    push_all(&mut url, &pid);
    push_lit_port(&mut url);
    let pd = dec_u64(port as u64);
    push_all(&mut url, &pd);
    push_lit_uploaded(&mut url);
    let ud = dec_u64(uploaded);
    push_all(&mut url, &ud);
    push_lit_downloaded(&mut url);
    let dd = dec_u64(downloaded);
    push_all(&mut url, &dd);
    push_lit_left(&mut url);
    let ld = dec_u64(left);
    push_all(&mut url, &ld);
    push_lit_compact(&mut url);
    proof {
        assert(url@ =~= spec_announce_url(
            announce@, infohash@, peer_id@, port, uploaded, downloaded, left));
    }
    url
}

/// The bytes of the key `failure reason`.
pub open spec fn spec_key_failure_reason() -> Seq<u8> {
    seq![102u8, 97, 105, 108, 117, 114, 101, 32, 114, 101, 97, 115, 111, 110]
}

/// The bytes of the key `peers`.
pub open spec fn spec_key_peers() -> Seq<u8> {
    seq![112u8, 101, 101, 114, 115]
}

/// The bytes of the key `ip`.
pub open spec fn spec_key_ip() -> Seq<u8> {
    seq![105u8, 112]
}

/// The bytes of the key `port`.
pub open spec fn spec_key_port() -> Seq<u8> {
    seq![112u8, 111, 114, 116]
}

fn key_failure_reason() -> (r: Vec<u8>)
    ensures
        r@ == spec_key_failure_reason(),
{
    let mut v: Vec<u8> = Vec::new();
    v.push(102);
    v.push(97);
    v.push(105);
    v.push(108);
    v.push(117);
    v.push(114);
    v.push(101);
    v.push(32);
    v.push(114);
    v.push(101);
    v.push(97);
    v.push(115);
    v.push(111);
    v.push(110);
    proof {
        assert(v@ =~= spec_key_failure_reason());
    }
    v
}

fn key_peers() -> (r: Vec<u8>)
    ensures
        r@ == spec_key_peers(),
{
    let mut v: Vec<u8> = Vec::new();
    v.push(112);
    v.push(101);
    v.push(101);
    v.push(114);
    v.push(115);
    proof {
        assert(v@ =~= spec_key_peers());
    }
    v
}

fn key_ip() -> (r: Vec<u8>)
    ensures
        r@ == spec_key_ip(),
{
    let mut v: Vec<u8> = Vec::new();
    v.push(105);
    v.push(112);
    proof {
        assert(v@ =~= spec_key_ip());
    }
    v
}

fn key_port() -> (r: Vec<u8>)
    ensures
        r@ == spec_key_port(),
{
    let mut v: Vec<u8> = Vec::new();
    v.push(112);
    v.push(111);
    v.push(114);
    v.push(116);
    proof {
        assert(v@ =~= spec_key_port());
    }
    v
}

/// One decimal octet at `pos`: up to three digits valued at most 255,
/// without a leading zero, and where it ends.
pub open spec fn spec_octet(s: Seq<u8>, pos: int) -> Option<(u8, int)> {
    let dend = spec_scan_digits(s, pos);
    if dend == pos || dend - pos > 3 {
        None
    } else if dend - pos > 1 && s[pos] == 48 {
        None
    } else {
        let v = spec_digits_val(s, pos, dend);
        if v > 255 {
            None
        } else {
            Some((v as u8, dend))
        }
    }
}

/// A whole dotted-quad address: four octets joined by dots, filling
/// the string exactly.
pub open spec fn spec_parse_ipv4(s: Seq<u8>) -> Option<(u8, u8, u8, u8)> {
    match spec_octet(s, 0) {
        Some((a, p1)) => if p1 < s.len() && s[p1] == 46 {
            match spec_octet(s, p1 + 1) {
                Some((b, p2)) => if p2 < s.len() && s[p2] == 46 {
                    match spec_octet(s, p2 + 1) {
                        Some((c, p3)) => if p3 < s.len() && s[p3] == 46 {
                            match spec_octet(s, p3 + 1) {
                                Some((d, p4)) => if p4 == s.len() {
                                    Some((a, b, c, d))
                                } else {
                                    None
                                },
                                None => None,
                            }
                        } else {
                            None
                        },
                        None => None,
                    }
                } else {
                    None
                },
                None => None,
            }
        } else {
            None
        },
        None => None,
    }
}

/// Reads the decimal octet at `pos`.
fn parse_octet(s: &Vec<u8>, pos: usize) -> (r: Option<(u8, usize)>)
    requires
        pos <= s@.len(),
    ensures
        match r {
            Some((v, end)) => spec_octet(s@, pos as int) == Some((v, end as int))
                && pos < end <= s@.len(),
            None => spec_octet(s@, pos as int) is None,
        },
{
    let dend = crate::bencode::scan_digits(s, pos);
    if dend == pos || dend - pos > 3 {
        return None;
    }
    if dend - pos > 1 && s[pos] == 48 {
        return None;
    }
    let (v, sat) = crate::bencode::digits_val_capped(s, pos, dend, 255);
    if sat {
        return None;
    }
    Some((v as u8, dend))
}

/// Parses a dotted-quad address that fills `s` exactly.
pub fn parse_ipv4(s: &Vec<u8>) -> (r: Option<(u8, u8, u8, u8)>)
    ensures
        r == spec_parse_ipv4(s@),
{
    let (a, p1) = match parse_octet(s, 0) {
        Some(x) => x,
        None => {
            return None;
        },
    };
    if p1 >= s.len() || s[p1] != 46 {
        return None;
    }
    let (b, p2) = match parse_octet(s, p1 + 1) {
        Some(x) => x,
        None => {
            return None;
        },
    };
    if p2 >= s.len() || s[p2] != 46 {
        return None;
    }
    let (c, p3) = match parse_octet(s, p2 + 1) {
        Some(x) => x,
        None => {
            return None;
        },
    };
    if p3 >= s.len() || s[p3] != 46 {
        return None;
    }
    let (d, p4) = match parse_octet(s, p3 + 1) {
        Some(x) => x,
        None => {
            return None;
        },
    };
    if p4 != s.len() {
        return None;
    }
    Some((a, b, c, d))
}

/// A well-shaped dictionary-form peer: an `ip` byte string holding a
/// dotted quad and a `port` integer within range.
pub open spec fn spec_peer_dict_ok(b: BSpec) -> bool {
    match b {
        BSpec::Dict(fp) => {
            &&& (match crate::bencode::spec_dict_get(fp, spec_key_ip()) {
                Some(BSpec::Bytes(ip)) => spec_parse_ipv4(ip) is Some,
                _ => false,
            })
            &&& (match crate::bencode::spec_dict_get(fp, spec_key_port()) {
                Some(BSpec::Int(x)) => 0 <= x <= 0xffff,
                _ => false,
            })
        },
        _ => false,
    }
}

/// `p` holds exactly the address and port the peer dictionary gives.
pub open spec fn spec_peer_dict_rel(b: BSpec, p: PeerAddr) -> bool {
    match b {
        BSpec::Dict(fp) => {
            &&& (match crate::bencode::spec_dict_get(fp, spec_key_ip()) {
                Some(BSpec::Bytes(ip)) => spec_parse_ipv4(ip) == Some((p.o1, p.o2, p.o3, p.o4)),
                _ => false,
            })
            &&& (match crate::bencode::spec_dict_get(fp, spec_key_port()) {
                Some(BSpec::Int(x)) => x == p.port,
                _ => false,
            })
        },
        _ => false,
    }
}

/// Every entry of a dictionary-form peer list is well shaped.
pub open spec fn spec_peers_all_ok(items: Seq<BSpec>) -> bool {
    forall|k: int| 0 <= k < items.len() ==> spec_peer_dict_ok(#[trigger] items[k])
}

/// The document a tracker response holds.
pub open spec fn spec_tracker_doc(s: Seq<u8>) -> Option<BSpec> {
    match spec_parse_value(s, 0, NEST_LIMIT as nat) {
        Some((doc, end)) => if end == s.len() {
            Some(doc)
        } else {
            None
        },
        None => None,
    }
}

/// The tracker explicitly reported failure: the response carries a
/// `failure reason` message.
pub open spec fn spec_tracker_reports_failure(s: Seq<u8>) -> bool {
    match spec_tracker_doc(s) {
        Some(doc) => spec_as_bytes(spec_lookup(doc, spec_key_failure_reason())) is Some,
        None => false,
    }
}

/// A successful tracker response: no failure message, and a peer list
/// in compact or dictionary form.
pub open spec fn spec_tracker_ok(s: Seq<u8>) -> bool {
    match spec_tracker_doc(s) {
        Some(doc) => {
            &&& spec_lookup(doc, spec_key_failure_reason()) is None
            &&& (match spec_lookup(doc, spec_key_peers()) {
                Some(BSpec::Bytes(b)) => b.len() % 6 == 0,
                Some(BSpec::List(items)) => spec_peers_all_ok(items),
                _ => false,
            })
        },
        None => false,
    }
}

/// `resp` holds exactly the peers the response lists, in order, both
/// forms decoding to the same peer type.
pub open spec fn spec_tracker_rel(s: Seq<u8>, resp: TrackerResponse) -> bool {
    match spec_tracker_doc(s) {
        Some(doc) => match spec_lookup(doc, spec_key_peers()) {
            Some(BSpec::Bytes(b)) => {
                &&& resp.peers@.len() == b.len() / 6
                &&& forall|i: int| 0 <= i < resp.peers@.len()
                    ==> #[trigger] resp.peers@[i] == spec_peer_at(b, i)
            },
            Some(BSpec::List(items)) => {
                &&& resp.peers@.len() == items.len()
                &&& forall|i: int| 0 <= i < items.len()
                    ==> spec_peer_dict_rel(#[trigger] items[i], resp.peers@[i])
            },
            _ => false,
        },
        None => false,
    }
}

/// An ill-shaped peer entry makes the whole list ill shaped.
proof fn lemma_peers_bad(items: Seq<BSpec>, k: int)
    requires
        0 <= k < items.len(),
        !spec_peer_dict_ok(items[k]),
    ensures
        !spec_peers_all_ok(items),
{
    if spec_peers_all_ok(items) {
        assert(spec_peer_dict_ok(items[k]));
    }
}

/// A peer entry some address matches is well shaped.
proof fn lemma_peer_rel_ok(b: BSpec, p: PeerAddr)
    requires
        spec_peer_dict_rel(b, p),
    ensures
        spec_peer_dict_ok(b),
{
}

/// Reads one dictionary-form peer.
fn parse_peer_dict(b: &BValue) -> (r: Result<PeerAddr, TransferError>)
    ensures
        match r {
            Ok(p) => spec_peer_dict_rel(bview(*b), p),
            Err(e) => e == TransferError::DecodeError && !spec_peer_dict_ok(bview(*b)),
        },
{
    match b {
        BValue::Dict(fp) => {
            let (o1, o2, o3, o4) = match dict_get(fp, &key_ip()) {
                Some(v) => match v {
                    BValue::Bytes(ip) => match parse_ipv4(ip) {
                        Some(q) => q,
                        None => {
                            return Err(TransferError::DecodeError);
                        },
                    },
                    _ => {
                        return Err(TransferError::DecodeError);
                    },
                },
                None => {
                    return Err(TransferError::DecodeError);
                },
            };
            let port: u16 = match dict_get(fp, &key_port()) {
                Some(v) => match v {
                    BValue::Int(x) => {
                        if 0 <= *x && *x <= 0xffff {
                            *x as u16
                        } else {
                            return Err(TransferError::DecodeError);
                        }
                    },
                    _ => {
                        return Err(TransferError::DecodeError);
                    },
                },
                None => {
                    return Err(TransferError::DecodeError);
                },
            };
            Ok(PeerAddr { o1, o2, o3, o4, port })
        },
        _ => Err(TransferError::DecodeError),
    }
}

/// The `failure reason` message a response carries.
pub open spec fn spec_failure_message(s: Seq<u8>) -> Seq<u8>
    recommends
        spec_tracker_reports_failure(s),
{
    match spec_tracker_doc(s) {
        Some(doc) => spec_as_bytes(spec_lookup(doc, spec_key_failure_reason())).unwrap(),
        None => Seq::empty(),
    }
}

/// Decodes a bencoded tracker response. A `failure reason` message is
/// the tracker's explicit refusal, handed back word for word;
/// otherwise the peer list, compact or dictionary form, decodes to
/// the one peer type, and anything else is malformed.
#[verifier::loop_isolation(false)]
pub fn parse_tracker_response(s: &Vec<u8>) -> (r: Result<TrackerResponse, TransferError>)
    ensures
        match r {
            Ok(resp) => spec_tracker_ok(s@) && spec_tracker_rel(s@, resp),
            Err(e) => match e {
                TransferError::TrackerFailure(m) => {
                    &&& spec_tracker_reports_failure(s@)
                    &&& m@ == spec_failure_message(s@)
                },
                TransferError::DecodeError => {
                    &&& !spec_tracker_ok(s@)
                    &&& !spec_tracker_reports_failure(s@)
                },
                _ => false,
            },
        },
{
    let doc = match decode_value(s) {
        Ok(v) => v,
        Err(e) => {
            return Err(e);
        },
    };
    let pairs = match &doc {
        BValue::Dict(p) => p,
        _ => {
            proof {
                assert(!(bview(doc) is Dict));
            }
            return Err(TransferError::DecodeError);
        },
    };
    proof {
        assert(bview(doc) == BSpec::Dict(bpviews(*pairs)));
    }
    match dict_get(pairs, &key_failure_reason()) {
        Some(v) => match v {
            BValue::Bytes(msg) => {
                proof {
                    assert(bview(*v) == BSpec::Bytes(msg@));
                }
                let m = crate::util::sub_vec(msg, 0, msg.len());
                proof {
                    assert(m@ =~= msg@);
                }
                return Err(TransferError::TrackerFailure(m));
            },
            _ => {
                proof {
                    assert(!(bview(*v) is Bytes));
                }
                return Err(TransferError::DecodeError);
            },
        },
        None => {},
    }
    let peers = match dict_get(pairs, &key_peers()) {
        Some(v) => match v {
            BValue::Bytes(b) => {
                proof {
                    assert(bview(*v) == BSpec::Bytes(b@));
                }
                match parse_compact_peers(b) {
                    Ok(ps) => ps,
                    Err(e) => {
                        return Err(e);
                    },
                }
            },
            BValue::List(items) => {
                proof {
                    assert(bview(*v) == BSpec::List(bviews(*items)));
                }
                let mut ps: Vec<PeerAddr> = Vec::new();
                let mut k: usize = 0;
                while k < items.len()
                    invariant
                        k <= items@.len(),
                        ps@.len() == k,
                        forall|k2: int| 0 <= k2 < k
                            ==> spec_peer_dict_rel(#[trigger] bviews(*items)[k2], ps@[k2]),
                    decreases items@.len() - k,
                {
                    match parse_peer_dict(&items[k]) {
                        Ok(p) => {
                            ps.push(p);
                            proof {
                                assert(bviews(*items)[k as int] == bview(items@[k as int]));
                            }
                        },
                        Err(e) => {
                            proof {
                                assert(bviews(*items)[k as int] == bview(items@[k as int]));
                                lemma_peers_bad(bviews(*items), k as int);
                            }
                            return Err(e);
                        },
                    }
                    k = k + 1;
                }
                proof {
                    assert forall|k2: int| 0 <= k2 < bviews(*items).len() implies
                        spec_peer_dict_ok(#[trigger] bviews(*items)[k2]) by {
                        lemma_peer_rel_ok(bviews(*items)[k2], ps@[k2]);
                    }
                }
                ps
            },
            _ => {
                proof {
                    assert(!(bview(*v) is Bytes) && !(bview(*v) is List));
                }
                return Err(TransferError::DecodeError);
            },
        },
        None => {
            return Err(TransferError::DecodeError);
        },
    };
    Ok(TrackerResponse { peers })
}

fn push_lit_info_hash(out: &mut Vec<u8>)
    ensures
        final(out)@ =~= old(out)@ + spec_q_info_hash(),
{
    out.push(63);
    out.push(105);
    out.push(110);
    out.push(102);
    out.push(111);
    out.push(95);
    out.push(104);
    out.push(97);
    out.push(115);
    out.push(104);
    out.push(61);
}

fn push_lit_peer_id(out: &mut Vec<u8>)
    ensures
        final(out)@ =~= old(out)@ + spec_q_peer_id(),
{
    out.push(38);
    out.push(112);
    out.push(101);
    out.push(101);
    out.push(114);
    out.push(95);
    out.push(105);
    out.push(100);
    out.push(61);
}

fn push_lit_port(out: &mut Vec<u8>)
    ensures
        final(out)@ =~= old(out)@ + spec_q_port(),
{
    out.push(38);
    out.push(112);
    out.push(111);
    out.push(114);
    out.push(116);
    out.push(61);
}

fn push_lit_uploaded(out: &mut Vec<u8>)
    ensures
        final(out)@ =~= old(out)@ + spec_q_uploaded(),
{
    out.push(38);
    out.push(117);
    out.push(112);
    out.push(108);
    out.push(111);
    out.push(97);
    out.push(100);
    out.push(101);
    out.push(100);
    out.push(61);
}

fn push_lit_downloaded(out: &mut Vec<u8>)
    ensures
        final(out)@ =~= old(out)@ + spec_q_downloaded(),
{
    out.push(38);
    out.push(100);
    out.push(111);
    out.push(119);
    out.push(110);
    out.push(108);
    out.push(111);
    out.push(97);
    out.push(100);
    out.push(101);
    out.push(100);
    out.push(61);
}

fn push_lit_left(out: &mut Vec<u8>)
    ensures
        final(out)@ =~= old(out)@ + spec_q_left(),
{
    out.push(38);
    out.push(108);
    out.push(101);
    out.push(102);
    out.push(116);
    out.push(61);
}

fn push_lit_compact(out: &mut Vec<u8>)
    ensures
        final(out)@ =~= old(out)@ + spec_q_compact(),
{
    out.push(38);
    out.push(99);
    out.push(111);
    out.push(109);
    out.push(112);
    out.push(97);
    out.push(99);
    out.push(116);
    out.push(61);
    out.push(49);
}

} // verus!
