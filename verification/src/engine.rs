//! Engine decisions: the session identity, how a download target is
//! classified, which tracker protocol an announce URL names, the
//! canonical `left` counter, and the piece plan a metainfo record
//! gives. The caller runs the sockets; everything decided here is
//! decided from plain values.

use vstd::prelude::*;
use crate::TransferError;
use crate::metainfo::TorrentInfo;
use crate::store::PieceSpec;
use crate::util::{has_prefix, sub_vec};

verus! {

/// Relies on rand::random: a value drawn from the thread-local
/// generator. Nothing is promised of it.
pub assume_specification<T>[ rand::random::<T> ]() -> (r: T)
    where
        rand::distr::StandardUniform: rand::distr::Distribution<T>,
;

/// How many requests one connection keeps in flight: a small fixed
/// window that keeps the pipeline full without unbounded growth.
pub const PIPELINE_WINDOW: usize = 5;

/// The fixed client tag that opens every peer id.
pub open spec fn spec_peer_tag() -> Seq<u8> {
    seq![45u8, 82, 83, 48, 48, 48, 49, 45]
}

/// Draws a fresh transaction id.
pub fn fresh_txn_id() -> u32 {
    rand::random::<u32>()
}

/// Generates the session's peer id, once per session: the fixed
/// 8-byte client tag, then 12 random bytes.
pub fn generate_peer_id() -> (r: Vec<u8>)
    ensures
        r@.len() == 20,
        r@.subrange(0, 8) == spec_peer_tag(),
{
    let mut r: Vec<u8> = Vec::new();
    r.push(45);
    r.push(82);
    r.push(83);
    r.push(48);
    r.push(48);
    r.push(48);
    r.push(49);
    r.push(45);
    let mut i: usize = 0;
    while i < 12
        invariant
            i <= 12,
            r@.len() == 8 + i,
            r@.subrange(0, 8) =~= spec_peer_tag(),
        decreases 12 - i,
    {
        r.push(rand::random::<u8>());
        proof {
            assert(r@.subrange(0, 8) =~= spec_peer_tag());
        }
        i = i + 1;
    }
    r
}

/// Whether the target is a magnet reference rather than a metainfo
/// file path; the scheme matches in either case.
pub fn is_magnet_target(target: &Vec<u8>) -> (r: bool)
    ensures
        r == crate::magnet::spec_magnet_scheme_ok(target@),
{
    crate::magnet::has_magnet_scheme(target)
}

/// The wire protocol an announce URL names.
#[derive(Clone, Copy, PartialEq, Eq, Structural, Debug)]
pub enum TrackerKind {
    Http,
    Udp,
    Unsupported,
}

/// The bytes of `http`.
pub open spec fn spec_http_prefix() -> Seq<u8> {
    seq![104u8, 116, 116, 112]
}

/// The bytes of `udp`.
pub open spec fn spec_udp_prefix() -> Seq<u8> {
    seq![117u8, 100, 112]
}

/// Classifies an announce URL by its scheme prefix.
pub fn tracker_kind(url: &Vec<u8>) -> (r: TrackerKind)
    ensures
        r == TrackerKind::Http <==> (url@.len() >= 4 && url@.subrange(0, 4)
            == spec_http_prefix()),
        r == TrackerKind::Udp <==> (!(url@.len() >= 4 && url@.subrange(0, 4)
            == spec_http_prefix()) && url@.len() >= 3 && url@.subrange(0, 3)
            == spec_udp_prefix()),
{
    let mut hp: Vec<u8> = Vec::new();
    hp.push(104);
    hp.push(116);
    hp.push(116);
    hp.push(112);
    proof {
        assert(hp@ =~= spec_http_prefix());
    }
    if has_prefix(url, &hp) {
        return TrackerKind::Http;
    }
    let mut up: Vec<u8> = Vec::new();
    up.push(117);
    up.push(100);
    up.push(112);
    proof {
        assert(up@ =~= spec_udp_prefix());
    }
    if has_prefix(url, &up) {
        return TrackerKind::Udp;
    }
    TrackerKind::Unsupported
}

/// The bytes still owed to the tracker's `left` parameter: the total
/// content length minus what has verified, never a constant.
pub fn bytes_left(total: u64, verified: u64) -> (r: u64)
    requires
        verified <= total,
    ensures
        r == total - verified,
{
    total - verified
}

/// The exact length of piece `i`: the nominal piece length, except
/// that the last piece carries only what remains.
pub open spec fn spec_piece_len(total: int, pl: int, i: int) -> int {
    if (i + 1) * pl <= total {
        pl
    } else {
        total - i * pl
    }
}

/// A metainfo record whose piece plan is consistent: digests split
/// evenly, the piece length is positive, and the digest count is
/// exactly the pieces the total length fills.
pub open spec fn spec_plan_ok(info: TorrentInfo, total: int) -> bool {
    &&& info.pieces@.len() % 20 == 0
    &&& 1 <= info.piece_length <= 0xffffffff
    &&& info.pieces@.len() / 20 <= 0xffffffff
    &&& info.pieces@.len() / 20 == (total + info.piece_length - 1) / (info.piece_length as int)
}

/// Builds the piece plan: one spec per digest, indexed in order, each
/// piece of its exact length. Succeeds exactly on consistent records.
pub fn plan_pieces(info: &TorrentInfo, total: u64) -> (r: Result<Vec<PieceSpec>, TransferError>)
    ensures
        match r {
            Ok(specs) => {
                &&& spec_plan_ok(*info, total as int)
                &&& specs@.len() == info.pieces@.len() / 20
                &&& forall|i: int| 0 <= i < specs@.len() ==> {
                    &&& (#[trigger] specs@[i]).index == i
                    &&& specs@[i].hash@ == info.pieces@.subrange(20 * i, 20 * i + 20)
                    &&& specs@[i].length == spec_piece_len(
                        total as int, info.piece_length as int, i)
                    &&& specs@[i].length >= 1
                }
            },
            Err(e) => {
                &&& e == TransferError::DecodeError
                &&& !spec_plan_ok(*info, total as int)
            },
        },
{
    let hashes = match info.piece_hashes() {
        Ok(hs) => hs,
        Err(e) => {
            return Err(e);
        },
    };
    let pl = info.piece_length;
    if pl == 0 || pl > 0xffffffff {
        return Err(TransferError::DecodeError);
    }
    let n = hashes.len();
    if n as u64 > 0xffffffff {
        return Err(TransferError::DecodeError);
    }
    let expected: u128 = ((total as u128) + (pl as u128) - 1) / (pl as u128);
    if (n as u128) != expected {
        return Err(TransferError::DecodeError);
    }
    proof {
        lemma_plan_bounds(total as int, pl as int, n as int);
    }
    let mut specs: Vec<PieceSpec> = Vec::new();
    let mut i: usize = 0;
    while i < n
        invariant
            i <= n,
            n == hashes@.len(),
            n == info.pieces@.len() / 20,
            n <= 0xffffffff,
            pl == info.piece_length,
            1 <= pl <= 0xffffffff,
            n == (total as int + pl - 1) / (pl as int),
            forall|j: int| 0 <= j < n ==> (#[trigger] hashes@[j])@ == info.pieces@.subrange(
                20 * j, 20 * j + 20),
            forall|j: int| 0 <= j < n ==> j * (pl as int) < total as int + pl
                && (#[trigger] hashes@[j])@.len() == 20,
            n as int * (pl as int) >= total as int,
            specs@.len() == i,
            forall|j: int| 0 <= j < i ==> {
                &&& (#[trigger] specs@[j]).index == j
                &&& specs@[j].hash@ == info.pieces@.subrange(20 * j, 20 * j + 20)
                &&& specs@[j].length == spec_piece_len(total as int, pl as int, j)
                &&& specs@[j].length >= 1
            },
        decreases n - i,
    {
        proof {
            lemma_piece_len_bounds(total as int, pl as int, i as int, n as int);
        }
        let begin: u64 = (i as u64) * pl;
        let rem: u64 = total - begin;
        let length: u64 = if rem >= pl {
            pl
        } else {
            rem
        };
        let hash = sub_vec(&hashes[i], 0, hashes[i].len());
        proof {
            assert(hash@ =~= hashes@[i as int]@);
        }
        specs.push(PieceSpec { index: i as u32, length: length as u32, hash });
        i = i + 1;
    }
    Ok(specs)
}

/// For a consistent plan of `n` pieces, every piece starts inside the
/// content.
proof fn lemma_plan_bounds(total: int, pl: int, n: int)
    requires
        pl >= 1,
        total >= 0,
        n == (total + pl - 1) / pl,
    ensures
        n * pl >= total,
        forall|j: int| 0 <= j < n ==> #[trigger] (j * pl) < total + pl,
{
    vstd::arithmetic::div_mod::lemma_fundamental_div_mod(total + pl - 1, pl);
    vstd::arithmetic::mul::lemma_mul_is_commutative(n, pl);
    assert forall|j: int| 0 <= j < n implies #[trigger] (j * pl) < total + pl by {
        vstd::arithmetic::mul::lemma_mul_inequality(j + 1, n, pl);
        assert((j + 1) * pl == j * pl + pl) by {
            vstd::arithmetic::mul::lemma_mul_is_distributive_add_other_way(pl, j, 1);
        };
        assert(n * pl <= total + pl - 1);
    }
}

/// Piece `i` of a consistent plan begins before the end of the
/// content, fits a 32-bit length, and is never empty.
proof fn lemma_piece_len_bounds(total: int, pl: int, i: int, n: int)
    requires
        pl >= 1,
        total >= 0,
        0 <= i < n,
        n == (total + pl - 1) / pl,
        n * pl >= total,
    ensures
        i * pl < total,
        spec_piece_len(total, pl, i) == if total - i * pl >= pl { pl } else { total - i * pl },
        spec_piece_len(total, pl, i) >= 1,
{
    vstd::arithmetic::div_mod::lemma_fundamental_div_mod(total + pl - 1, pl);
    vstd::arithmetic::mul::lemma_mul_is_commutative(n, pl);
    assert((i + 1) * pl == i * pl + pl) by {
        vstd::arithmetic::mul::lemma_mul_is_distributive_add_other_way(pl, i, 1);
    };
    if i + 1 < n {
        vstd::arithmetic::mul::lemma_mul_inequality(i + 2, n, pl);
        assert((i + 2) * pl == i * pl + pl + pl) by {
            vstd::arithmetic::mul::lemma_mul_is_distributive_add_other_way(pl, i + 2 - 1, 1);
            vstd::arithmetic::mul::lemma_mul_is_distributive_add_other_way(pl, i, 1);
        };
        assert(n * pl <= total + pl - 1);
    } else {
        assert(i + 1 == n);
        assert((i + 1) * pl == n * pl);
    }
    assert(i * pl < total) by {
        assert(i * pl + pl <= n * pl) by {
            vstd::arithmetic::mul::lemma_mul_inequality(i + 1, n, pl);
        };
        assert(n * pl <= total + pl - 1);
    };
}

} // verus!
