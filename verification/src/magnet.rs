//! Magnet references: the query-pair grammar, percent-decoding, and
//! the `xt=urn:btih:` infohash in its 40-hex or 32-base32 spelling,
//! both accepted.

use vstd::prelude::*;
use crate::TransferError;
use crate::util::sub_vec;

verus! {

/// A parsed magnet reference: the infohash, every tracker named, and
/// the optional display name. No piece metadata travels with it.
pub struct MagnetLink {
    pub infohash: Vec<u8>,
    pub trackers: Vec<Vec<u8>>,
    pub display_name: Option<Vec<u8>>,
}

/// The bytes of `magnet:?`.
pub open spec fn spec_magnet_prefix() -> Seq<u8> {
    seq![109u8, 97, 103, 110, 101, 116, 58, 63]
}

/// An ASCII byte folded to lower case.
pub open spec fn spec_lower(c: u8) -> u8 {
    if 65 <= c <= 90 {
        (c + 32) as u8
    } else {
        c
    }
}

/// The reference opens with the `magnet:?` scheme; the scheme's
/// letters match in either case.
pub open spec fn spec_magnet_scheme_ok(s: Seq<u8>) -> bool {
    &&& s.len() >= 8
    &&& forall|j: int| 0 <= j < 8 ==> spec_lower(#[trigger] s[j]) == spec_magnet_prefix()[j]
}

/// The bytes of `urn:btih:`.
pub open spec fn spec_btih_prefix() -> Seq<u8> {
    seq![117u8, 114, 110, 58, 98, 116, 105, 104, 58]
}

/// The bytes of the key `xt`.
pub open spec fn spec_key_xt() -> Seq<u8> {
    seq![120u8, 116]
}

/// The bytes of the key `tr`.
pub open spec fn spec_key_tr() -> Seq<u8> {
    seq![116u8, 114]
}

/// The bytes of the key `dn`.
pub open spec fn spec_key_dn() -> Seq<u8> {
    seq![100u8, 110]
}

/// The value of a hex digit, either case.
pub open spec fn spec_hex_val(c: u8) -> Option<u8> {
    if 48 <= c <= 57 {
        Some((c - 48) as u8)
    } else if 97 <= c <= 102 {
        Some((c - 87) as u8)
    } else if 65 <= c <= 70 {
        Some((c - 55) as u8)
    } else {
        None
    }
}

/// A percent-encoded text decoded: `%XX` becomes the byte `XX`, `+`
/// becomes a space, a malformed escape stays as it is.
pub open spec fn spec_pct_decode(s: Seq<u8>) -> Seq<u8>
    decreases s.len(),
{
    if s.len() == 0 {
        Seq::empty()
    } else if s[0] == 37 && s.len() >= 3 && spec_hex_val(s[1]) is Some && spec_hex_val(
        s[2],
    ) is Some {
        seq![(spec_hex_val(s[1]).unwrap() * 16 + spec_hex_val(s[2]).unwrap()) as u8]
            + spec_pct_decode(s.skip(3))
    } else if s[0] == 43 {
        seq![32u8] + spec_pct_decode(s.skip(1))
    } else {
        seq![s[0]] + spec_pct_decode(s.skip(1))
    }
}

/// Reads a hex digit.
fn hex_val(c: u8) -> (r: Option<u8>)
    ensures
        r == spec_hex_val(c),
{
    if 48 <= c && c <= 57 {
        Some(c - 48)
    } else if 97 <= c && c <= 102 {
        Some(c - 87)
    } else if 65 <= c && c <= 70 {
        Some(c - 55)
    } else {
        None
    }
}

/// Percent-decodes a query component.
fn pct_decode(s: &Vec<u8>, pos: usize) -> (r: Vec<u8>)
    requires
        pos <= s@.len(),
    ensures
        r@ == spec_pct_decode(s@.skip(pos as int)),
    decreases s@.len() - pos,
{
    if pos >= s.len() {
        let r: Vec<u8> = Vec::new();
        proof {
            assert(s@.skip(pos as int).len() == 0);
        }
        return r;
    }
    proof {
        assert(s@.skip(pos as int)[0] == s@[pos as int]);
        assert(s@.skip(pos as int).skip(1) =~= s@.skip(pos as int + 1));
        if pos as int + 3 <= s@.len() {
            assert(s@.skip(pos as int).skip(3) =~= s@.skip(pos as int + 3));
            assert(s@.skip(pos as int)[1] == s@[pos as int + 1]);
            assert(s@.skip(pos as int)[2] == s@[pos as int + 2]);
        }
    }
    let c = s[pos];
    if c == 37 && s.len() - pos >= 3 {
        let h = hex_val(s[pos + 1]);
        let l = hex_val(s[pos + 2]);
        match (h, l) {
            (Some(hv), Some(lv)) => {
                proof {
                    assert(hv < 16 && lv < 16);
                }
                let mut rest = pct_decode(s, pos + 3);
                rest.insert(0, hv * 16 + lv);
                proof {
                    assert(rest@ =~= spec_pct_decode(s@.skip(pos as int)));
                }
                return rest;
            },
            _ => {},
        }
    }
    let out_byte: u8 = if c == 43 {
        32
    } else {
        c
    };
    let mut rest = pct_decode(s, pos + 1);
    rest.insert(0, out_byte);
    proof {
        assert(rest@ =~= spec_pct_decode(s@.skip(pos as int)));
    }
    rest
}

/// The first position at or after `pos` holding `c`, or the end.
pub open spec fn spec_find(q: Seq<u8>, pos: int, c: u8) -> int
    decreases q.len() - pos,
{
    if 0 <= pos < q.len() {
        if q[pos] == c {
            pos
        } else {
            spec_find(q, pos + 1, c)
        }
    } else {
        q.len() as int
    }
}

/// Finds the next occurrence of `c` at or after `pos`.
fn find_byte(q: &Vec<u8>, pos: usize, c: u8) -> (r: usize)
    requires
        pos <= q@.len(),
    ensures
        r == spec_find(q@, pos as int, c),
        pos <= r <= q@.len(),
    decreases q@.len() - pos,
{
    if pos >= q.len() {
        return q.len();
    }
    if q[pos] == c {
        pos
    } else {
        find_byte(q, pos + 1, c)
    }
}

/// The decoded key-value pairs of the query from `pos` on: segments
/// split on `&`, each split at its first `=`, both sides
/// percent-decoded; a segment without `=` has an empty value.
pub open spec fn spec_qp(q: Seq<u8>, pos: int) -> Seq<(Seq<u8>, Seq<u8>)>
    decreases q.len() - pos,
{
    if !(0 <= pos < q.len()) {
        Seq::empty()
    } else {
        let amp = spec_find(q, pos, 38);
        let eqp = spec_find(q, pos, 61);
        let pair = if eqp < amp {
            (spec_pct_decode(q.subrange(pos, eqp)), spec_pct_decode(q.subrange(eqp + 1, amp)))
        } else {
            (spec_pct_decode(q.subrange(pos, amp)), Seq::<u8>::empty())
        };
        if amp < pos || amp >= q.len() {
            seq![pair]
        } else {
            seq![pair] + spec_qp(q, amp + 1)
        }
    }
}

/// The contents of a list of decoded pairs.
pub open spec fn qpviews(v: Vec<(Vec<u8>, Vec<u8>)>) -> Seq<(Seq<u8>, Seq<u8>)> {
    Seq::new(
        v@.len(),
        |i: int|
            if 0 <= i < v@.len() {
                (v@[i].0@, v@[i].1@)
            } else {
                (Seq::<u8>::empty(), Seq::<u8>::empty())
            },
    )
}

/// An entry of the pair list holds that pair's bytes.
pub broadcast proof fn lemma_qpviews_index(v: Vec<(Vec<u8>, Vec<u8>)>, i: int)
    requires
        0 <= i < v@.len(),
    ensures
        #[trigger] qpviews(v)[i] == (v@[i].0@, v@[i].1@),
{
}

/// Splits and decodes the query from `pos` on.
fn query_pairs(q: &Vec<u8>, pos: usize) -> (r: Vec<(Vec<u8>, Vec<u8>)>)
    requires
        pos <= q@.len(),
    ensures
        qpviews(r) == spec_qp(q@, pos as int),
    decreases q@.len() - pos,
{
    if pos >= q.len() {
        let r: Vec<(Vec<u8>, Vec<u8>)> = Vec::new();
        proof {
            assert(qpviews(r) =~= spec_qp(q@, pos as int));
        }
        return r;
    }
    let amp = find_byte(q, pos, 38);
    let eqp = find_byte(q, pos, 61);
    let pair: (Vec<u8>, Vec<u8>) = if eqp < amp {
        let k = sub_vec(q, pos, eqp);
        let kd = pct_decode(&k, 0);
        let v = sub_vec(q, eqp + 1, amp);
        let vd = pct_decode(&v, 0);
        proof {
            assert(k@.skip(0) =~= q@.subrange(pos as int, eqp as int));
            assert(v@.skip(0) =~= q@.subrange(eqp as int + 1, amp as int));
        }
        (kd, vd)
    } else {
        let k = sub_vec(q, pos, amp);
        let kd = pct_decode(&k, 0);
        proof {
            assert(k@.skip(0) =~= q@.subrange(pos as int, amp as int));
        }
        (kd, Vec::new())
    };
    if amp >= q.len() {
        let mut r: Vec<(Vec<u8>, Vec<u8>)> = Vec::new();
        r.push(pair);
        proof {
            assert(qpviews(r) =~= spec_qp(q@, pos as int));
        }
        r
    } else {
        let mut r = query_pairs(q, amp + 1);
        r.insert(0, pair);
        proof {
            assert(qpviews(r) =~= spec_qp(q@, pos as int));
        }
        r
    }
}

/// The value of the first pair carrying `key`.
pub open spec fn spec_first_value(pairs: Seq<(Seq<u8>, Seq<u8>)>, i: int, key: Seq<u8>) -> Option<
    Seq<u8>,
>
    decreases pairs.len() - i,
{
    if !(0 <= i < pairs.len()) {
        None
    } else if pairs[i].0 == key {
        Some(pairs[i].1)
    } else {
        spec_first_value(pairs, i + 1, key)
    }
}

/// The values of every pair carrying `key`, in order.
pub open spec fn spec_all_values(pairs: Seq<(Seq<u8>, Seq<u8>)>, i: int, key: Seq<u8>) -> Seq<
    Seq<u8>,
>
    decreases pairs.len() - i,
{
    if !(0 <= i < pairs.len()) {
        Seq::empty()
    } else if pairs[i].0 == key {
        seq![pairs[i].1] + spec_all_values(pairs, i + 1, key)
    } else {
        spec_all_values(pairs, i + 1, key)
    }
}

/// Finds the first value under `key`.
fn first_value<'a>(pairs: &'a Vec<(Vec<u8>, Vec<u8>)>, i: usize, key: &Vec<u8>) -> (r: Option<
    &'a Vec<u8>,
>)
    requires
        i <= pairs@.len(),
    ensures
        match r {
            Some(v) => spec_first_value(qpviews(*pairs), i as int, key@) == Some(v@),
            None => spec_first_value(qpviews(*pairs), i as int, key@) is None,
        },
    decreases pairs@.len() - i,
{
    if i >= pairs.len() {
        return None;
    }
    proof {
        assert(qpviews(*pairs)[i as int] == (pairs@[i as int].0@, pairs@[i as int].1@));
    }
    if crate::util::bytes_eq(&pairs[i].0, key) {
        Some(&pairs[i].1)
    } else {
        first_value(pairs, i + 1, key)
    }
}

/// The contents of a list of byte strings.
pub open spec fn vviews(v: Vec<Vec<u8>>) -> Seq<Seq<u8>> {
    Seq::new(v@.len(), |i: int| if 0 <= i < v@.len() { v@[i]@ } else { Seq::<u8>::empty() })
}

/// Collects every value under `key`, in order.
fn all_values(pairs: &Vec<(Vec<u8>, Vec<u8>)>, i: usize, key: &Vec<u8>) -> (r: Vec<Vec<u8>>)
    requires
        i <= pairs@.len(),
    ensures
        vviews(r) == spec_all_values(qpviews(*pairs), i as int, key@),
    decreases pairs@.len() - i,
{
    if i >= pairs.len() {
        let r: Vec<Vec<u8>> = Vec::new();
        proof {
            assert(vviews(r) =~= spec_all_values(qpviews(*pairs), i as int, key@));
        }
        return r;
    }
    proof {
        assert(qpviews(*pairs)[i as int] == (pairs@[i as int].0@, pairs@[i as int].1@));
    }
    if crate::util::bytes_eq(&pairs[i].0, key) {
        let mut r = all_values(pairs, i + 1, key);
        let v = sub_vec(&pairs[i].1, 0, pairs[i].1.len());
        proof {
            assert(v@ =~= pairs@[i as int].1@);
        }
        r.insert(0, v);
        proof {
            assert(vviews(r) =~= spec_all_values(qpviews(*pairs), i as int, key@));
        }
        r
    } else {
        let r = all_values(pairs, i + 1, key);
        r
    }
}

/// A pair of hex digits per byte, most significant first.
pub open spec fn spec_hex_decode(s: Seq<u8>) -> Option<Seq<u8>>
    decreases s.len(),
{
    if s.len() == 0 {
        Some(Seq::empty())
    } else if s.len() == 1 {
        None
    } else {
        match (spec_hex_val(s[0]), spec_hex_val(s[1])) {
            (Some(h), Some(l)) => match spec_hex_decode(s.skip(2)) {
                Some(rest) => Some(seq![(h * 16 + l) as u8] + rest),
                None => None,
            },
            _ => None,
        }
    }
}

/// Decodes a hex string, failing on an odd length or a stray
/// character.
fn hex_decode(s: &Vec<u8>, pos: usize) -> (r: Option<Vec<u8>>)
    requires
        pos <= s@.len(),
    ensures
        match r {
            Some(b) => spec_hex_decode(s@.skip(pos as int)) == Some(b@),
            None => spec_hex_decode(s@.skip(pos as int)) is None,
        },
    decreases s@.len() - pos,
{
    if pos >= s.len() {
        let r: Vec<u8> = Vec::new();
        proof {
            assert(s@.skip(pos as int).len() == 0);
            assert(spec_hex_decode(s@.skip(pos as int)) == Some(r@)) by {
                assert(r@ =~= Seq::<u8>::empty());
            };
        }
        return Some(r);
    }
    if pos + 1 >= s.len() {
        return None;
    }
    proof {
        assert(s@.skip(pos as int)[0] == s@[pos as int]);
        assert(s@.skip(pos as int)[1] == s@[pos as int + 1]);
        assert(s@.skip(pos as int).skip(2) =~= s@.skip(pos as int + 2));
    }
    let h = match hex_val(s[pos]) {
        Some(h) => h,
        None => {
            return None;
        },
    };
    let l = match hex_val(s[pos + 1]) {
        Some(l) => l,
        None => {
            return None;
        },
    };
    match hex_decode(s, pos + 2) {
        Some(mut rest) => {
            rest.insert(0, h * 16 + l);
            proof {
                assert(rest@ =~= seq![(h * 16 + l) as u8] + spec_hex_decode(
                    s@.skip(pos as int + 2)).unwrap());
            }
            Some(rest)
        },
        None => None,
    }
}

/// The value of a base32 character: letters of either case, then the
/// digits 2 through 7.
pub open spec fn spec_b32_val(c: u8) -> Option<u8> {
    if 65 <= c <= 90 {
        Some((c - 65) as u8)
    } else if 97 <= c <= 122 {
        Some((c - 97) as u8)
    } else if 50 <= c <= 55 {
        Some((c - 24) as u8)
    } else {
        None
    }
}

/// Eight base32 characters at `pos` packed into a 40-bit value, split
/// big-endian into five bytes.
#[verifier::opaque]
pub open spec fn spec_b32_group(s: Seq<u8>, pos: int) -> Option<Seq<u8>>
    recommends
        pos + 8 <= s.len(),
{
    if spec_b32_val(s[pos]) is Some && spec_b32_val(s[pos + 1]) is Some && spec_b32_val(
        s[pos + 2],
    ) is Some && spec_b32_val(s[pos + 3]) is Some && spec_b32_val(s[pos + 4]) is Some
        && spec_b32_val(s[pos + 5]) is Some && spec_b32_val(s[pos + 6]) is Some && spec_b32_val(
        s[pos + 7],
    ) is Some {
        let v = spec_b32_val(s[pos]).unwrap() * 0x800000000 + spec_b32_val(
            s[pos + 1],
        ).unwrap() * 0x40000000 + spec_b32_val(s[pos + 2]).unwrap() * 0x2000000 + spec_b32_val(
            s[pos + 3],
        ).unwrap() * 0x100000 + spec_b32_val(s[pos + 4]).unwrap() * 0x8000 + spec_b32_val(
            s[pos + 5],
        ).unwrap() * 0x400 + spec_b32_val(s[pos + 6]).unwrap() * 0x20 + spec_b32_val(
            s[pos + 7],
        ).unwrap();
        Some(
            seq![
                (v / 0x100000000) as u8,
                ((v / 0x1000000) % 0x100) as u8,
                ((v / 0x10000) % 0x100) as u8,
                ((v / 0x100) % 0x100) as u8,
                (v % 0x100) as u8,
            ],
        )
    } else {
        None
    }
}

/// A 32-character base32 text decoded to 20 bytes: four 8-character
/// groups of five bytes each.
#[verifier::opaque]
pub open spec fn spec_b32_decode32(s: Seq<u8>) -> Option<Seq<u8>>
    recommends
        s.len() == 32,
{
    match (spec_b32_group(s, 0), spec_b32_group(s, 8), spec_b32_group(s, 16), spec_b32_group(
        s,
        24,
    )) {
        (Some(g0), Some(g1), Some(g2), Some(g3)) => Some(g0 + g1 + g2 + g3),
        _ => None,
    }
}

/// Reads a base32 character.
fn b32_val(c: u8) -> (r: Option<u8>)
    ensures
        r == spec_b32_val(c),
{
    if 65 <= c && c <= 90 {
        Some(c - 65)
    } else if 97 <= c && c <= 122 {
        Some(c - 97)
    } else if 50 <= c && c <= 55 {
        Some(c - 24)
    } else {
        None
    }
}

/// Decodes one 8-character base32 group into `out`.
#[verifier::rlimit(50)]
fn b32_group(s: &Vec<u8>, pos: usize, out: &mut Vec<u8>) -> (r: bool)
    requires
        pos + 8 <= s@.len(),
    ensures
        if r {
            &&& spec_b32_group(s@, pos as int) is Some
            &&& spec_b32_group(s@, pos as int).unwrap().len() == 5
            &&& final(out)@ == old(out)@ + spec_b32_group(s@, pos as int).unwrap()
        } else {
            spec_b32_group(s@, pos as int) is None && final(out)@ == old(out)@
        },
{
    proof {
        reveal(spec_b32_group);
    }
    let n = s.len();
    let c0 = b32_val(s[pos]);
    let c1 = b32_val(s[pos + 1]);
    let c2 = b32_val(s[pos + 2]);
    let c3 = b32_val(s[pos + 3]);
    let c4 = b32_val(s[pos + 4]);
    let c5 = b32_val(s[pos + 5]);
    let c6 = b32_val(s[pos + 6]);
    let c7 = b32_val(s[pos + 7]);
    match (c0, c1, c2, c3, c4, c5, c6, c7) {
        (
            Some(v0),
            Some(v1),
            Some(v2),
            Some(v3),
            Some(v4),
            Some(v5),
            Some(v6),
            Some(v7),
        ) => {
            proof {
                assert(v0 < 32 && v1 < 32 && v2 < 32 && v3 < 32 && v4 < 32 && v5 < 32 && v6 < 32
                    && v7 < 32);
            }
            let v: u64 = (v0 as u64) * 0x800000000 + (v1 as u64) * 0x40000000 + (v2 as u64)
                * 0x2000000 + (v3 as u64) * 0x100000 + (v4 as u64) * 0x8000 + (v5 as u64) * 0x400
                + (v6 as u64) * 0x20 + (v7 as u64);
            proof {
                assert(v < 0x10000000000);
                assert(v / 0x100000000 < 0x100);
            }
            out.push((v / 0x100000000) as u8);
            out.push(((v / 0x1000000) % 0x100) as u8);
            out.push(((v / 0x10000) % 0x100) as u8);
            out.push(((v / 0x100) % 0x100) as u8);
            out.push((v % 0x100) as u8);
            proof {
                assert(out@ =~= old(out)@ + spec_b32_group(s@, pos as int).unwrap());
            }
            true
        },
        _ => false,
    }
}

/// Decodes a 32-character base32 text to 20 bytes.
fn b32_decode32(s: &Vec<u8>) -> (r: Option<Vec<u8>>)
    requires
        s@.len() == 32,
    ensures
        match r {
            Some(b) => spec_b32_decode32(s@) == Some(b@) && b@.len() == 20,
            None => spec_b32_decode32(s@) is None,
        },
{
    proof {
        reveal(spec_b32_decode32);
    }
    let mut out: Vec<u8> = Vec::new();
    if !b32_group(s, 0, &mut out) {
        return None;
    }
    if !b32_group(s, 8, &mut out) {
        return None;
    }
    if !b32_group(s, 16, &mut out) {
        return None;
    }
    if !b32_group(s, 24, &mut out) {
        return None;
    }
    proof {
        assert(out@ =~= spec_b32_decode32(s@).unwrap());
    }
    Some(out)
}

/// The infohash spelling in an `xt` value is sound: the `urn:btih:`
/// prefix, then either 40 hex characters or 32 base32 characters that
/// decode to 20 bytes.
pub open spec fn spec_btih_ok(xt: Seq<u8>) -> bool {
    &&& xt.len() >= 9
    &&& xt.subrange(0, 9) == spec_btih_prefix()
    &&& ({
        let tail = xt.skip(9);
        if tail.len() == 40 {
            spec_hex_decode(tail) is Some && spec_hex_decode(tail).unwrap().len() == 20
        } else if tail.len() == 32 {
            spec_b32_decode32(tail) is Some
        } else {
            false
        }
    })
}

/// The 20 infohash bytes an `xt` value spells.
pub open spec fn spec_btih_hash(xt: Seq<u8>) -> Seq<u8>
    recommends
        spec_btih_ok(xt),
{
    let tail = xt.skip(9);
    if tail.len() == 40 {
        spec_hex_decode(tail).unwrap()
    } else {
        spec_b32_decode32(tail).unwrap()
    }
}

/// A magnet reference the parser accepts: the `magnet:?` opening, and
/// a first `xt` parameter that spells an infohash.
pub open spec fn spec_magnet_ok(s: Seq<u8>) -> bool {
    &&& spec_magnet_scheme_ok(s)
    &&& (match spec_first_value(spec_qp(s, 8), 0, spec_key_xt()) {
        Some(xt) => spec_btih_ok(xt),
        None => false,
    })
}

/// `m` holds exactly what the reference says: the decoded infohash,
/// every `tr` tracker in order, and the first `dn` name if any.
pub open spec fn spec_magnet_rel(s: Seq<u8>, m: MagnetLink) -> bool {
    let pairs = spec_qp(s, 8);
    &&& (match spec_first_value(pairs, 0, spec_key_xt()) {
        Some(xt) => m.infohash@ == spec_btih_hash(xt) && m.infohash@.len() == 20,
        None => false,
    })
    &&& vviews(m.trackers) == spec_all_values(pairs, 0, spec_key_tr())
    &&& (match (spec_first_value(pairs, 0, spec_key_dn()), m.display_name) {
        (Some(d), Some(name)) => name@ == d,
        (None, None) => true,
        _ => false,
    })
}

/// Checks the `magnet:?` scheme, folding ASCII case.
pub fn has_magnet_scheme(s: &Vec<u8>) -> (r: bool)
    ensures
        r == spec_magnet_scheme_ok(s@),
{
    if s.len() < 8 {
        return false;
    }
    let p = magnet_prefix();
    let mut i: usize = 0;
    while i < 8
        invariant
            i <= 8,
            s@.len() >= 8,
            p@ == spec_magnet_prefix(),
            forall|j: int| 0 <= j < i ==> spec_lower(#[trigger] s@[j]) == spec_magnet_prefix()[j],
        decreases 8 - i,
    {
        let c = s[i];
        let low: u8 = if 65 <= c && c <= 90 {
            c + 32
        } else {
            c
        };
        if low != p[i] {
            proof {
                assert(spec_lower(s@[i as int]) != spec_magnet_prefix()[i as int]);
            }
            return false;
        }
        i = i + 1;
    }
    true
}

fn magnet_prefix() -> (r: Vec<u8>)
    ensures
        r@ == spec_magnet_prefix(),
{
    let mut v: Vec<u8> = Vec::new();
    v.push(109);
    v.push(97);
    v.push(103);
    v.push(110);
    v.push(101);
    v.push(116);
    v.push(58);
    v.push(63);
    proof {
        assert(v@ =~= spec_magnet_prefix());
    }
    v
}

fn btih_prefix() -> (r: Vec<u8>)
    ensures
        r@ == spec_btih_prefix(),
{
    let mut v: Vec<u8> = Vec::new();
    v.push(117);
    v.push(114);
    v.push(110);
    v.push(58);
    v.push(98);
    v.push(116);
    v.push(105);
    v.push(104);
    v.push(58);
    proof {
        assert(v@ =~= spec_btih_prefix());
    }
    v
}

fn key_xt() -> (r: Vec<u8>)
    ensures
        r@ == spec_key_xt(),
{
    let mut v: Vec<u8> = Vec::new();
    v.push(120);
    v.push(116);
    proof {
        assert(v@ =~= spec_key_xt());
    }
    v
}

fn key_tr() -> (r: Vec<u8>)
    ensures
        r@ == spec_key_tr(),
{
    let mut v: Vec<u8> = Vec::new();
    v.push(116);
    v.push(114);
    proof {
        assert(v@ =~= spec_key_tr());
    }
    v
}

fn key_dn() -> (r: Vec<u8>)
    ensures
        r@ == spec_key_dn(),
{
    let mut v: Vec<u8> = Vec::new();
    v.push(100);
    v.push(110);
    proof {
        assert(v@ =~= spec_key_dn());
    }
    v
}

/// Decodes the infohash an `xt` value spells, in either accepted
/// spelling.
fn decode_btih(xt: &Vec<u8>) -> (r: Result<Vec<u8>, TransferError>)
    ensures
        match r {
            Ok(b) => spec_btih_ok(xt@) && b@ == spec_btih_hash(xt@) && b@.len() == 20,
            Err(e) => e == TransferError::DecodeError && !spec_btih_ok(xt@),
        },
{
    if !crate::util::has_prefix(xt, &btih_prefix()) {
        return Err(TransferError::DecodeError);
    }
    let tail = sub_vec(xt, 9, xt.len());
    proof {
        assert(tail@ =~= xt@.skip(9));
    }
    if tail.len() == 40 {
        proof {
            assert(tail@.skip(0) =~= tail@);
        }
        match hex_decode(&tail, 0) {
            Some(b) => {
                if b.len() != 20 {
                    return Err(TransferError::DecodeError);
                }
                Ok(b)
            },
            None => Err(TransferError::DecodeError),
        }
    } else if tail.len() == 32 {
        match b32_decode32(&tail) {
            Some(b) => Ok(b),
            None => Err(TransferError::DecodeError),
        }
    } else {
        Err(TransferError::DecodeError)
    }
}

/// Parses a magnet reference: the scheme in either case, the first
/// `xt` parameter with its hex or base32 infohash (both accepted),
/// every `tr` tracker, and the first `dn` display name.
pub fn parse_magnet_link(link: &Vec<u8>) -> (r: Result<MagnetLink, TransferError>)
    ensures
        match r {
            Ok(m) => spec_magnet_ok(link@) && spec_magnet_rel(link@, m),
            Err(e) => e == TransferError::DecodeError && !spec_magnet_ok(link@),
        },
{
    if !has_magnet_scheme(link) {
        return Err(TransferError::DecodeError);
    }
    let pairs = query_pairs(link, 8);
    let xt = match first_value(&pairs, 0, &key_xt()) {
        Some(x) => x,
        None => {
            return Err(TransferError::DecodeError);
        },
    };
    let infohash: Vec<u8> = match decode_btih(xt) {
        Ok(b) => b,
        Err(e) => {
            return Err(e);
        },
    };
    let trackers = all_values(&pairs, 0, &key_tr());
    let display_name: Option<Vec<u8>> = match first_value(&pairs, 0, &key_dn()) {
        Some(d) => {
            let c = sub_vec(d, 0, d.len());
            proof {
                assert(c@ =~= d@);
            }
            Some(c)
        },
        None => None,
    };
    Ok(MagnetLink { infohash, trackers, display_name })
}

} // verus!
