//! A bencode decoder: the torrent ecosystem's serialization of
//! integers, byte strings, lists and dictionaries. The grammar is
//! defined once as a specification-level parser; the executable
//! decoder returns exactly what that parser says, and fails exactly
//! where it fails.

use vstd::prelude::*;
use crate::TransferError;
use crate::util::sub_vec;

verus! {

/// A decoded bencode value.
pub enum BValue {
    Int(i64),
    Bytes(Vec<u8>),
    List(Vec<BValue>),
    Dict(Vec<(Vec<u8>, BValue)>),
}

/// The mathematical shape of a bencode value.
pub enum BSpec {
    Int(int),
    Bytes(Seq<u8>),
    List(Seq<BSpec>),
    Dict(Seq<(Seq<u8>, BSpec)>),
}

/// The shape of a decoded value.
pub open spec fn bview(v: BValue) -> BSpec
    decreases v, 1int,
{
    match v {
        BValue::Int(x) => BSpec::Int(x as int),
        BValue::Bytes(b) => BSpec::Bytes(b@),
        BValue::List(items) => BSpec::List(bviews(items)),
        BValue::Dict(pairs) => BSpec::Dict(bpviews(pairs)),
    }
}

/// The shapes of the elements of a decoded list.
pub open spec fn bviews(items: Vec<BValue>) -> Seq<BSpec>
    decreases items, 0int,
{
    Seq::new(
        items@.len(),
        |i: int| if 0 <= i < items@.len() { bview(items@[i]) } else { BSpec::Int(0) },
    )
}

/// The shapes of the entries of a decoded dictionary.
pub open spec fn bpviews(pairs: Vec<(Vec<u8>, BValue)>) -> Seq<(Seq<u8>, BSpec)>
    decreases pairs, 0int,
{
    Seq::new(
        pairs@.len(),
        |i: int|
            if 0 <= i < pairs@.len() {
                (pairs@[i].0@, bview(pairs@[i].1))
            } else {
                (Seq::<u8>::empty(), BSpec::Int(0))
            },
    )
}

/// The shape of a list element is the element's shape.
pub broadcast proof fn lemma_bviews_index(items: Vec<BValue>, j: int)
    requires
        0 <= j < items@.len(),
    ensures
        #[trigger] bviews(items)[j] == bview(items@[j]),
{
}

/// Whether `c` is an ASCII digit.
pub open spec fn spec_is_digit(c: u8) -> bool {
    48 <= c <= 57
}

/// The first position at or after `pos` that does not hold a digit.
pub open spec fn spec_scan_digits(s: Seq<u8>, pos: int) -> int
    decreases s.len() - pos,
{
    if 0 <= pos < s.len() && spec_is_digit(s[pos]) {
        spec_scan_digits(s, pos + 1)
    } else {
        pos
    }
}

/// The decimal value of the digits `s[pos..end]`.
pub open spec fn spec_digits_val(s: Seq<u8>, pos: int, end: int) -> int
    decreases end - pos,
{
    if pos >= end {
        0
    } else {
        spec_digits_val(s, pos, end - 1) * 10 + (s[end - 1] - 48)
    }
}

/// Digits have a non-negative value.
proof fn lemma_digits_val_nonneg(s: Seq<u8>, pos: int, end: int)
    requires
        forall|j: int| pos <= j < end ==> spec_is_digit(#[trigger] s[j]),
    ensures
        spec_digits_val(s, pos, end) >= 0,
    decreases end - pos,
{
    if pos < end {
        lemma_digits_val_nonneg(s, pos, end - 1);
    }
}

/// An integer body after its opening `i`: an optional minus sign,
/// digits, and a closing `e`. Values outside the signed 64-bit range
/// are refused.
pub open spec fn spec_parse_int(s: Seq<u8>, pos: int) -> Option<(int, int)> {
    let neg = 0 <= pos < s.len() && s[pos] == 45;
    let dstart = if neg { pos + 1 } else { pos };
    let dend = spec_scan_digits(s, dstart);
    if dend == dstart {
        None
    } else if !(dend < s.len() && s[dend] == 101) {
        None
    } else {
        let mag = spec_digits_val(s, dstart, dend);
        if mag > 0x7fff_ffff_ffff_ffff {
            None
        } else {
            Some(((if neg { -mag } else { mag }), dend + 1))
        }
    }
}

/// A byte string at `pos`: its decimal length, a colon, and that many
/// bytes.
pub open spec fn spec_parse_bytes(s: Seq<u8>, pos: int) -> Option<(Seq<u8>, int)> {
    let dend = spec_scan_digits(s, pos);
    if dend == pos {
        None
    } else if !(dend < s.len() && s[dend] == 58) {
        None
    } else {
        let n = spec_digits_val(s, pos, dend);
        if dend + 1 + n > s.len() {
            None
        } else {
            Some((s.subrange(dend + 1, dend + 1 + n), dend + 1 + n))
        }
    }
}

/// A value at `pos`: an integer, a byte string, a list, or a
/// dictionary, nested at most `fuel` deep.
pub open spec fn spec_parse_value(s: Seq<u8>, pos: int, fuel: nat) -> Option<(BSpec, int)>
    decreases fuel, s.len() - pos,
{
    if fuel == 0 || !(0 <= pos < s.len()) {
        None
    } else {
        let c = s[pos];
        if c == 105 {
            match spec_parse_int(s, pos + 1) {
                Some((v, end)) => Some((BSpec::Int(v), end)),
                None => None,
            }
        } else if spec_is_digit(c) {
            match spec_parse_bytes(s, pos) {
                Some((b, end)) => Some((BSpec::Bytes(b), end)),
                None => None,
            }
        } else if c == 108 {
            match spec_parse_items(s, pos + 1, (fuel - 1) as nat) {
                Some((items, end)) => Some((BSpec::List(items), end)),
                None => None,
            }
        } else if c == 100 {
            match spec_parse_pairs(s, pos + 1, (fuel - 1) as nat) {
                Some((pairs, end)) => Some((BSpec::Dict(pairs), end)),
                None => None,
            }
        } else {
            None
        }
    }
}

/// List elements from `pos` up to the closing `e`.
pub open spec fn spec_parse_items(s: Seq<u8>, pos: int, fuel: nat) -> Option<(Seq<BSpec>, int)>
    decreases fuel, s.len() - pos,
{
    if !(0 <= pos < s.len()) {
        None
    } else if s[pos] == 101 {
        Some((Seq::empty(), pos + 1))
    } else if fuel == 0 {
        None
    } else {
        match spec_parse_value(s, pos, (fuel - 1) as nat) {
            Some((v, end)) => if end <= pos || end > s.len() {
                None
            } else {
                match spec_parse_items(s, end, fuel) {
                    Some((rest, rend)) => Some((seq![v] + rest, rend)),
                    None => None,
                }
            },
            None => None,
        }
    }
}

/// Dictionary entries from `pos` up to the closing `e`: byte-string
/// keys, each followed by its value.
pub open spec fn spec_parse_pairs(s: Seq<u8>, pos: int, fuel: nat) -> Option<
    (Seq<(Seq<u8>, BSpec)>, int),
>
    decreases fuel, s.len() - pos,
{
    if !(0 <= pos < s.len()) {
        None
    } else if s[pos] == 101 {
        Some((Seq::empty(), pos + 1))
    } else if fuel == 0 {
        None
    } else {
        match spec_parse_bytes(s, pos) {
            Some((k, kend)) => if kend <= pos || kend > s.len() {
                None
            } else {
                match spec_parse_value(s, kend, (fuel - 1) as nat) {
                    Some((v, vend)) => if vend <= kend || vend > s.len() {
                        None
                    } else {
                        match spec_parse_pairs(s, vend, fuel) {
                            Some((rest, rend)) => Some((seq![(k, v)] + rest, rend)),
                            None => None,
                        }
                    },
                    None => None,
                }
            },
            None => None,
        }
    }
}

/// Finds the end of the run of digits starting at `pos`.
pub(crate) fn scan_digits(s: &Vec<u8>, pos: usize) -> (end: usize)
    requires
        pos <= s@.len(),
    ensures
        end == spec_scan_digits(s@, pos as int),
        pos <= end <= s@.len(),
        forall|j: int| pos <= j < end ==> spec_is_digit(#[trigger] s@[j]),
        end < s@.len() ==> !spec_is_digit(s@[end as int]),
    decreases s@.len() - pos,
{
    if pos < s.len() {
        let c = s[pos];
        if 48 <= c && c <= 57 {
            return scan_digits(s, pos + 1);
        }
    }
    pos
}

/// Reads the value of the digits `s[pos..end]`, capped: a second
/// result of `true` means the value exceeds `cap`.
pub(crate) fn digits_val_capped(s: &Vec<u8>, pos: usize, end: usize, cap: u64) -> (r: (u64, bool))
    requires
        pos <= end <= s@.len(),
        forall|j: int| pos <= j < end ==> spec_is_digit(#[trigger] s@[j]),
    ensures
        !r.1 ==> r.0 == spec_digits_val(s@, pos as int, end as int) && r.0 <= cap,
        r.1 ==> spec_digits_val(s@, pos as int, end as int) > cap,
{
    let mut acc: u64 = 0;
    let mut sat: bool = false;
    let mut i: usize = pos;
    while i < end
        invariant
            pos <= i <= end <= s@.len(),
            forall|j: int| pos <= j < end ==> spec_is_digit(#[trigger] s@[j]),
            !sat ==> acc == spec_digits_val(s@, pos as int, i as int) && acc <= cap,
            sat ==> spec_digits_val(s@, pos as int, i as int) > cap,
        decreases end - i,
    {
        let d: u8 = s[i] - 48;
        proof {
            lemma_digits_val_nonneg(s@, pos as int, i as int);
        }
        if !sat {
            let d64 = d as u64;
            if d64 <= cap && acc <= (cap - d64) / 10 {
                proof {
                    assert((cap - d64) / 10 * 10 + (cap - d64) % 10 == cap - d64) by {
                        vstd::arithmetic::div_mod::lemma_fundamental_div_mod(
                            cap as int - d64 as int, 10);
                    };
                }
                acc = acc * 10 + d64;
            } else {
                proof {
                    if d64 <= cap {
                        assert((cap - d64) / 10 * 10 + (cap - d64) % 10 == cap - d64) by {
                            vstd::arithmetic::div_mod::lemma_fundamental_div_mod(
                                cap as int - d64 as int, 10);
                        };
                    }
                }
                sat = true;
            }
        } else {
            proof {
                assert(spec_digits_val(s@, pos as int, i as int + 1)
                    == spec_digits_val(s@, pos as int, i as int) * 10 + (s@[i as int] - 48));
                assert(spec_digits_val(s@, pos as int, i as int) * 10 > cap * 10);
                assert(cap * 10 >= cap);
            }
        }
        i = i + 1;
    }
    (acc, sat)
}

/// Decodes an integer body after its opening `i`.
fn parse_int(s: &Vec<u8>, pos: usize) -> (r: Result<(i64, usize), TransferError>)
    requires
        pos <= s@.len(),
    ensures
        match r {
            Ok((v, end)) => spec_parse_int(s@, pos as int) == Some((v as int, end as int))
                && pos < end <= s@.len(),
            Err(e) => e == TransferError::DecodeError && spec_parse_int(s@, pos as int) is None,
        },
{
    let neg = pos < s.len() && s[pos] == 45;
    let dstart = if neg {
        pos + 1
    } else {
        pos
    };
    let dend = scan_digits(s, dstart);
    if dend == dstart {
        return Err(TransferError::DecodeError);
    }
    if dend >= s.len() || s[dend] != 101 {
        return Err(TransferError::DecodeError);
    }
    let (mag, sat) = digits_val_capped(s, dstart, dend, 0x7fff_ffff_ffff_ffff);
    if sat {
        return Err(TransferError::DecodeError);
    }
    let v: i64 = if neg {
        -(mag as i64)
    } else {
        mag as i64
    };
    Ok((v, dend + 1))
}

/// Decodes a byte string at `pos`.
fn parse_bytes(s: &Vec<u8>, pos: usize) -> (r: Result<(Vec<u8>, usize), TransferError>)
    requires
        pos <= s@.len(),
    ensures
        match r {
            Ok((b, end)) => spec_parse_bytes(s@, pos as int) == Some((b@, end as int))
                && pos < end <= s@.len(),
            Err(e) => e == TransferError::DecodeError && spec_parse_bytes(s@, pos as int) is None,
        },
{
    let dend = scan_digits(s, pos);
    if dend == pos {
        return Err(TransferError::DecodeError);
    }
    if dend >= s.len() || s[dend] != 58 {
        return Err(TransferError::DecodeError);
    }
    let remaining: u64 = (s.len() - dend - 1) as u64;
    let (n64, sat) = digits_val_capped(s, pos, dend, remaining);
    if sat {
        return Err(TransferError::DecodeError);
    }
    let n = n64 as usize;
    let b = sub_vec(s, dend + 1, dend + 1 + n);
    Ok((b, dend + 1 + n))
}

/// Decodes the value at `pos`, nested at most `fuel` deep: exactly the
/// value the grammar gives there, and a failure exactly where the
/// grammar matches nothing.
pub fn parse_value(s: &Vec<u8>, pos: usize, fuel: u32) -> (r: Result<
    (BValue, usize),
    TransferError,
>)
    requires
        pos <= s@.len(),
    ensures
        match r {
            Ok((v, end)) => spec_parse_value(s@, pos as int, fuel as nat) == Some(
                (bview(v), end as int),
            ) && pos < end <= s@.len(),
            Err(e) => e == TransferError::DecodeError && spec_parse_value(
                s@, pos as int, fuel as nat) is None,
        },
    decreases fuel, s@.len() - pos,
{
    if fuel == 0 || pos >= s.len() {
        return Err(TransferError::DecodeError);
    }
    let c = s[pos];
    if c == 105 {
        match parse_int(s, pos + 1) {
            Ok((v, end)) => Ok((BValue::Int(v), end)),
            Err(e) => Err(e),
        }
    } else if 48 <= c && c <= 57 {
        match parse_bytes(s, pos) {
            Ok((b, end)) => Ok((BValue::Bytes(b), end)),
            Err(e) => Err(e),
        }
    } else if c == 108 {
        match parse_items(s, pos + 1, fuel - 1) {
            Ok((items, end)) => Ok((BValue::List(items), end)),
            Err(e) => Err(e),
        }
    } else if c == 100 {
        match parse_pairs(s, pos + 1, fuel - 1) {
            Ok((pairs, end)) => Ok((BValue::Dict(pairs), end)),
            Err(e) => Err(e),
        }
    } else {
        Err(TransferError::DecodeError)
    }
}

/// Decodes list elements up to the closing `e`.
fn parse_items(s: &Vec<u8>, pos: usize, fuel: u32) -> (r: Result<
    (Vec<BValue>, usize),
    TransferError,
>)
    requires
        pos <= s@.len(),
    ensures
        match r {
            Ok((items, end)) => spec_parse_items(s@, pos as int, fuel as nat) == Some(
                (bviews(items), end as int),
            ) && pos < end <= s@.len(),
            Err(e) => e == TransferError::DecodeError && spec_parse_items(
                s@, pos as int, fuel as nat) is None,
        },
    decreases fuel, s@.len() - pos,
{
    if pos >= s.len() {
        return Err(TransferError::DecodeError);
    }
    if s[pos] == 101 {
        let items: Vec<BValue> = Vec::new();
        proof {
            assert(bviews(items) =~= Seq::<BSpec>::empty());
        }
        return Ok((items, pos + 1));
    }
    if fuel == 0 {
        return Err(TransferError::DecodeError);
    }
    match parse_value(s, pos, fuel - 1) {
        Ok((v, end)) => {
            match parse_items(s, end, fuel) {
                Ok((rest, rend)) => {
                    let mut items = rest;
                    items.insert(0, v);
                    proof {
                        assert(bviews(items) =~= seq![bview(v)] + spec_parse_items(
                            s@, end as int, fuel as nat).unwrap().0);
                    }
                    Ok((items, rend))
                },
                Err(e) => Err(e),
            }
        },
        Err(e) => Err(e),
    }
}

/// Decodes dictionary entries up to the closing `e`.
fn parse_pairs(s: &Vec<u8>, pos: usize, fuel: u32) -> (r: Result<
    (Vec<(Vec<u8>, BValue)>, usize),
    TransferError,
>)
    requires
        pos <= s@.len(),
    ensures
        match r {
            Ok((pairs, end)) => spec_parse_pairs(s@, pos as int, fuel as nat) == Some(
                (bpviews(pairs), end as int),
            ) && pos < end <= s@.len(),
            Err(e) => e == TransferError::DecodeError && spec_parse_pairs(
                s@, pos as int, fuel as nat) is None,
        },
    decreases fuel, s@.len() - pos,
{
    if pos >= s.len() {
        return Err(TransferError::DecodeError);
    }
    if s[pos] == 101 {
        let pairs: Vec<(Vec<u8>, BValue)> = Vec::new();
        proof {
            assert(bpviews(pairs) =~= Seq::<(Seq<u8>, BSpec)>::empty());
        }
        return Ok((pairs, pos + 1));
    }
    if fuel == 0 {
        return Err(TransferError::DecodeError);
    }
    match parse_bytes(s, pos) {
        Ok((k, kend)) => {
            match parse_value(s, kend, fuel - 1) {
                Ok((v, vend)) => {
                    match parse_pairs(s, vend, fuel) {
                        Ok((rest, rend)) => {
                            let ghost kview = k@;
                            let mut pairs = rest;
                            pairs.insert(0, (k, v));
                            proof {
                                assert(bpviews(pairs) =~= seq![(kview, bview(pairs@[0].1))]
                                    + spec_parse_pairs(s@, vend as int, fuel as nat).unwrap().0);
                            }
                            Ok((pairs, rend))
                        },
                        Err(e) => Err(e),
                    }
                },
                Err(e) => Err(e),
            }
        },
        Err(e) => Err(e),
    }
}

/// The nesting depth the decoder accepts; torrent metadata and tracker
/// responses nest a small constant number of levels.
pub const NEST_LIMIT: u32 = 32;

/// The value under the first entry of `pairs` whose key is `key`.
pub open spec fn spec_dict_get(pairs: Seq<(Seq<u8>, BSpec)>, key: Seq<u8>) -> Option<BSpec>
    decreases pairs.len(),
{
    if pairs.len() == 0 {
        None
    } else if pairs[0].0 == key {
        Some(pairs[0].1)
    } else {
        spec_dict_get(pairs.drop_first(), key)
    }
}

/// Looks `key` up in a decoded dictionary: the first entry wins.
pub fn dict_get<'a>(pairs: &'a Vec<(Vec<u8>, BValue)>, key: &Vec<u8>) -> (r: Option<&'a BValue>)
    ensures
        match r {
            Some(v) => spec_dict_get(bpviews(*pairs), key@) == Some(bview(*v)),
            None => spec_dict_get(bpviews(*pairs), key@) is None,
        },
{
    let ghost full = bpviews(*pairs);
    proof {
        assert(full.skip(0) =~= full);
    }
    let mut i: usize = 0;
    while i < pairs.len()
        invariant
            i <= pairs@.len(),
            full == bpviews(*pairs),
            spec_dict_get(full, key@) == spec_dict_get(full.skip(i as int), key@),
            full.len() == pairs@.len(),
        decreases pairs@.len() - i,
    {
        proof {
            assert(full.skip(i as int)[0] == full[i as int]);
        }
        if crate::util::bytes_eq(&pairs[i].0, key) {
            return Some(&pairs[i].1);
        }
        proof {
            assert(full.skip(i as int).drop_first() =~= full.skip(i as int + 1));
        }
        i = i + 1;
    }
    proof {
        assert(full.skip(i as int).len() == 0);
    }
    None
}

/// The byte span of the value stored under `key` among the dictionary
/// entries that start at `pos`: the first matching entry's value,
/// exactly as it stands in the input.
pub open spec fn spec_pairs_span(s: Seq<u8>, pos: int, key: Seq<u8>, fuel: nat) -> Option<
    (int, int),
>
    decreases fuel, s.len() - pos,
{
    if !(0 <= pos < s.len()) {
        None
    } else if s[pos] == 101 {
        None
    } else if fuel == 0 {
        None
    } else {
        match spec_parse_bytes(s, pos) {
            Some((k, kend)) => if kend <= pos || kend > s.len() {
                None
            } else {
                match spec_parse_value(s, kend, (fuel - 1) as nat) {
                    Some((v, vend)) => if vend <= kend || vend > s.len() {
                        None
                    } else if k == key {
                        Some((kend, vend))
                    } else {
                        spec_pairs_span(s, vend, key, fuel)
                    },
                    None => None,
                }
            },
            None => None,
        }
    }
}

/// The byte span of the value under `key` in the document's top-level
/// dictionary.
pub open spec fn spec_doc_span(s: Seq<u8>, key: Seq<u8>) -> Option<(int, int)> {
    if s.len() >= 1 && s[0] == 100 {
        spec_pairs_span(s, 1, key, (NEST_LIMIT - 1) as nat)
    } else {
        None
    }
}

/// Walks the dictionary entries at `pos` for `key`'s value span.
fn pairs_span(s: &Vec<u8>, pos: usize, key: &Vec<u8>, fuel: u32) -> (r: Option<(usize, usize)>)
    requires
        pos <= s@.len(),
    ensures
        match r {
            Some((a, b)) => spec_pairs_span(s@, pos as int, key@, fuel as nat) == Some(
                (a as int, b as int),
            ) && pos < a <= b <= s@.len(),
            None => spec_pairs_span(s@, pos as int, key@, fuel as nat) is None,
        },
    decreases fuel, s@.len() - pos,
{
    if pos >= s.len() {
        return None;
    }
    if s[pos] == 101 {
        return None;
    }
    if fuel == 0 {
        return None;
    }
    match parse_bytes(s, pos) {
        Ok((k, kend)) => {
            match parse_value(s, kend, fuel - 1) {
                Ok((_v, vend)) => {
                    if crate::util::bytes_eq(&k, key) {
                        Some((kend, vend))
                    } else {
                        pairs_span(s, vend, key, fuel)
                    }
                },
                Err(_e) => None,
            }
        },
        Err(_e) => None,
    }
}

/// Finds the byte span of `key`'s value in the document's top-level
/// dictionary, exactly as received.
pub fn doc_value_span(s: &Vec<u8>, key: &Vec<u8>) -> (r: Option<(usize, usize)>)
    ensures
        match r {
            Some((a, b)) => spec_doc_span(s@, key@) == Some((a as int, b as int))
                && a <= b <= s@.len(),
            None => spec_doc_span(s@, key@) is None,
        },
{
    if s.len() == 0 || s[0] != 100 {
        return None;
    }
    pairs_span(s, 1, key, NEST_LIMIT - 1)
}

/// Decodes one complete bencode document: the value must fill the
/// input exactly.
pub fn decode_value(s: &Vec<u8>) -> (r: Result<BValue, TransferError>)
    ensures
        match r {
            Ok(v) => spec_parse_value(s@, 0, NEST_LIMIT as nat) == Some(
                (bview(v), s@.len() as int),
            ),
            Err(e) => e == TransferError::DecodeError && (match spec_parse_value(
                s@, 0, NEST_LIMIT as nat) {
                Some((b, end)) => end != s@.len(),
                None => true,
            }),
        },
{
    match parse_value(s, 0, NEST_LIMIT) {
        Ok((v, end)) => {
            if end == s.len() {
                Ok(v)
            } else {
                Err(TransferError::DecodeError)
            }
        },
        Err(e) => Err(e),
    }
}

} // verus!
