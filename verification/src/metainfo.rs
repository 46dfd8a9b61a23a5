//! Torrent metadata: the decoded metainfo record, its per-piece
//! digests, the total content length, and the infohash computed over
//! the bencoded info record exactly as received.

use vstd::prelude::*;
use crate::TransferError;
use crate::bencode::{
    BValue, BSpec, bview, bviews, bpviews, spec_parse_value, spec_dict_get, spec_doc_span,
    decode_value, dict_get, doc_value_span, NEST_LIMIT,
};
use crate::digest::{sha1_of, sha1_digest};
use crate::util::sub_vec;

verus! {

broadcast use crate::bencode::lemma_bviews_index;

/// One file of a multi-file torrent: its length and path segments.
pub struct FileEntry {
    pub length: u64,
    pub path: Vec<Vec<u8>>,
}

/// The `info` record: name, piece size, content length or per-file
/// list, and the concatenated 20-byte piece digests.
pub struct TorrentInfo {
    pub name: Vec<u8>,
    pub length: u64,
    pub piece_length: u64,
    pub pieces: Vec<u8>,
    pub files: Option<Vec<FileEntry>>,
}

/// A whole metainfo record.
pub struct Torrent {
    pub announce: Vec<u8>,
    pub announce_list: Option<Vec<Vec<Vec<u8>>>>,
    pub info: TorrentInfo,
}

/// A loaded torrent: the metainfo and its infohash, computed once.
pub struct TorrentFile {
    pub torrent: Torrent,
    pub info_hash: Vec<u8>,
}

/// The sum of the file lengths.
pub open spec fn spec_files_total(files: Seq<FileEntry>) -> int
    decreases files.len(),
{
    if files.len() == 0 {
        0
    } else {
        files[0].length + spec_files_total(files.drop_first())
    }
}

/// File lengths sum to something non-negative.
proof fn lemma_files_total_nonneg(files: Seq<FileEntry>)
    ensures
        spec_files_total(files) >= 0,
    decreases files.len(),
{
    if files.len() > 0 {
        lemma_files_total_nonneg(files.drop_first());
    }
}

impl TorrentInfo {
    /// The total number of content bytes: the sum of the file lengths
    /// in a multi-file torrent, the single length otherwise.
    pub open spec fn spec_total_length(self) -> int {
        match self.files {
            Some(fs) => spec_files_total(fs@),
            None => self.length as int,
        }
    }

    /// Splits `pieces` into its 20-byte digests; a length that is not
    /// a multiple of 20 is malformed.
    pub fn piece_hashes(&self) -> (r: Result<Vec<Vec<u8>>, TransferError>)
        ensures
            match r {
                Ok(hs) => {
                    &&& self.pieces@.len() % 20 == 0
                    &&& hs@.len() == self.pieces@.len() / 20
                    &&& forall|i: int| 0 <= i < hs@.len()
                        ==> (#[trigger] hs@[i])@ == self.pieces@.subrange(20 * i, 20 * i + 20)
                },
                Err(e) => {
                    &&& e == TransferError::DecodeError
                    &&& self.pieces@.len() % 20 != 0
                },
            },
    {
        if self.pieces.len() % 20 != 0 {
            return Err(TransferError::DecodeError);
        }
        let plen = self.pieces.len();
        let n = plen / 20;
        proof {
            vstd::arithmetic::div_mod::lemma_fundamental_div_mod(self.pieces@.len() as int, 20);
        }
        let mut hs: Vec<Vec<u8>> = Vec::new();
        let mut i: usize = 0;
        while i < n
            invariant
                i <= n,
                n == self.pieces@.len() / 20,
                self.pieces@.len() % 20 == 0,
                plen == self.pieces@.len(),
                20 * n <= plen,
                hs@.len() == i,
                forall|j: int| 0 <= j < i
                    ==> (#[trigger] hs@[j])@ == self.pieces@.subrange(20 * j, 20 * j + 20),
            decreases n - i,
        {
            proof {
                assert(20 * (i as int) + 20 <= 20 * (n as int));
            }
            let h = sub_vec(&self.pieces, 20 * i, 20 * i + 20);
            hs.push(h);
            i = i + 1;
        }
        proof {
            vstd::arithmetic::div_mod::lemma_fundamental_div_mod(self.pieces@.len() as int, 20);
        }
        Ok(hs)
    }

    /// The total content length. The sum must fit the machine word
    /// it is reported in.
    pub fn total_length(&self) -> (r: u64)
        requires
            self.spec_total_length() <= u64::MAX,
        ensures
            r == self.spec_total_length(),
    {
        match &self.files {
            Some(fs) => {
                let ghost full = fs@;
                proof {
                    assert(full.skip(0) =~= full);
                }
                let mut acc: u64 = 0;
                let mut i: usize = 0;
                while i < fs.len()
                    invariant
                        i <= fs@.len(),
                        fs@ == full,
                        acc + spec_files_total(full.skip(i as int)) == spec_files_total(full),
                        spec_files_total(full) <= u64::MAX,
                    decreases fs@.len() - i,
                {
                    proof {
                        assert(full.skip(i as int)[0] == full[i as int]);
                        assert(full.skip(i as int).drop_first() =~= full.skip(i as int + 1));
                        lemma_files_total_nonneg(full.skip(i as int + 1));
                    }
                    acc = acc + fs[i].length;
                    i = i + 1;
                }
                proof {
                    assert(full.skip(i as int).len() == 0);
                }
                acc
            },
            None => self.length,
        }
    }
}

/// The bytes of the key `announce`.
pub open spec fn spec_key_announce() -> Seq<u8> {
    seq![97u8, 110, 110, 111, 117, 110, 99, 101]
}

/// The bytes of the key `announce-list`.
pub open spec fn spec_key_announce_list() -> Seq<u8> {
    seq![97u8, 110, 110, 111, 117, 110, 99, 101, 45, 108, 105, 115, 116]
}

/// The bytes of the key `info`.
pub open spec fn spec_key_info() -> Seq<u8> {
    seq![105u8, 110, 102, 111]
}

/// The bytes of the key `name`.
pub open spec fn spec_key_name() -> Seq<u8> {
    seq![110u8, 97, 109, 101]
}

/// The bytes of the key `piece length`.
pub open spec fn spec_key_piece_length() -> Seq<u8> {
    seq![112u8, 105, 101, 99, 101, 32, 108, 101, 110, 103, 116, 104]
}

/// The bytes of the key `length`.
pub open spec fn spec_key_length() -> Seq<u8> {
    seq![108u8, 101, 110, 103, 116, 104]
}

/// The bytes of the key `pieces`.
pub open spec fn spec_key_pieces() -> Seq<u8> {
    seq![112u8, 105, 101, 99, 101, 115]
}

/// The bytes of the key `files`.
pub open spec fn spec_key_files() -> Seq<u8> {
    seq![102u8, 105, 108, 101, 115]
}

/// The bytes of the key `path`.
pub open spec fn spec_key_path() -> Seq<u8> {
    seq![112u8, 97, 116, 104]
}

fn key_announce() -> (r: Vec<u8>)
    ensures
        r@ == spec_key_announce(),
{
    let mut v: Vec<u8> = Vec::new();
    v.push(97);
    v.push(110);
    v.push(110);
    v.push(111);
    v.push(117);
    v.push(110);
    v.push(99);
    v.push(101);
    proof {
        assert(v@ =~= spec_key_announce());
    }
    v
}

fn key_announce_list() -> (r: Vec<u8>)
    ensures
        r@ == spec_key_announce_list(),
{
    let mut v = key_announce();
    v.push(45);
    v.push(108);
    v.push(105);
    v.push(115);
    v.push(116);
    proof {
        assert(v@ =~= spec_key_announce_list());
    }
    v
}

fn key_info() -> (r: Vec<u8>)
    ensures
        r@ == spec_key_info(),
{
    let mut v: Vec<u8> = Vec::new();
    v.push(105);
    v.push(110);
    v.push(102);
    v.push(111);
    proof {
        assert(v@ =~= spec_key_info());
    }
    v
}

fn key_name() -> (r: Vec<u8>)
    ensures
        r@ == spec_key_name(),
{
    let mut v: Vec<u8> = Vec::new();
    v.push(110);
    v.push(97);
    v.push(109);
    v.push(101);
    proof {
        assert(v@ =~= spec_key_name());
    }
    v
}

fn key_piece_length() -> (r: Vec<u8>)
    ensures
        r@ == spec_key_piece_length(),
{
    let mut v: Vec<u8> = Vec::new();
    v.push(112);
    v.push(105);
    v.push(101);
    v.push(99);
    v.push(101);
    v.push(32);
    v.push(108);
    v.push(101);
    v.push(110);
    v.push(103);
    v.push(116);
    v.push(104);
    proof {
        assert(v@ =~= spec_key_piece_length());
    }
    v
}

fn key_length() -> (r: Vec<u8>)
    ensures
        r@ == spec_key_length(),
{
    let mut v: Vec<u8> = Vec::new();
    v.push(108);
    v.push(101);
    v.push(110);
    v.push(103);
    v.push(116);
    v.push(104);
    proof {
        assert(v@ =~= spec_key_length());
    }
    v
}

fn key_pieces() -> (r: Vec<u8>)
    ensures
        r@ == spec_key_pieces(),
{
    let mut v: Vec<u8> = Vec::new();
    v.push(112);
    v.push(105);
    v.push(101);
    v.push(99);
    v.push(101);
    v.push(115);
    proof {
        assert(v@ =~= spec_key_pieces());
    }
    v
}

fn key_files() -> (r: Vec<u8>)
    ensures
        r@ == spec_key_files(),
{
    let mut v: Vec<u8> = Vec::new();
    v.push(102);
    v.push(105);
    v.push(108);
    v.push(101);
    v.push(115);
    proof {
        assert(v@ =~= spec_key_files());
    }
    v
}

fn key_path() -> (r: Vec<u8>)
    ensures
        r@ == spec_key_path(),
{
    let mut v: Vec<u8> = Vec::new();
    v.push(112);
    v.push(97);
    v.push(116);
    v.push(104);
    proof {
        assert(v@ =~= spec_key_path());
    }
    v
}

/// `key`'s value in a dictionary-shaped document.
pub open spec fn spec_lookup(doc: BSpec, key: Seq<u8>) -> Option<BSpec> {
    match doc {
        BSpec::Dict(pairs) => spec_dict_get(pairs, key),
        _ => None,
    }
}

/// The byte string held by a looked-up value.
pub open spec fn spec_as_bytes(v: Option<BSpec>) -> Option<Seq<u8>> {
    match v {
        Some(BSpec::Bytes(b)) => Some(b),
        _ => None,
    }
}

/// The unsigned 64-bit integer held by a looked-up value.
pub open spec fn spec_as_u64(v: Option<BSpec>) -> Option<int> {
    match v {
        Some(BSpec::Int(x)) => if 0 <= x <= u64::MAX {
            Some(x)
        } else {
            None
        },
        _ => None,
    }
}

/// A well-shaped file entry: a dictionary with a `length` integer and
/// a `path` list of byte strings.
pub open spec fn spec_file_ok(b: BSpec) -> bool {
    match b {
        BSpec::Dict(fp) => {
            &&& spec_as_u64(spec_dict_get(fp, spec_key_length())) is Some
            &&& match spec_dict_get(fp, spec_key_path()) {
                Some(BSpec::List(items)) => forall|j: int| 0 <= j < items.len()
                    ==> (#[trigger] items[j]) is Bytes,
                _ => false,
            }
        },
        _ => false,
    }
}

/// `fe` holds exactly what the file-entry dictionary `b` says.
pub open spec fn spec_file_rel(b: BSpec, fe: FileEntry) -> bool {
    match b {
        BSpec::Dict(fp) => {
            &&& spec_as_u64(spec_dict_get(fp, spec_key_length())) == Some(fe.length as int)
            &&& match spec_dict_get(fp, spec_key_path()) {
                Some(BSpec::List(items)) => {
                    &&& items.len() == fe.path@.len()
                    &&& forall|j: int| 0 <= j < items.len()
                        ==> (#[trigger] items[j]) == BSpec::Bytes(fe.path@[j]@)
                },
                _ => false,
            }
        },
        _ => false,
    }
}

/// The document a metainfo file holds: one value filling it exactly.
pub open spec fn spec_torrent_doc(s: Seq<u8>) -> Option<BSpec> {
    match spec_parse_value(s, 0, NEST_LIMIT as nat) {
        Some((doc, end)) => if end == s.len() {
            Some(doc)
        } else {
            None
        },
        None => None,
    }
}

/// Every entry of a `files` list is a well-shaped file entry.
pub open spec fn spec_files_all_ok(items: Seq<BSpec>) -> bool {
    forall|k: int| 0 <= k < items.len() ==> spec_file_ok(#[trigger] items[k])
}

/// A well-shaped `info` record.
pub open spec fn spec_info_ok(info: BSpec) -> bool {
    &&& spec_as_bytes(spec_lookup(info, spec_key_name())) is Some
    &&& spec_as_u64(spec_lookup(info, spec_key_piece_length())) is Some
    &&& (match spec_lookup(info, spec_key_length()) {
        Some(x) => spec_as_u64(Some(x)) is Some,
        None => true,
    })
    &&& spec_as_bytes(spec_lookup(info, spec_key_pieces())) is Some
    &&& (match spec_lookup(info, spec_key_files()) {
        Some(BSpec::List(items)) => spec_files_all_ok(items),
        Some(_) => false,
        None => true,
    })
}

/// A well-shaped `announce-list`, when present: a list of tiers, each
/// a list of byte strings.
pub open spec fn spec_alist_ok(doc: BSpec) -> bool {
    match spec_lookup(doc, spec_key_announce_list()) {
        Some(BSpec::List(tiers)) => forall|k: int| 0 <= k < tiers.len()
            ==> (match #[trigger] tiers[k] {
                BSpec::List(urls) => forall|j: int| 0 <= j < urls.len()
                    ==> (#[trigger] urls[j]) is Bytes,
                _ => false,
            }),
        Some(_) => false,
        None => true,
    }
}

/// A metainfo document the decoder accepts.
pub open spec fn spec_torrent_ok(s: Seq<u8>) -> bool {
    match spec_torrent_doc(s) {
        Some(doc) => {
            &&& spec_as_bytes(spec_lookup(doc, spec_key_announce())) is Some
            &&& spec_alist_ok(doc)
            &&& match spec_lookup(doc, spec_key_info()) {
                Some(info) => spec_info_ok(info),
                None => false,
            }
        },
        None => false,
    }
}

/// `t.info` holds exactly what the `info` record says; an absent
/// `length` reads as zero.
pub open spec fn spec_info_rel(info: BSpec, t: TorrentInfo) -> bool {
    &&& spec_as_bytes(spec_lookup(info, spec_key_name())) == Some(t.name@)
    &&& spec_as_u64(spec_lookup(info, spec_key_piece_length())) == Some(t.piece_length as int)
    &&& (match spec_lookup(info, spec_key_length()) {
        Some(x) => spec_as_u64(Some(x)) == Some(t.length as int),
        None => t.length == 0,
    })
    &&& spec_as_bytes(spec_lookup(info, spec_key_pieces())) == Some(t.pieces@)
    &&& (match (spec_lookup(info, spec_key_files()), t.files) {
        (None, None) => true,
        (Some(BSpec::List(items)), Some(fes)) => {
            &&& fes@.len() == items.len()
            &&& forall|k: int| 0 <= k < items.len()
                ==> spec_file_rel(#[trigger] items[k], fes@[k])
        },
        _ => false,
    })
}

/// `t` holds exactly what the metainfo document says.
pub open spec fn spec_torrent_rel(s: Seq<u8>, t: Torrent) -> bool {
    match spec_torrent_doc(s) {
        Some(doc) => {
            &&& spec_as_bytes(spec_lookup(doc, spec_key_announce())) == Some(t.announce@)
            &&& (match (spec_lookup(doc, spec_key_announce_list()), t.announce_list) {
                (None, None) => true,
                (Some(BSpec::List(tiers)), Some(al)) => {
                    &&& al@.len() == tiers.len()
                    &&& forall|k: int| 0 <= k < tiers.len()
                        ==> (match #[trigger] tiers[k] {
                            BSpec::List(urls) => {
                                &&& urls.len() == al@[k]@.len()
                                &&& forall|j: int| 0 <= j < urls.len()
                                    ==> (#[trigger] urls[j]) == BSpec::Bytes(al@[k]@[j]@)
                            },
                            _ => false,
                        })
                },
                _ => false,
            })
            &&& match spec_lookup(doc, spec_key_info()) {
                Some(info) => spec_info_rel(info, t.info),
                None => false,
            }
        },
        None => false,
    }
}

/// Copies a byte vector.
fn copy_bytes(v: &Vec<u8>) -> (r: Vec<u8>)
    ensures
        r@ == v@,
{
    let r = sub_vec(v, 0, v.len());
    proof {
        assert(v@.subrange(0, v@.len() as int) =~= v@);
    }
    r
}

/// Reads a list whose elements must all be byte strings.
fn copy_bytes_list(items: &Vec<BValue>) -> (r: Result<Vec<Vec<u8>>, TransferError>)
    ensures
        match r {
            Ok(out) => {
                &&& out@.len() == items@.len()
                &&& forall|j: int| 0 <= j < items@.len()
                    ==> bview(items@[j]) == BSpec::Bytes((#[trigger] out@[j])@)
            },
            Err(e) => e == TransferError::DecodeError && exists|j: int| 0 <= j < items@.len()
                && !((#[trigger] bview(items@[j])) is Bytes),
        },
{
    let mut out: Vec<Vec<u8>> = Vec::new();
    let mut j: usize = 0;
    while j < items.len()
        invariant
            j <= items@.len(),
            out@.len() == j,
            forall|k: int| 0 <= k < j
                ==> bview(items@[k]) == BSpec::Bytes((#[trigger] out@[k])@),
        decreases items@.len() - j,
    {
        match &items[j] {
            BValue::Bytes(b) => {
                out.push(copy_bytes(b));
            },
            _ => {
                proof {
                    assert(!(bview(items@[j as int]) is Bytes));
                }
                return Err(TransferError::DecodeError);
            },
        }
        j = j + 1;
    }
    Ok(out)
}

/// Reads an integer that must fit an unsigned 64-bit field.
fn to_u64(v: &BValue) -> (r: Result<u64, TransferError>)
    ensures
        match r {
            Ok(x) => spec_as_u64(Some(bview(*v))) == Some(x as int),
            Err(e) => e == TransferError::DecodeError && spec_as_u64(Some(bview(*v))) is None,
        },
{
    match v {
        BValue::Int(x) => {
            if *x >= 0 {
                Ok(*x as u64)
            } else {
                Err(TransferError::DecodeError)
            }
        },
        _ => Err(TransferError::DecodeError),
    }
}

/// Reads one file entry.
fn parse_file_entry(b: &BValue) -> (r: Result<FileEntry, TransferError>)
    ensures
        match r {
            Ok(fe) => spec_file_rel(bview(*b), fe),
            Err(e) => e == TransferError::DecodeError && !spec_file_ok(bview(*b)),
        },
{
    match b {
        BValue::Dict(fp) => {
            let length = match dict_get(fp, &key_length()) {
                Some(v) => match to_u64(v) {
                    Ok(x) => x,
                    Err(e) => {
                        return Err(e);
                    },
                },
                None => {
                    return Err(TransferError::DecodeError);
                },
            };
            let path = match dict_get(fp, &key_path()) {
                Some(v) => match v {
                    BValue::List(items) => match copy_bytes_list(items) {
                        Ok(p) => {
                            proof {
                                assert forall|j: int| 0 <= j < bviews(*items).len()
                                    implies (#[trigger] bviews(*items)[j]) == BSpec::Bytes(
                                    p@[j]@) by {
                                    assert(bviews(*items)[j] == bview(items@[j]));
                                }
                            }
                            p
                        },
                        Err(e) => {
                            proof {
                                let j = choose|j: int| 0 <= j < items@.len()
                                    && !((#[trigger] bview(items@[j])) is Bytes);
                                assert(!(bviews(*items)[j] is Bytes));
                            }
                            return Err(e);
                        },
                    },
                    _ => {
                        return Err(TransferError::DecodeError);
                    },
                },
                None => {
                    return Err(TransferError::DecodeError);
                },
            };
            Ok(FileEntry { length, path })
        },
        _ => Err(TransferError::DecodeError),
    }
}

/// An ill-shaped file entry makes the whole record ill shaped.
proof fn lemma_info_files_bad(info: BSpec, items: Seq<BSpec>, k: int)
    requires
        spec_lookup(info, spec_key_files()) == Some(BSpec::List(items)),
        0 <= k < items.len(),
        !spec_file_ok(items[k]),
    ensures
        !spec_info_ok(info),
{
    if spec_info_ok(info) {
        assert(spec_files_all_ok(items));
        assert(spec_file_ok(items[k]));
    }
}

/// A file entry that some record matches is well shaped.
proof fn lemma_file_rel_ok(b: BSpec, fe: FileEntry)
    requires
        spec_file_rel(b, fe),
    ensures
        spec_file_ok(b),
{
}

/// Decodes a whole metainfo document into a torrent record: succeeds
/// exactly on documents of the metainfo shape, and then every field
/// holds what the document says.
#[verifier::loop_isolation(false)]
pub fn decode_torrent_file(s: &Vec<u8>) -> (r: Result<Torrent, TransferError>)
    ensures
        match r {
            Ok(t) => spec_torrent_ok(s@) && spec_torrent_rel(s@, t),
            Err(e) => e == TransferError::DecodeError && !spec_torrent_ok(s@),
        },
{
    let doc = match decode_value(s) {
        Ok(v) => v,
        Err(e) => {
            return Err(e);
        },
    };
    let pairs = match &doc {
        BValue::Dict(p) => p,
        _ => {
            proof {
                assert(!(bview(doc) is Dict));
            }
            return Err(TransferError::DecodeError);
        },
    };
    proof {
        assert(bview(doc) == BSpec::Dict(bpviews(*pairs)));
    }
    let announce = match dict_get(pairs, &key_announce()) {
        Some(v) => match v {
            BValue::Bytes(b) => {
                proof {
                    assert(bview(*v) == BSpec::Bytes(b@));
                }
                copy_bytes(b)
            },
            _ => {
                proof {
                    assert(!(bview(*v) is Bytes));
                }
                return Err(TransferError::DecodeError);
            },
        },
        None => {
            return Err(TransferError::DecodeError);
        },
    };
    let announce_list: Option<Vec<Vec<Vec<u8>>>> = match dict_get(pairs, &key_announce_list()) {
        Some(v) => match v {
            BValue::List(tiers) => {
                proof {
                    assert(bview(*v) == BSpec::List(bviews(*tiers)));
                }
                let mut al: Vec<Vec<Vec<u8>>> = Vec::new();
                let mut k: usize = 0;
                while k < tiers.len()
                    invariant
                        k <= tiers@.len(),
                        al@.len() == k,
                        forall|k2: int| 0 <= k2 < k
                            ==> (match #[trigger] bviews(*tiers)[k2] {
                                BSpec::List(urls) => {
                                    &&& urls.len() == al@[k2]@.len()
                                    &&& forall|j: int| 0 <= j < urls.len()
                                        ==> (#[trigger] urls[j]) == BSpec::Bytes(al@[k2]@[j]@)
                                },
                                _ => false,
                            }),
                    decreases tiers@.len() - k,
                {
                    match &tiers[k] {
                        BValue::List(urls) => {
                            match copy_bytes_list(urls) {
                                Ok(tier) => {
                                    al.push(tier);
                                    proof {
                                        assert(bviews(*tiers)[k as int] == bview(
                                            tiers@[k as int]));
                                        assert(bview(tiers@[k as int]) == BSpec::List(
                                            bviews(*urls)));
                                        assert forall|j: int| 0 <= j < bviews(*urls).len()
                                            implies (#[trigger] bviews(*urls)[j])
                                            == BSpec::Bytes(al@[k as int]@[j]@) by {
                                            assert(bviews(*urls)[j] == bview(urls@[j]));
                                        }
                                    }
                                },
                                Err(e) => {
                                    proof {
                                        let j = choose|j: int| 0 <= j < urls@.len()
                                            && !((#[trigger] bview(urls@[j])) is Bytes);
                                        assert(!(bviews(*urls)[j] is Bytes));
                                        assert(bviews(*tiers)[k as int] == bview(
                                            tiers@[k as int]));
                                        assert(bview(tiers@[k as int]) == BSpec::List(
                                            bviews(*urls)));
                                        assert(spec_lookup(bview(doc), spec_key_announce_list())
                                            == Some(BSpec::List(bviews(*tiers))));
                                        assert(!(match bviews(*tiers)[k as int] {
                                            BSpec::List(u) => forall|j2: int| 0 <= j2 < u.len()
                                                ==> (#[trigger] u[j2]) is Bytes,
                                            _ => false,
                                        }));
                                        assert(!spec_alist_ok(bview(doc)));
                                    }
                                    return Err(e);
                                },
                            }
                        },
                        _ => {
                            proof {
                                assert(bviews(*tiers)[k as int] == bview(tiers@[k as int]));
                                assert(!(bview(tiers@[k as int]) is List));
                                assert(!spec_alist_ok(bview(doc)));
                            }
                            return Err(TransferError::DecodeError);
                        },
                    }
                    k = k + 1;
                }
                Some(al)
            },
            _ => {
                proof {
                    assert(!(bview(*v) is List));
                }
                return Err(TransferError::DecodeError);
            },
        },
        None => None,
    };
    let ipairs = match dict_get(pairs, &key_info()) {
        Some(v) => match v {
            BValue::Dict(ip) => {
                proof {
                    assert(bview(*v) == BSpec::Dict(bpviews(*ip)));
                }
                ip
            },
            _ => {
                proof {
                    assert(!(bview(*v) is Dict));
                    assert(!spec_info_ok(bview(*v)));
                }
                return Err(TransferError::DecodeError);
            },
        },
        None => {
            return Err(TransferError::DecodeError);
        },
    };
    let ghost ispec = BSpec::Dict(bpviews(*ipairs));
    let name = match dict_get(ipairs, &key_name()) {
        Some(v) => match v {
            BValue::Bytes(b) => {
                proof {
                    assert(bview(*v) == BSpec::Bytes(b@));
                }
                copy_bytes(b)
            },
            _ => {
                proof {
                    assert(!(bview(*v) is Bytes));
                }
                return Err(TransferError::DecodeError);
            },
        },
        None => {
            return Err(TransferError::DecodeError);
        },
    };
    let piece_length = match dict_get(ipairs, &key_piece_length()) {
        Some(v) => match to_u64(v) {
            Ok(x) => x,
            Err(e) => {
                return Err(e);
            },
        },
        None => {
            return Err(TransferError::DecodeError);
        },
    };
    let length = match dict_get(ipairs, &key_length()) {
        Some(v) => match to_u64(v) {
            Ok(x) => x,
            Err(e) => {
                return Err(e);
            },
        },
        None => 0,
    };
    let pieces = match dict_get(ipairs, &key_pieces()) {
        Some(v) => match v {
            BValue::Bytes(b) => {
                proof {
                    assert(bview(*v) == BSpec::Bytes(b@));
                }
                copy_bytes(b)
            },
            _ => {
                proof {
                    assert(!(bview(*v) is Bytes));
                }
                return Err(TransferError::DecodeError);
            },
        },
        None => {
            return Err(TransferError::DecodeError);
        },
    };
    let files: Option<Vec<FileEntry>> = match dict_get(ipairs, &key_files()) {
        Some(v) => match v {
            BValue::List(items) => {
                proof {
                    assert(bview(*v) == BSpec::List(bviews(*items)));
                }
                let mut fes: Vec<FileEntry> = Vec::new();
                let mut k: usize = 0;
                while k < items.len()
                    invariant
                        k <= items@.len(),
                        fes@.len() == k,
                        forall|k2: int| 0 <= k2 < k
                            ==> spec_file_rel(#[trigger] bviews(*items)[k2], fes@[k2])
                                && spec_file_ok(bviews(*items)[k2]),
                    decreases items@.len() - k,
                {
                    match parse_file_entry(&items[k]) {
                        Ok(fe) => {
                            fes.push(fe);
                            proof {
                                assert(bviews(*items)[k as int] == bview(items@[k as int]));
                                lemma_file_rel_ok(bviews(*items)[k as int], fes@[k as int]);
                            }
                        },
                        Err(e) => {
                            proof {
                                assert(bviews(*items)[k as int] == bview(items@[k as int]));
                                assert(spec_lookup(ispec, spec_key_files())
                                    == Some(BSpec::List(bviews(*items))));
                                assert(!spec_file_ok(bviews(*items)[k as int]));
                                lemma_info_files_bad(ispec, bviews(*items), k as int);
                            }
                            return Err(e);
                        },
                    }
                    k = k + 1;
                }
                Some(fes)
            },
            _ => {
                proof {
                    assert(!(bview(*v) is List));
                    assert(!spec_info_ok(ispec));
                }
                return Err(TransferError::DecodeError);
            },
        },
        None => None,
    };
    let t = Torrent {
        announce,
        announce_list,
        info: TorrentInfo { name, length, piece_length, pieces, files },
    };
    proof {
        assert(spec_torrent_ok(s@));
        assert(spec_torrent_rel(s@, t));
    }
    Ok(t)
}


/// A metainfo document the loader accepts: a well-shaped record whose
/// digests split evenly into 20-byte pieces, with a locatable `info`
/// span for the infohash.
pub open spec fn spec_loadable(s: Seq<u8>) -> bool {
    &&& spec_torrent_ok(s)
    &&& (match spec_torrent_doc(s) {
        Some(doc) => match spec_lookup(doc, spec_key_info()) {
            Some(info) => match spec_as_bytes(spec_lookup(info, spec_key_pieces())) {
                Some(p) => p.len() % 20 == 0,
                None => false,
            },
            None => false,
        },
        None => false,
    })
    &&& spec_doc_span(s, spec_key_info()) is Some
}

impl TorrentFile {
    /// Loads a torrent from the raw bytes of a metainfo file: decodes
    /// the record, checks that the digests split evenly, and computes
    /// the infohash over the bencoded `info` record exactly as it
    /// stands in the input, byte for byte, exactly once.
    pub fn from_bytes(content: &Vec<u8>) -> (r: Result<TorrentFile, TransferError>)
        ensures
            match r {
                Ok(tf) => {
                    &&& spec_loadable(content@)
                    &&& spec_torrent_rel(content@, tf.torrent)
                    &&& tf.torrent.info.pieces@.len() % 20 == 0
                    &&& tf.info_hash@ == sha1_of(content@.subrange(
                        spec_doc_span(content@, spec_key_info()).unwrap().0,
                        spec_doc_span(content@, spec_key_info()).unwrap().1,
                    ))
                    &&& tf.info_hash@.len() == 20
                },
                Err(e) => {
                    &&& e == TransferError::DecodeError
                    &&& !spec_loadable(content@)
                },
            },
    {
        let torrent = match decode_torrent_file(content) {
            Ok(t) => t,
            Err(e) => {
                return Err(e);
            },
        };
        if torrent.info.pieces.len() % 20 != 0 {
            return Err(TransferError::DecodeError);
        }
        let span = match doc_value_span(content, &key_info()) {
            Some(sp) => sp,
            None => {
                return Err(TransferError::DecodeError);
            },
        };
        let info_bytes = sub_vec(content, span.0, span.1);
        let info_hash = sha1_digest(&info_bytes);
        Ok(TorrentFile { torrent, info_hash })
    }
}

} // verus!
