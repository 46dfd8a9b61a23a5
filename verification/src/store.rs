//! The work set: which pieces are wanted, which blocks are outstanding
//! or received, assembly of piece buffers, digest verification, and the
//! queue of verified pieces.

use vstd::prelude::*;
use crate::digest::{sha1_of, sha1_digest};
use crate::util::{repeat_val, sub_vec, bytes_eq};

verus! {

/// The request cap: blocks are claimed in units of at most 16 KiB.
pub const BLOCK_SIZE: u32 = 16384;

/// One block of one piece: the unit requested over the wire.
#[derive(Clone, Copy, PartialEq, Eq, Structural, Debug)]
pub struct BlockRange {
    pub piece: u32,
    pub begin: u32,
    pub length: u32,
}

/// What a piece should be: its index, exact length, and expected
/// SHA-1 digest, fixed by the metadata at load time.
pub struct PieceSpec {
    pub index: u32,
    pub length: u32,
    pub hash: Vec<u8>,
}

/// The mutable per-piece assembly: the buffer, a per-byte coverage
/// map, a per-block claim map, and whether the piece has verified.
pub struct PieceAssembly {
    pub buf: Vec<u8>,
    pub covered: Vec<bool>,
    pub claimed: Vec<bool>,
    pub done: bool,
}

/// A piece that hash-matched, ready for the consumer.
pub struct VerifiedPiece {
    pub index: u32,
    pub data: Vec<u8>,
}

/// How many blocks a piece of `len` bytes splits into.
pub open spec fn spec_num_blocks(len: u32) -> int {
    (len + BLOCK_SIZE - 1) / (BLOCK_SIZE as int)
}

/// `buf` with `bytes` written at offset `begin`; outside the written
/// range the old bytes stand.
pub open spec fn spec_write(buf: Seq<u8>, begin: int, bytes: Seq<u8>) -> Seq<u8> {
    Seq::new(buf.len(), |i: int| if begin <= i < begin + bytes.len() { bytes[i - begin] } else { buf[i] })
}

/// `cov` with the range `[begin, begin + n)` marked covered.
pub open spec fn spec_cover(cov: Seq<bool>, begin: int, n: int) -> Seq<bool> {
    Seq::new(cov.len(), |i: int| if begin <= i < begin + n { true } else { cov[i] })
}

/// Every byte of the piece has been written at least once.
pub open spec fn spec_full(cov: Seq<bool>) -> bool {
    forall|i: int| 0 <= i < cov.len() ==> cov[i]
}

impl PieceAssembly {
    /// Sized to a piece of `len` bytes.
    pub open spec fn wf_for(self, len: u32) -> bool {
        &&& self.buf@.len() == len
        &&& self.covered@.len() == len
        &&& self.claimed@.len() == spec_num_blocks(len)
    }

    /// Writes `bytes` into the buffer at `begin` and marks the range
    /// covered. Overlapping and duplicate writes are tolerated: the
    /// last write wins.
    pub fn write_block(&mut self, begin: usize, bytes: &Vec<u8>)
        requires
            begin + bytes@.len() <= old(self).buf@.len(),
            old(self).covered@.len() == old(self).buf@.len(),
        ensures
            final(self).buf@ == spec_write(old(self).buf@, begin as int, bytes@),
            final(self).covered@ == spec_cover(old(self).covered@, begin as int, bytes@.len() as int),
            final(self).claimed == old(self).claimed,
            final(self).done == old(self).done,
    {
        let buf_len = self.buf.len();
        let mut j: usize = 0;
        while j < bytes.len()
            invariant
                j <= bytes@.len(),
                begin + bytes@.len() <= self.buf@.len(),
                self.buf@.len() == buf_len,
                self.covered@.len() == self.buf@.len(),
                self.buf@ =~= Seq::new(
                    old(self).buf@.len(),
                    |i: int| if begin <= i < begin + j { bytes@[i - begin] } else { old(self).buf@[i] },
                ),
                self.covered@ =~= Seq::new(
                    old(self).covered@.len(),
                    |i: int| if begin <= i < begin + j { true } else { old(self).covered@[i] },
                ),
                self.claimed == old(self).claimed,
                self.done == old(self).done,
            decreases bytes@.len() - j,
        {
            self.buf[begin + j] = bytes[j];
            self.covered[begin + j] = true;
            j = j + 1;
        }
        proof {
            assert(self.buf@ =~= spec_write(old(self).buf@, begin as int, bytes@));
            assert(self.covered@ =~= spec_cover(old(self).covered@, begin as int, bytes@.len() as int));
        }
    }

    /// Whether every byte of the piece is covered.
    pub fn is_full(&self) -> (r: bool)
        ensures
            r == spec_full(self.covered@),
    {
        let mut i: usize = 0;
        while i < self.covered.len()
            invariant
                i <= self.covered@.len(),
                forall|j: int| 0 <= j < i ==> self.covered@[j],
            decreases self.covered@.len() - i,
        {
            if !self.covered[i] {
                return false;
            }
            i = i + 1;
        }
        true
    }
}

/// The outcome of submitting one block.
#[derive(Clone, Copy, PartialEq, Eq, Structural, Debug)]
pub enum SubmitOutcome {
    /// The bytes were written; the piece is not yet fully covered.
    Stored,
    /// The write completed the piece and its digest matched: the piece
    /// was appended to the verified queue.
    Completed,
    /// The write completed the piece but its digest did not match: the
    /// coverage and claims were reset so the blocks become work again.
    HashRejected,
    /// Out-of-range or stale data; nothing changed.
    Ignored,
}

/// The shared work set over all pieces of one torrent.
pub struct PieceStore {
    pub pieces: Vec<PieceSpec>,
    pub assemblies: Vec<PieceAssembly>,
    pub completed: Vec<VerifiedPiece>,
}

impl PieceStore {
    /// Pieces are indexed by position, every digest is 20 bytes, no
    /// piece is empty, and every assembly is sized to its piece.
    pub open spec fn wf(self) -> bool {
        &&& self.assemblies@.len() == self.pieces@.len()
        &&& forall|i: int| 0 <= i < self.pieces@.len() ==> (#[trigger] self.pieces@[i]).index == i
        &&& forall|i: int| 0 <= i < self.pieces@.len() ==> (#[trigger] self.pieces@[i]).hash@.len() == 20
        &&& forall|i: int| 0 <= i < self.pieces@.len() ==> (#[trigger] self.pieces@[i]).length >= 1
        &&& forall|i: int| 0 <= i < self.pieces@.len()
            ==> (#[trigger] self.assemblies@[i]).wf_for(self.pieces@[i].length)
    }

    /// A block `b` of piece `i` that may be claimed for a peer holding
    /// the pieces in `peer_has`.
    pub open spec fn spec_avail(self, i: int, b: int, peer_has: Seq<bool>) -> bool {
        &&& 0 <= i < self.pieces@.len()
        &&& 0 <= b < spec_num_blocks(self.pieces@[i].length)
        &&& i < peer_has.len()
        &&& peer_has[i]
        &&& !self.assemblies@[i].done
        &&& !self.assemblies@[i].claimed@[b]
    }

    /// `post` differs from `pre` at most by setting claim bits: the
    /// pieces, the verified queue, and every buffer, coverage map and
    /// verification flag are unchanged, claim maps keep their sizes,
    /// and a claim once set stays set.
    pub open spec fn spec_only_claims_set(pre: PieceStore, post: PieceStore) -> bool {
        &&& post.pieces == pre.pieces
        &&& post.completed == pre.completed
        &&& post.assemblies@.len() == pre.assemblies@.len()
        &&& forall|j: int| 0 <= j < pre.assemblies@.len() ==> {
            &&& (#[trigger] post.assemblies@[j]).buf == pre.assemblies@[j].buf
            &&& post.assemblies@[j].covered == pre.assemblies@[j].covered
            &&& post.assemblies@[j].done == pre.assemblies@[j].done
            &&& post.assemblies@[j].claimed@.len() == pre.assemblies@[j].claimed@.len()
        }
        &&& forall|j: int, b: int| 0 <= j < pre.assemblies@.len()
            && 0 <= b < pre.assemblies@[j].claimed@.len()
            && (#[trigger] pre.assemblies@[j].claimed@[b])
            ==> post.assemblies@[j].claimed@[b]
    }

    /// Builds the store for one torrent, with nothing covered, nothing
    /// claimed, and nothing verified.
    pub fn new(pieces: Vec<PieceSpec>) -> (r: PieceStore)
        requires
            forall|i: int| 0 <= i < pieces@.len() ==> (#[trigger] pieces@[i]).index == i,
            forall|i: int| 0 <= i < pieces@.len() ==> (#[trigger] pieces@[i]).hash@.len() == 20,
            forall|i: int| 0 <= i < pieces@.len() ==> (#[trigger] pieces@[i]).length >= 1,
        ensures
            r.wf(),
            r.pieces == pieces,
            r.completed@.len() == 0,
            forall|i: int| 0 <= i < pieces@.len() ==> !(#[trigger] r.assemblies@[i]).done,
            forall|i: int, b: int| 0 <= i < pieces@.len()
                && 0 <= b < spec_num_blocks(pieces@[i].length)
                ==> !(#[trigger] r.assemblies@[i].claimed@[b]),
            forall|i: int, k: int| 0 <= i < pieces@.len() && 0 <= k < pieces@[i].length
                ==> !(#[trigger] r.assemblies@[i].covered@[k]),
    {
        let mut assemblies: Vec<PieceAssembly> = Vec::new();
        let mut i: usize = 0;
        while i < pieces.len()
            invariant
                i <= pieces@.len(),
                assemblies@.len() == i,
                forall|j: int| 0 <= j < pieces@.len() ==> (#[trigger] pieces@[j]).length >= 1,
                forall|j: int| 0 <= j < i
                    ==> (#[trigger] assemblies@[j]).wf_for(pieces@[j].length),
                forall|j: int| 0 <= j < i ==> !(#[trigger] assemblies@[j]).done,
                forall|j: int, b: int| 0 <= j < i
                    && 0 <= b < spec_num_blocks(pieces@[j].length)
                    ==> !(#[trigger] assemblies@[j].claimed@[b]),
                forall|j: int, k: int| 0 <= j < i && 0 <= k < pieces@[j].length
                    ==> !(#[trigger] assemblies@[j].covered@[k]),
            decreases pieces@.len() - i,
        {
            let len = pieces[i].length;
            let nb = num_blocks(len);
            let a = PieceAssembly {
                buf: repeat_val(0u8, len as usize),
                covered: repeat_val(false, len as usize),
                claimed: repeat_val(false, nb),
                done: false,
            };
            assemblies.push(a);
            i = i + 1;
        }
        PieceStore { pieces, assemblies, completed: Vec::new() }
    }
}

impl PieceStore {
    /// Claims the first unclaimed block of the lowest wanted piece the
    /// peer holds, in increasing offset order: the deterministic
    /// selection policy. `None` exactly when no block is available.
    pub fn next_work(&mut self, peer_has: &Vec<bool>) -> (r: Option<BlockRange>)
        requires
            old(self).wf(),
        ensures
            final(self).wf(),
            final(self).pieces == old(self).pieces,
            final(self).completed == old(self).completed,
            match r {
                None => {
                    &&& *final(self) == *old(self)
                    &&& forall|i: int, b: int| !old(self).spec_avail(i, b, peer_has@)
                },
                Some(blk) => {
                    let i = blk.piece as int;
                    let b = blk.begin as int / (BLOCK_SIZE as int);
                    &&& old(self).spec_avail(i, b, peer_has@)
                    &&& blk.begin == b * (BLOCK_SIZE as int)
                    &&& blk.length >= 1
                    &&& blk.length <= BLOCK_SIZE
                    &&& blk.begin + blk.length <= old(self).pieces@[i].length
                    &&& (blk.length == BLOCK_SIZE
                        || blk.begin + blk.length == old(self).pieces@[i].length)
                    &&& forall|i2: int, b2: int| i2 < i
                        ==> !old(self).spec_avail(i2, b2, peer_has@)
                    &&& forall|b2: int| b2 < b ==> !old(self).spec_avail(i, b2, peer_has@)
                    &&& final(self).assemblies@.len() == old(self).assemblies@.len()
                    &&& forall|j: int| 0 <= j < old(self).assemblies@.len() && j != i
                        ==> final(self).assemblies@[j] == old(self).assemblies@[j]
                    &&& final(self).assemblies@[i].claimed@
                        == old(self).assemblies@[i].claimed@.update(b, true)
                    &&& final(self).assemblies@[i].buf == old(self).assemblies@[i].buf
                    &&& final(self).assemblies@[i].covered == old(self).assemblies@[i].covered
                    &&& final(self).assemblies@[i].done == old(self).assemblies@[i].done
                },
            },
    {
        let mut i: usize = 0;
        while i < self.pieces.len()
            invariant
                self.wf(),
                *self == *old(self),
                i <= self.pieces@.len(),
                forall|i2: int, b2: int| 0 <= i2 < i
                    ==> !self.spec_avail(i2, b2, peer_has@),
            decreases self.pieces@.len() - i,
        {
            let wanted = i < peer_has.len() && peer_has[i] && !self.assemblies[i].done;
            if wanted {
                let len_p = self.pieces[i].length;
                let nb = num_blocks(len_p);
                let mut b: usize = 0;
                while b < nb
                    invariant
                        self.wf(),
                        *self == *old(self),
                        i < self.pieces@.len(),
                        i < peer_has@.len(),
                        peer_has@[i as int],
                        !self.assemblies@[i as int].done,
                        len_p == self.pieces@[i as int].length,
                        nb == spec_num_blocks(len_p),
                        b <= nb,
                        forall|i2: int, b2: int| 0 <= i2 < i
                            ==> !self.spec_avail(i2, b2, peer_has@),
                        forall|b2: int| 0 <= b2 < b
                            ==> !self.spec_avail(i as int, b2, peer_has@),
                    decreases nb - b,
                {
                    if !self.assemblies[i].claimed[b] {
                        proof {
                            lemma_block_bounds(len_p, b as int);
                        }
                        let begin: u32 = (b as u32) * BLOCK_SIZE;
                        let rem: u32 = len_p - begin;
                        let length: u32 = if rem >= BLOCK_SIZE {
                            BLOCK_SIZE
                        } else {
                            rem
                        };
                        proof {
                            assert(self.pieces@[i as int].index == i as int);
                        }
                        let a = vstd::std_specs::vec::vec_index_mut(&mut self.assemblies, i);
                        a.claimed[b] = true;
                        let blk = BlockRange { piece: i as u32, begin, length };
                        proof {
                            assert(blk.begin as int / (BLOCK_SIZE as int) == b) by {
                                vstd::arithmetic::div_mod::lemma_fundamental_div_mod_converse(
                                    blk.begin as int, BLOCK_SIZE as int, b as int, 0);
                            };
                        }
                        return Some(blk);
                    }
                    b = b + 1;
                }
            }
            i = i + 1;
        }
        None
    }

    /// Whether `self` accepts a block at (`piece`, `begin`) of `len`
    /// bytes: the piece exists, is not verified yet, and the range
    /// lies inside it.
    pub open spec fn spec_accepts(self, piece: u32, begin: u32, len: nat) -> bool {
        &&& piece < self.pieces@.len()
        &&& !self.assemblies@[piece as int].done
        &&& begin + len <= self.pieces@[piece as int].length
    }

    /// The full effect one `submit_block` call with these arguments
    /// has on the store, and the outcome it reports.
    pub open spec fn spec_submit_rel(
        pre: PieceStore,
        post: PieceStore,
        piece: u32,
        begin: u32,
        bytes: Seq<u8>,
        r: SubmitOutcome,
    ) -> bool {
        &&& post.pieces == pre.pieces
        &&& ((r == SubmitOutcome::Ignored) <==> !pre.spec_accepts(piece, begin, bytes.len()))
        &&& (r == SubmitOutcome::Ignored ==> post == pre)
        &&& (pre.spec_accepts(piece, begin, bytes.len()) ==> ({
            let i = piece as int;
            let newbuf = spec_write(pre.assemblies@[i].buf@, begin as int, bytes);
            let newcov = spec_cover(pre.assemblies@[i].covered@, begin as int, bytes.len() as int);
            &&& post.assemblies@.len() == pre.assemblies@.len()
            &&& forall|j: int| 0 <= j < pre.assemblies@.len() && j != i
                ==> post.assemblies@[j] == pre.assemblies@[j]
            &&& post.assemblies@[i].buf@ == newbuf
            &&& if !spec_full(newcov) {
                &&& r == SubmitOutcome::Stored
                &&& post.assemblies@[i].covered@ == newcov
                &&& post.assemblies@[i].claimed == pre.assemblies@[i].claimed
                &&& post.assemblies@[i].done == false
                &&& post.completed == pre.completed
            } else if sha1_of(newbuf) == pre.pieces@[i].hash@ {
                &&& r == SubmitOutcome::Completed
                &&& post.assemblies@[i].done == true
                &&& post.completed@.len() == pre.completed@.len() + 1
                &&& post.completed@.subrange(0, pre.completed@.len() as int) == pre.completed@
                &&& post.completed@.last().index == piece
                &&& post.completed@.last().data@ == newbuf
            } else {
                &&& r == SubmitOutcome::HashRejected
                &&& post.assemblies@[i].done == false
                &&& post.completed == pre.completed
                &&& forall|k: int| 0 <= k < pre.pieces@[i].length
                    ==> !(#[trigger] post.assemblies@[i].covered@[k])
                &&& forall|b: int| 0 <= b < spec_num_blocks(pre.pieces@[i].length)
                    ==> !(#[trigger] post.assemblies@[i].claimed@[b])
            }
        }))
    }

    /// Writes a received block into its piece's assembly, tolerating
    /// duplicate and overlapping ranges (last write wins) and dropping
    /// stale or out-of-range data. A write that completes the coverage
    /// triggers verification: a digest match appends the piece to the
    /// verified queue, once and for all; a mismatch resets coverage
    /// and claims so every block of the piece becomes work again.
    pub fn submit_block(&mut self, piece: u32, begin: u32, bytes: &Vec<u8>) -> (r: SubmitOutcome)
        requires
            old(self).wf(),
        ensures
            final(self).wf(),
            PieceStore::spec_submit_rel(*old(self), *final(self), piece, begin, bytes@, r),
    {
        let i = piece as usize;
        if i >= self.pieces.len() {
            return SubmitOutcome::Ignored;
        }
        if self.assemblies[i].done {
            return SubmitOutcome::Ignored;
        }
        let plen = self.pieces[i].length;
        if bytes.len() > plen as usize {
            return SubmitOutcome::Ignored;
        }
        if begin > plen - (bytes.len() as u32) {
            return SubmitOutcome::Ignored;
        }
        let a = vstd::std_specs::vec::vec_index_mut(&mut self.assemblies, i);
        a.write_block(begin as usize, bytes);
        if !self.assemblies[i].is_full() {
            return SubmitOutcome::Stored;
        }
        let digest = sha1_digest(&self.assemblies[i].buf);
        if bytes_eq(&digest, &self.pieces[i].hash) {
            let data = sub_vec(&self.assemblies[i].buf, 0, self.assemblies[i].buf.len());
            let a = vstd::std_specs::vec::vec_index_mut(&mut self.assemblies, i);
            a.done = true;
            self.completed.push(VerifiedPiece { index: piece, data });
            proof {
                assert(self.completed@.subrange(0, old(self).completed@.len() as int)
                    =~= old(self).completed@);
                assert(self.completed@.last().data@ =~= spec_write(
                    old(self).assemblies@[piece as int].buf@, begin as int, bytes@));
            }
            SubmitOutcome::Completed
        } else {
            let nb = num_blocks(plen);
            let a = vstd::std_specs::vec::vec_index_mut(&mut self.assemblies, i);
            a.covered = repeat_val(false, plen as usize);
            a.claimed = repeat_val(false, nb);
            SubmitOutcome::HashRejected
        }
    }

    /// Hands out the oldest verified piece not yet emitted, if any.
    pub fn poll_completed(&mut self) -> (r: Option<VerifiedPiece>)
        requires
            old(self).wf(),
        ensures
            final(self).wf(),
            final(self).pieces == old(self).pieces,
            final(self).assemblies == old(self).assemblies,
            match r {
                None => old(self).completed@.len() == 0 && *final(self) == *old(self),
                Some(p) => {
                    &&& old(self).completed@.len() >= 1
                    &&& p == old(self).completed@[0]
                    &&& final(self).completed@ == old(self).completed@.subrange(
                        1, old(self).completed@.len() as int)
                },
            },
    {
        if self.completed.len() == 0 {
            return None;
        }
        let p = self.completed.remove(0);
        proof {
            assert(self.completed@ =~= old(self).completed@.subrange(
                1, old(self).completed@.len() as int));
        }
        Some(p)
    }

    /// Returns one claimed block to the pool, as when its session
    /// closes or is choked. Data already written stays.
    pub fn unclaim_block(&mut self, blk: BlockRange)
        requires
            old(self).wf(),
        ensures
            final(self).wf(),
            final(self).pieces == old(self).pieces,
            final(self).completed == old(self).completed,
            final(self).assemblies@.len() == old(self).assemblies@.len(),
            ({
                let i = blk.piece as int;
                let b = blk.begin as int / (BLOCK_SIZE as int);
                if i < old(self).pieces@.len() && !old(self).assemblies@[i].done
                    && b < spec_num_blocks(old(self).pieces@[i].length) {
                    &&& forall|j: int| 0 <= j < old(self).assemblies@.len() && j != i
                        ==> final(self).assemblies@[j] == old(self).assemblies@[j]
                    &&& final(self).assemblies@[i].claimed@
                        == old(self).assemblies@[i].claimed@.update(b, false)
                    &&& final(self).assemblies@[i].buf == old(self).assemblies@[i].buf
                    &&& final(self).assemblies@[i].covered == old(self).assemblies@[i].covered
                    &&& final(self).assemblies@[i].done == old(self).assemblies@[i].done
                } else {
                    *final(self) == *old(self)
                }
            }),
    {
        let i = blk.piece as usize;
        if i >= self.pieces.len() {
            return;
        }
        if self.assemblies[i].done {
            return;
        }
        let b = (blk.begin / BLOCK_SIZE) as usize;
        let nb = num_blocks(self.pieces[i].length);
        if b >= nb {
            return;
        }
        let a = vstd::std_specs::vec::vec_index_mut(&mut self.assemblies, i);
        a.claimed[b] = false;
    }

    /// Returns every block in `blocks` to the pool, as when a session
    /// is closed and its outstanding requests are abandoned.
    pub fn release_blocks(&mut self, blocks: &Vec<BlockRange>)
        requires
            old(self).wf(),
        ensures
            final(self).wf(),
            final(self).pieces == old(self).pieces,
            final(self).completed == old(self).completed,
            final(self).assemblies@.len() == old(self).assemblies@.len(),
            forall|k: int| 0 <= k < blocks@.len() ==> ({
                let i = (#[trigger] blocks@[k]).piece as int;
                let b = blocks@[k].begin as int / (BLOCK_SIZE as int);
                (i < final(self).pieces@.len() && !final(self).assemblies@[i].done
                    && b < spec_num_blocks(final(self).pieces@[i].length))
                    ==> !final(self).assemblies@[i].claimed@[b]
            }),
            forall|i: int| 0 <= i < old(self).assemblies@.len()
                ==> (#[trigger] final(self).assemblies@[i]).done
                    == old(self).assemblies@[i].done,
            forall|i: int| 0 <= i < old(self).assemblies@.len()
                ==> (#[trigger] final(self).assemblies@[i]).buf
                    == old(self).assemblies@[i].buf,
            forall|i: int| 0 <= i < old(self).assemblies@.len()
                ==> (#[trigger] final(self).assemblies@[i]).covered
                    == old(self).assemblies@[i].covered,
    {
        let mut k: usize = 0;
        while k < blocks.len()
            invariant
                self.wf(),
                self.pieces == old(self).pieces,
                self.completed == old(self).completed,
                self.assemblies@.len() == old(self).assemblies@.len(),
                k <= blocks@.len(),
                forall|k2: int| 0 <= k2 < k ==> ({
                    let i = (#[trigger] blocks@[k2]).piece as int;
                    let b = blocks@[k2].begin as int / (BLOCK_SIZE as int);
                    (i < self.pieces@.len() && !self.assemblies@[i].done
                        && b < spec_num_blocks(self.pieces@[i].length))
                        ==> !self.assemblies@[i].claimed@[b]
                }),
                forall|i: int| 0 <= i < old(self).assemblies@.len()
                    ==> (#[trigger] self.assemblies@[i]).done
                        == old(self).assemblies@[i].done,
                forall|i: int| 0 <= i < old(self).assemblies@.len()
                    ==> (#[trigger] self.assemblies@[i]).buf
                        == old(self).assemblies@[i].buf,
                forall|i: int| 0 <= i < old(self).assemblies@.len()
                    ==> (#[trigger] self.assemblies@[i]).covered
                        == old(self).assemblies@[i].covered,
            decreases blocks@.len() - k,
        {
            self.unclaim_block(blocks[k]);
            k = k + 1;
        }
    }

    /// Whether every piece has verified.
    pub fn all_done(&self) -> (r: bool)
        requires
            self.wf(),
        ensures
            r == (forall|i: int| 0 <= i < self.assemblies@.len()
                ==> (#[trigger] self.assemblies@[i]).done),
    {
        let mut i: usize = 0;
        while i < self.assemblies.len()
            invariant
                i <= self.assemblies@.len(),
                forall|j: int| 0 <= j < i ==> (#[trigger] self.assemblies@[j]).done,
            decreases self.assemblies@.len() - i,
        {
            if !self.assemblies[i].done {
                return false;
            }
            i = i + 1;
        }
        true
    }
}

/// Law: a piece is emitted at most once, whatever arrives later: once
/// its assembly is done, a further submission for it — duplicate,
/// overlapping, or anything else — reports `Ignored` and changes
/// nothing, so nothing is ever appended to the verified queue again
/// on its behalf.
pub proof fn lemma_done_piece_is_settled(
    pre: PieceStore,
    post: PieceStore,
    piece: u32,
    begin: u32,
    bytes: Seq<u8>,
    r: SubmitOutcome,
)
    requires
        piece < pre.pieces@.len(),
        pre.assemblies@[piece as int].done,
        PieceStore::spec_submit_rel(pre, post, piece, begin, bytes, r),
    ensures
        r == SubmitOutcome::Ignored,
        post == pre,
{
}

/// The begin offset and remainder of block `b` of a piece of `len`
/// bytes stay in range.
proof fn lemma_block_bounds(len: u32, b: int)
    requires
        len >= 1,
        0 <= b < spec_num_blocks(len),
    ensures
        b * (BLOCK_SIZE as int) < len,
{
    let bs = BLOCK_SIZE as int;
    let nb = spec_num_blocks(len);
    vstd::arithmetic::div_mod::lemma_fundamental_div_mod(len + bs - 1, bs);
    assert((b + 1) * bs <= nb * bs) by {
        vstd::arithmetic::mul::lemma_mul_inequality(b + 1, nb, bs);
    };
    assert((b + 1) * bs == b * bs + bs) by {
        vstd::arithmetic::mul::lemma_mul_is_distributive_add_other_way(bs, b, 1);
    };
}

/// Computes how many blocks a piece of `len` bytes splits into.
pub fn num_blocks(len: u32) -> (r: usize)
    ensures
        r == spec_num_blocks(len),
{
    (((len as u64) + (BLOCK_SIZE as u64) - 1) / (BLOCK_SIZE as u64)) as usize
}

} // verus!
