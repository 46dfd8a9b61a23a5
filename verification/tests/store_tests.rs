use minibit::store::{BlockRange, PieceSpec, PieceStore, SubmitOutcome, BLOCK_SIZE};
use minibit::session::{PeerConnectionState, SessionState};
use minibit::wire::{Handshake, Message};
use minibit::TransferError;
use sha1::Digest;

fn sha1_of(data: &[u8]) -> Vec<u8> {
    sha1::Sha1::digest(data).to_vec()
}

fn store_for(contents: &[&[u8]]) -> PieceStore {
    let mut specs = Vec::new();
    for (i, c) in contents.iter().enumerate() {
        specs.push(PieceSpec { index: i as u32, length: c.len() as u32, hash: sha1_of(c) });
    }
    PieceStore::new(specs)
}

#[test]
fn matching_piece_is_emitted_exactly_once_despite_duplicates() {
    let data = b"abcd";
    let mut store = store_for(&[data]);
    assert!(matches!(store.submit_block(0, 0, &b"ab".to_vec()), SubmitOutcome::Stored));
    // an overlapping duplicate of the same canonical bytes
    assert!(matches!(store.submit_block(0, 1, &b"bc".to_vec()), SubmitOutcome::Stored));
    assert!(matches!(store.submit_block(0, 2, &b"cd".to_vec()), SubmitOutcome::Completed));
    // late duplicates change nothing once the piece verified
    assert!(matches!(store.submit_block(0, 0, &b"ab".to_vec()), SubmitOutcome::Ignored));
    let p = store.poll_completed().unwrap();
    assert_eq!(p.index, 0);
    assert_eq!(p.data, data.to_vec());
    assert!(store.poll_completed().is_none());
    assert!(store.all_done());
}

#[test]
fn tampered_piece_is_never_emitted_and_blocks_become_work_again() {
    let data = b"abcd";
    let mut store = store_for(&[data]);
    let peer_has = vec![true];
    let blk = store.next_work(&peer_has).unwrap();
    assert_eq!(blk, BlockRange { piece: 0, begin: 0, length: 4 });
    // the whole piece claimed: no more work
    assert!(store.next_work(&peer_has).is_none());
    // a single byte flipped
    assert!(matches!(store.submit_block(0, 0, &b"abXd".to_vec()), SubmitOutcome::HashRejected));
    assert!(store.poll_completed().is_none());
    assert!(!store.all_done());
    // the claim was released: the block is work again
    let again = store.next_work(&peer_has).unwrap();
    assert_eq!(again, BlockRange { piece: 0, begin: 0, length: 4 });
    // resupplied correctly, the piece verifies
    assert!(matches!(store.submit_block(0, 0, &b"abcd".to_vec()), SubmitOutcome::Completed));
    let p = store.poll_completed().unwrap();
    assert_eq!(p.data, data.to_vec());
}

#[test]
fn out_of_range_data_is_ignored() {
    let mut store = store_for(&[b"abcd"]);
    assert!(matches!(store.submit_block(0, 3, &b"xy".to_vec()), SubmitOutcome::Ignored));
    assert!(matches!(store.submit_block(7, 0, &b"xy".to_vec()), SubmitOutcome::Ignored));
}

#[test]
fn next_work_is_deterministic_lowest_first() {
    let mut store = store_for(&[b"abcd", b"efg"]);
    let peer_has = vec![true, true];
    let b0 = store.next_work(&peer_has).unwrap();
    assert_eq!(b0, BlockRange { piece: 0, begin: 0, length: 4 });
    let b1 = store.next_work(&peer_has).unwrap();
    assert_eq!(b1, BlockRange { piece: 1, begin: 0, length: 3 });
    assert!(store.next_work(&peer_has).is_none());
    // a second identical store makes the same first claim
    let mut store2 = store_for(&[b"abcd", b"efg"]);
    assert_eq!(store2.next_work(&peer_has).unwrap(), b0);
}

#[test]
fn next_work_respects_peer_pieces_and_released_claims() {
    let mut store = store_for(&[b"abcd", b"efg"]);
    let only_second = vec![false, true];
    let blk = store.next_work(&only_second).unwrap();
    assert_eq!(blk.piece, 1);
    store.unclaim_block(blk);
    let blk2 = store.next_work(&only_second).unwrap();
    assert_eq!(blk2, blk);
}

#[test]
fn large_piece_splits_into_capped_blocks() {
    let data = vec![7u8; BLOCK_SIZE as usize + 100];
    let mut specs = Vec::new();
    specs.push(PieceSpec { index: 0, length: data.len() as u32, hash: sha1_of(&data) });
    let mut store = PieceStore::new(specs);
    let peer_has = vec![true];
    let b0 = store.next_work(&peer_has).unwrap();
    assert_eq!(b0, BlockRange { piece: 0, begin: 0, length: BLOCK_SIZE });
    let b1 = store.next_work(&peer_has).unwrap();
    assert_eq!(b1, BlockRange { piece: 0, begin: BLOCK_SIZE, length: 100 });
    assert!(store.next_work(&peer_has).is_none());
}

// The 2-piece scenario: piece length 4, total length 7, one peer with
// both pieces, blocks requested and then received in reverse order.
#[test]
fn two_piece_reverse_order_download() {
    let mut store = store_for(&[b"abcd", b"efg"]);
    let mut conn = PeerConnectionState::new(2);
    conn.on_connected();
    let expected = b"ABCDEFGHIJKLMNOPQRST".to_vec();
    let peer_id = b"UVWXYZ0123456789uvwx".to_vec();
    let reply = Handshake::new(expected.clone(), peer_id).to_bytes();
    conn.on_handshake_reply(&expected, &reply).unwrap();
    let m = conn.declare_interest();
    assert!(matches!(m, Message::Interested));
    assert_eq!(conn.state, SessionState::Choked);
    // bitfield 0b11000000: the peer advertises both pieces
    conn.on_message(&mut store, &Message::Bitfield(vec![0b1100_0000]));
    conn.on_message(&mut store, &Message::Unchoke);
    assert_eq!(conn.state, SessionState::Unchoked);
    let requests = conn.fill_requests(&mut store, 5);
    assert_eq!(requests.len(), 2);
    assert!(matches!(requests[0], Message::Request { index: 0, begin: 0, length: 4 }));
    assert!(matches!(requests[1], Message::Request { index: 1, begin: 0, length: 3 }));
    // blocks arrive in reverse order: piece 1 first, then piece 0
    let r1 = conn.on_message(
        &mut store,
        &Message::Piece { index: 1, begin: 0, block: b"efg".to_vec() },
    );
    assert!(matches!(r1, Some(SubmitOutcome::Completed)));
    let r0 = conn.on_message(
        &mut store,
        &Message::Piece { index: 0, begin: 0, block: b"abcd".to_vec() },
    );
    assert!(matches!(r0, Some(SubmitOutcome::Completed)));
    assert!(conn.outstanding.is_empty());
    assert!(store.all_done());
    // both pieces emitted, each exactly once, bytes in original order
    let mut got = vec![None, None];
    while let Some(p) = store.poll_completed() {
        let i = p.index as usize;
        assert!(got[i].is_none(), "piece emitted twice");
        got[i] = Some(p.data);
    }
    assert_eq!(got[0].as_ref().unwrap(), &b"abcd".to_vec());
    assert_eq!(got[1].as_ref().unwrap(), &b"efg".to_vec());
}

// A handshake reply naming a different torrent closes the session
// before any request could be issued on it.
#[test]
fn wrong_infohash_closes_session_before_any_request() {
    let mut store = store_for(&[b"abcd"]);
    let mut conn = PeerConnectionState::new(1);
    conn.on_connected();
    let expected = b"ABCDEFGHIJKLMNOPQRST".to_vec();
    let other = b"abcdefghijklmnopqrst".to_vec();
    let peer_id = b"UVWXYZ0123456789uvwx".to_vec();
    let reply = Handshake::new(other, peer_id).to_bytes();
    let r = conn.on_handshake_reply(&expected, &reply);
    assert!(matches!(r, Err(TransferError::HandshakeMismatch)));
    assert_eq!(conn.state, SessionState::Closed);
    assert!(conn.outstanding.is_empty());
    // nothing was ever claimed from the store on this session's behalf
    let mut fresh = store_for(&[b"abcd"]);
    let claimed_in_fresh = fresh.next_work(&vec![true]).unwrap();
    let claimed_here = store.next_work(&vec![true]).unwrap();
    assert_eq!(claimed_in_fresh, claimed_here);
}

#[test]
fn choke_returns_outstanding_blocks_to_the_pool() {
    let mut store = store_for(&[b"abcd"]);
    let mut conn = PeerConnectionState::new(1);
    conn.on_connected();
    let expected = b"ABCDEFGHIJKLMNOPQRST".to_vec();
    let peer_id = b"UVWXYZ0123456789uvwx".to_vec();
    let reply = Handshake::new(expected.clone(), peer_id).to_bytes();
    conn.on_handshake_reply(&expected, &reply).unwrap();
    conn.declare_interest();
    conn.on_message(&mut store, &Message::Have(0));
    conn.on_message(&mut store, &Message::Unchoke);
    let requests = conn.fill_requests(&mut store, 5);
    assert_eq!(requests.len(), 1);
    assert!(store.next_work(&vec![true]).is_none());
    conn.on_message(&mut store, &Message::Choke);
    assert_eq!(conn.state, SessionState::Choked);
    assert!(conn.outstanding.is_empty());
    // the abandoned block is available again
    assert!(store.next_work(&vec![true]).is_some());
}

#[test]
fn close_releases_claims_for_other_sessions() {
    let mut store = store_for(&[b"abcd"]);
    let mut conn = PeerConnectionState::new(1);
    conn.on_connected();
    let expected = b"ABCDEFGHIJKLMNOPQRST".to_vec();
    let peer_id = b"UVWXYZ0123456789uvwx".to_vec();
    let reply = Handshake::new(expected.clone(), peer_id).to_bytes();
    conn.on_handshake_reply(&expected, &reply).unwrap();
    conn.declare_interest();
    conn.on_message(&mut store, &Message::Bitfield(vec![0b1000_0000]));
    conn.on_message(&mut store, &Message::Unchoke);
    conn.fill_requests(&mut store, 5);
    conn.close(&mut store);
    assert_eq!(conn.state, SessionState::Closed);
    assert!(store.next_work(&vec![true]).is_some());
}
