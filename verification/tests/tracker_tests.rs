use minibit::tracker::{build_announce_url, encode_binary, parse_compact_peers, parse_tracker_response, PeerAddr};
use minibit::udp::{
    build_announce_request, build_connect_request, parse_announce_response, parse_connect_response,
    TrackerAnnounceState, UdpPhase,
};
use minibit::TransferError;

#[test]
fn compact_peers_decode_per_six_bytes() {
    let b = vec![1, 2, 3, 4, 0x1a, 0xe1, 10, 0, 0, 1, 0, 80];
    let peers = parse_compact_peers(&b).unwrap();
    assert_eq!(peers.len(), 2);
    assert_eq!(peers[0], PeerAddr { o1: 1, o2: 2, o3: 3, o4: 4, port: 6881 });
    assert_eq!(peers[1], PeerAddr { o1: 10, o2: 0, o3: 0, o4: 1, port: 80 });
}

#[test]
fn compact_peers_length_not_multiple_of_six_is_rejected() {
    let b = vec![1, 2, 3, 4, 0x1a, 0xe1, 9];
    assert!(matches!(parse_compact_peers(&b), Err(TransferError::DecodeError)));
    assert_eq!(parse_compact_peers(&Vec::new()).unwrap().len(), 0);
}

// The bencoded response `d8:intervali1800e5:peers6:<6 raw bytes>e`
// decodes to exactly one peer matching those bytes.
#[test]
fn http_response_with_six_raw_peer_bytes_gives_one_peer() {
    let mut body = b"d8:intervali1800e5:peers6:".to_vec();
    body.extend_from_slice(&[192, 168, 0, 9, 0x1a, 0xe1]);
    body.push(b'e');
    let resp = parse_tracker_response(&body).unwrap();
    assert_eq!(resp.peers.len(), 1);
    assert_eq!(resp.peers[0], PeerAddr { o1: 192, o2: 168, o3: 0, o4: 9, port: 6881 });
}

#[test]
fn http_response_non_compact_dictionaries() {
    let body = b"d5:peersld2:ip7:1.2.3.44:porti6881eed2:ip7:5.6.7.84:porti80eeee".to_vec();
    let resp = parse_tracker_response(&body).unwrap();
    assert_eq!(resp.peers.len(), 2);
    assert_eq!(resp.peers[0], PeerAddr { o1: 1, o2: 2, o3: 3, o4: 4, port: 6881 });
    assert_eq!(resp.peers[1], PeerAddr { o1: 5, o2: 6, o3: 7, o4: 8, port: 80 });
}

#[test]
fn http_response_failure_reason_is_terminal_and_carries_message() {
    let body = b"d14:failure reason4:oopse".to_vec();
    match parse_tracker_response(&body) {
        Err(TransferError::TrackerFailure(m)) => assert_eq!(m, b"oops".to_vec()),
        _ => panic!("expected the tracker's failure message"),
    }
}

#[test]
fn http_response_bad_compact_length_is_decode_error() {
    let mut body = b"d5:peers7:".to_vec();
    body.extend_from_slice(&[1, 2, 3, 4, 5, 6, 7]);
    body.push(b'e');
    assert!(matches!(parse_tracker_response(&body), Err(TransferError::DecodeError)));
}

#[test]
fn percent_encoding_keeps_unreserved_and_escapes_the_rest() {
    let r = encode_binary(&b"AZaz09-._~".to_vec());
    assert_eq!(r, b"AZaz09-._~".to_vec());
    let r2 = encode_binary(&vec![0x00, 0x1a, 0xff, b' ']);
    assert_eq!(r2, b"%00%1A%FF%20".to_vec());
}

#[test]
fn announce_url_layout() {
    let url = build_announce_url(
        &b"http://t/a".to_vec(),
        &vec![0xaa; 20],
        &b"ABCDEFGHIJKLMNOPQRST".to_vec(),
        6881,
        0,
        0,
        7,
    );
    let mut expected = b"http://t/a?info_hash=".to_vec();
    for _ in 0..20 {
        expected.extend_from_slice(b"%AA");
    }
    expected.extend_from_slice(b"&peer_id=ABCDEFGHIJKLMNOPQRST");
    expected.extend_from_slice(b"&port=6881&uploaded=0&downloaded=0&left=7&compact=1");
    assert_eq!(url, expected);
}

#[test]
fn udp_connect_request_layout() {
    let pkt = build_connect_request(0x01020304);
    assert_eq!(pkt.len(), 16);
    assert_eq!(&pkt[0..8], &[0x00, 0x00, 0x04, 0x17, 0x27, 0x10, 0x19, 0x80]);
    assert_eq!(&pkt[8..12], &[0, 0, 0, 0]);
    assert_eq!(&pkt[12..16], &[1, 2, 3, 4]);
}

#[test]
fn udp_connect_response_checks_action_and_txn() {
    let mut reply = vec![0u8; 16];
    reply[4..8].copy_from_slice(&[1, 2, 3, 4]);
    reply[8..16].copy_from_slice(&[0, 0, 0, 0, 0, 0, 0, 9]);
    assert_eq!(parse_connect_response(&reply, 0x01020304), Some(9));
    // wrong transaction id
    assert_eq!(parse_connect_response(&reply, 0x01020305), None);
    // wrong action
    let mut bad = reply.clone();
    bad[3] = 1;
    assert_eq!(parse_connect_response(&bad, 0x01020304), None);
    // too short
    assert_eq!(parse_connect_response(&reply[0..12].to_vec(), 0x01020304), None);
}

#[test]
fn udp_announce_request_layout() {
    let infohash = vec![0x11; 20];
    let peer_id = vec![0x22; 20];
    let pkt = build_announce_request(9, 0x0a0b0c0d, &infohash, &peer_id, 1, 7, 2, 6881);
    assert_eq!(pkt.len(), 98);
    assert_eq!(&pkt[0..8], &[0, 0, 0, 0, 0, 0, 0, 9]);
    assert_eq!(&pkt[8..12], &[0, 0, 0, 1]);
    assert_eq!(&pkt[12..16], &[0x0a, 0x0b, 0x0c, 0x0d]);
    assert_eq!(&pkt[16..36], infohash.as_slice());
    assert_eq!(&pkt[36..56], peer_id.as_slice());
    assert_eq!(&pkt[56..64], &[0, 0, 0, 0, 0, 0, 0, 1]); // downloaded
    assert_eq!(&pkt[64..72], &[0, 0, 0, 0, 0, 0, 0, 7]); // left
    assert_eq!(&pkt[72..80], &[0, 0, 0, 0, 0, 0, 0, 2]); // uploaded
    assert_eq!(&pkt[80..84], &[0, 0, 0, 0]); // event
    assert_eq!(&pkt[84..88], &[0, 0, 0, 0]); // ip
    assert_eq!(&pkt[88..92], &[0, 0, 0, 0]); // key
    assert_eq!(&pkt[92..96], &[0xff, 0xff, 0xff, 0xff]); // num_want = -1
    assert_eq!(&pkt[96..98], &[0x1a, 0xe1]); // port 6881
}

fn announce_reply(txn: u32, peers: &[u8]) -> Vec<u8> {
    let mut r = vec![0, 0, 0, 1];
    r.extend_from_slice(&txn.to_be_bytes());
    r.extend_from_slice(&[0, 0, 7, 8]); // interval
    r.extend_from_slice(&[0, 0, 0, 2]); // leechers
    r.extend_from_slice(&[0, 0, 0, 3]); // seeders
    r.extend_from_slice(peers);
    r
}

#[test]
fn udp_announce_response_reads_counters_and_peers() {
    let reply = announce_reply(5, &[9, 8, 7, 6, 0x00, 0x50]);
    let rep = parse_announce_response(&reply, 5).unwrap();
    assert_eq!(rep.interval, 0x0708);
    assert_eq!(rep.leechers, 2);
    assert_eq!(rep.seeders, 3);
    assert_eq!(rep.peers.len(), 1);
    assert_eq!(rep.peers[0], PeerAddr { o1: 9, o2: 8, o3: 7, o4: 6, port: 80 });
    assert!(parse_announce_response(&reply, 6).is_none());
}

// A response whose transaction id does not match the most recent
// request is discarded and the request is retried; it is never taken
// for a successful empty response.
#[test]
fn udp_state_machine_discards_mismatched_replies() {
    let infohash = vec![0x11; 20];
    let peer_id = vec![0x22; 20];
    let mut st = TrackerAnnounceState::new(2);
    let pkt = st.begin_connect(7);
    assert_eq!(pkt, build_connect_request(7));
    assert_eq!(st.phase, UdpPhase::AwaitingConnect);

    // a stale reply for some other transaction id
    let mut stale = vec![0u8; 16];
    stale[4..8].copy_from_slice(&8u32.to_be_bytes());
    let r = st.on_connect_reply(&stale, 21, &infohash, &peer_id, 0, 7, 0, 6881);
    assert!(r.is_none());
    assert_eq!(st.phase, UdpPhase::AwaitingConnect);
    assert_eq!(st.txn_id, 7);

    // the timeout spends a retry, and the request goes out again
    assert!(st.on_timeout());
    assert_eq!(st.phase, UdpPhase::AwaitingConnect);

    // the genuine reply moves the attempt on
    let mut good = vec![0u8; 16];
    good[4..8].copy_from_slice(&7u32.to_be_bytes());
    good[8..16].copy_from_slice(&13u64.to_be_bytes());
    let announce = st.on_connect_reply(&good, 21, &infohash, &peer_id, 0, 7, 0, 6881).unwrap();
    assert_eq!(st.phase, UdpPhase::AwaitingAnnounce);
    assert_eq!(st.connection_id, 13);
    assert_eq!(announce, build_announce_request(13, 21, &infohash, &peer_id, 0, 7, 0, 6881));

    // a mismatched announce reply is discarded too
    let stale2 = announce_reply(22, &[1, 2, 3, 4, 0, 80]);
    assert!(!st.on_announce_reply(&stale2));
    assert_eq!(st.phase, UdpPhase::AwaitingAnnounce);
    assert_eq!(st.peers.len(), 0);

    // the genuine one finishes with the peer list
    let good2 = announce_reply(21, &[1, 2, 3, 4, 0, 80]);
    assert!(st.on_announce_reply(&good2));
    assert_eq!(st.phase, UdpPhase::Done);
    assert_eq!(st.peers, vec![PeerAddr { o1: 1, o2: 2, o3: 3, o4: 4, port: 80 }]);
}

#[test]
fn udp_announce_ragged_peer_region_is_rejected() {
    // five trailing bytes: not a whole peer record
    let reply = announce_reply(5, &[9, 8, 7, 6, 0x00]);
    assert!(parse_announce_response(&reply, 5).is_none());
    // and through the state machine the reply is discarded, the state unmoved
    let infohash = vec![0x11; 20];
    let peer_id = vec![0x22; 20];
    let mut st = TrackerAnnounceState::new(1);
    st.begin_connect(7);
    let mut good = vec![0u8; 16];
    good[4..8].copy_from_slice(&7u32.to_be_bytes());
    st.on_connect_reply(&good, 5, &infohash, &peer_id, 0, 7, 0, 6881).unwrap();
    assert!(!st.on_announce_reply(&reply));
    assert_eq!(st.phase, UdpPhase::AwaitingAnnounce);
}

#[test]
fn udp_connection_id_expiry_repeats_connect() {
    let infohash = vec![0x11; 20];
    let peer_id = vec![0x22; 20];
    let mut st = TrackerAnnounceState::new(2);
    st.begin_connect(7);
    let mut good = vec![0u8; 16];
    good[4..8].copy_from_slice(&7u32.to_be_bytes());
    good[8..16].copy_from_slice(&13u64.to_be_bytes());
    st.on_connect_reply(&good, 21, &infohash, &peer_id, 0, 7, 0, 6881).unwrap();
    assert_eq!(st.phase, UdpPhase::AwaitingAnnounce);
    let pkt = st.on_connection_expired(33);
    assert_eq!(pkt, build_connect_request(33));
    assert_eq!(st.phase, UdpPhase::AwaitingConnect);
    assert_eq!(st.txn_id, 33);
    assert_eq!(st.retries_left, 2);
}

#[test]
fn non_compact_leading_zero_octet_is_rejected() {
    let body = b"d5:peersld2:ip8:01.2.3.44:porti6881eeee".to_vec();
    assert!(matches!(parse_tracker_response(&body), Err(TransferError::DecodeError)));
}

#[test]
fn udp_retry_budget_exhaustion_is_unreachable_not_empty() {
    let mut st = TrackerAnnounceState::new(1);
    st.begin_connect(3);
    assert!(st.on_timeout());
    assert!(!st.on_timeout());
    assert_eq!(st.phase, UdpPhase::Failed);
    assert_eq!(st.peers.len(), 0);
}
