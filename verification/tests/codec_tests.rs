use minibit::bencode::{decode_value, BValue};
use minibit::engine::{bytes_left, generate_peer_id, is_magnet_target, plan_pieces, tracker_kind, TrackerKind};
use minibit::magnet::parse_magnet_link;
use minibit::metainfo::TorrentFile;
use minibit::TransferError;
use sha1::Digest;

#[test]
fn bencode_ints_and_strings() {
    match decode_value(&b"i42e".to_vec()).unwrap() {
        BValue::Int(x) => assert_eq!(x, 42),
        _ => panic!("wrong kind"),
    }
    match decode_value(&b"i-5e".to_vec()).unwrap() {
        BValue::Int(x) => assert_eq!(x, -5),
        _ => panic!("wrong kind"),
    }
    match decode_value(&b"4:spam".to_vec()).unwrap() {
        BValue::Bytes(b) => assert_eq!(b, b"spam".to_vec()),
        _ => panic!("wrong kind"),
    }
    match decode_value(&b"0:".to_vec()).unwrap() {
        BValue::Bytes(b) => assert_eq!(b.len(), 0),
        _ => panic!("wrong kind"),
    }
}

#[test]
fn bencode_lists_and_dicts() {
    match decode_value(&b"l4:spami7ee".to_vec()).unwrap() {
        BValue::List(items) => {
            assert_eq!(items.len(), 2);
            assert!(matches!(&items[0], BValue::Bytes(b) if b == &b"spam".to_vec()));
            assert!(matches!(&items[1], BValue::Int(7)));
        },
        _ => panic!("wrong kind"),
    }
    match decode_value(&b"d3:cow3:moo4:spaml1:aee".to_vec()).unwrap() {
        BValue::Dict(pairs) => {
            assert_eq!(pairs.len(), 2);
            assert_eq!(pairs[0].0, b"cow".to_vec());
            assert!(matches!(&pairs[0].1, BValue::Bytes(b) if b == &b"moo".to_vec()));
            assert_eq!(pairs[1].0, b"spam".to_vec());
        },
        _ => panic!("wrong kind"),
    }
}

#[test]
fn bencode_malformed_inputs_fail() {
    assert!(matches!(decode_value(&b"i42".to_vec()), Err(TransferError::DecodeError)));
    assert!(matches!(decode_value(&b"ie".to_vec()), Err(TransferError::DecodeError)));
    assert!(matches!(decode_value(&b"5:spam".to_vec()), Err(TransferError::DecodeError)));
    assert!(matches!(decode_value(&b"i42ex".to_vec()), Err(TransferError::DecodeError)));
    assert!(matches!(
        decode_value(&b"i99999999999999999999999e".to_vec()),
        Err(TransferError::DecodeError)
    ));
    assert!(matches!(decode_value(&Vec::new()), Err(TransferError::DecodeError)));
}

fn torrent_doc(pieces: &[u8]) -> Vec<u8> {
    let mut d =
        b"d8:announce10:http://t/a4:infod6:lengthi7e4:name3:abc12:piece lengthi4e6:pieces"
            .to_vec();
    d.extend_from_slice(format!("{}:", pieces.len()).as_bytes());
    d.extend_from_slice(pieces);
    d.extend_from_slice(b"ee");
    d
}

fn two_piece_hashes() -> Vec<u8> {
    let mut pieces = Vec::new();
    pieces.extend_from_slice(&sha1::Sha1::digest(b"abcd"));
    pieces.extend_from_slice(&sha1::Sha1::digest(b"efg"));
    pieces
}

#[test]
fn torrent_file_decodes_fields() {
    let doc = torrent_doc(&two_piece_hashes());
    let tf = TorrentFile::from_bytes(&doc).unwrap();
    assert_eq!(tf.torrent.announce, b"http://t/a".to_vec());
    assert!(tf.torrent.announce_list.is_none());
    assert_eq!(tf.torrent.info.name, b"abc".to_vec());
    assert_eq!(tf.torrent.info.length, 7);
    assert_eq!(tf.torrent.info.piece_length, 4);
    assert_eq!(tf.torrent.info.pieces, two_piece_hashes());
    assert!(tf.torrent.info.files.is_none());
    assert_eq!(tf.torrent.info.total_length(), 7);
    let hashes = tf.torrent.info.piece_hashes().unwrap();
    assert_eq!(hashes.len(), 2);
    assert_eq!(hashes[0], sha1::Sha1::digest(b"abcd").to_vec());
    assert_eq!(hashes[1], sha1::Sha1::digest(b"efg").to_vec());
}

// The infohash is the SHA-1 of the bencoded info record exactly as
// received, and repeated computation gives the same bytes.
#[test]
fn infohash_is_sha1_of_received_info_bytes_and_stable() {
    let doc = torrent_doc(&two_piece_hashes());
    let tf1 = TorrentFile::from_bytes(&doc).unwrap();
    let tf2 = TorrentFile::from_bytes(&doc).unwrap();
    assert_eq!(tf1.info_hash, tf2.info_hash);
    // the info value starts right after the key `4:info` and runs to
    // the matching final `e` of the document
    let start = b"d8:announce10:http://t/a4:info".len();
    let end = doc.len() - 1;
    let expected = sha1::Sha1::digest(&doc[start..end]).to_vec();
    assert_eq!(tf1.info_hash, expected);
}

#[test]
fn torrent_file_multi_file_lengths_sum() {
    let doc = b"d8:announce9:udp://t/x4:infod5:filesld6:lengthi3e4:pathl1:aeed6:lengthi4e4:pathl1:b1:ceee4:name3:abc12:piece lengthi4e6:pieces0:ee".to_vec();
    let tf = TorrentFile::from_bytes(&doc).unwrap();
    let files = tf.torrent.info.files.as_ref().unwrap();
    assert_eq!(files.len(), 2);
    assert_eq!(files[0].length, 3);
    assert_eq!(files[0].path, vec![b"a".to_vec()]);
    assert_eq!(files[1].length, 4);
    assert_eq!(files[1].path, vec![b"b".to_vec(), b"c".to_vec()]);
    assert_eq!(tf.torrent.info.total_length(), 7);
}

#[test]
fn torrent_file_uneven_digests_rejected() {
    let doc = torrent_doc(&vec![0u8; 41]);
    assert!(matches!(TorrentFile::from_bytes(&doc), Err(TransferError::DecodeError)));
    assert!(matches!(TorrentFile::from_bytes(&b"not bencode".to_vec()), Err(TransferError::DecodeError)));
}

#[test]
fn magnet_hex_form() {
    let mut link = b"magnet:?xt=urn:btih:".to_vec();
    for _ in 0..20 {
        link.extend_from_slice(b"aa");
    }
    link.extend_from_slice(b"&tr=http%3A%2F%2Ft%2Fa&tr=udp%3A%2F%2Fu%2Fb&dn=My+File");
    let m = parse_magnet_link(&link).unwrap();
    assert_eq!(m.infohash, vec![0xaa; 20]);
    assert_eq!(m.trackers, vec![b"http://t/a".to_vec(), b"udp://u/b".to_vec()]);
    assert_eq!(m.display_name, Some(b"My File".to_vec()));
}

#[test]
fn magnet_uppercase_hex_form() {
    let mut link = b"magnet:?xt=urn:btih:".to_vec();
    for _ in 0..20 {
        link.extend_from_slice(b"0F");
    }
    let m = parse_magnet_link(&link).unwrap();
    assert_eq!(m.infohash, vec![0x0f; 20]);
    assert!(m.trackers.is_empty());
    assert!(m.display_name.is_none());
}

#[test]
fn magnet_base32_form() {
    let mut link = b"magnet:?xt=urn:btih:".to_vec();
    link.extend_from_slice(&[b'a'; 32]);
    let m = parse_magnet_link(&link).unwrap();
    assert_eq!(m.infohash, vec![0u8; 20]);

    let mut link2 = b"magnet:?xt=urn:btih:".to_vec();
    link2.extend_from_slice(&[b'7'; 32]);
    let m2 = parse_magnet_link(&link2).unwrap();
    assert_eq!(m2.infohash, vec![0xff; 20]);
}

#[test]
fn magnet_scheme_matches_in_either_case() {
    let mut link = b"MAGNET:?xt=urn:btih:".to_vec();
    for _ in 0..20 {
        link.extend_from_slice(b"aa");
    }
    let m = parse_magnet_link(&link).unwrap();
    assert_eq!(m.infohash, vec![0xaa; 20]);
    assert!(is_magnet_target(&b"Magnet:?xt=x".to_vec()));
}

#[test]
fn magnet_malformed_is_rejected() {
    assert!(matches!(
        parse_magnet_link(&b"http://not-magnet".to_vec()),
        Err(TransferError::DecodeError)
    ));
    assert!(matches!(
        parse_magnet_link(&b"magnet:?dn=x".to_vec()),
        Err(TransferError::DecodeError)
    ));
    // 39 hex characters: neither spelling
    let mut short = b"magnet:?xt=urn:btih:".to_vec();
    short.extend_from_slice(&[b'a'; 39]);
    assert!(matches!(parse_magnet_link(&short), Err(TransferError::DecodeError)));
    // the right length but a stray character
    let mut stray = b"magnet:?xt=urn:btih:".to_vec();
    stray.extend_from_slice(&[b'a'; 39]);
    stray.push(b'!');
    assert!(matches!(parse_magnet_link(&stray), Err(TransferError::DecodeError)));
}

#[test]
fn peer_id_has_client_tag() {
    let id = generate_peer_id();
    assert_eq!(id.len(), 20);
    assert_eq!(&id[0..8], b"-RS0001-");
}

#[test]
fn target_and_tracker_classification() {
    assert!(is_magnet_target(&b"magnet:?xt=x".to_vec()));
    assert!(!is_magnet_target(&b"file.torrent".to_vec()));
    assert_eq!(tracker_kind(&b"http://t/a".to_vec()), TrackerKind::Http);
    assert_eq!(tracker_kind(&b"https://t/a".to_vec()), TrackerKind::Http);
    assert_eq!(tracker_kind(&b"udp://t:80".to_vec()), TrackerKind::Udp);
    assert_eq!(tracker_kind(&b"wss://t".to_vec()), TrackerKind::Unsupported);
}

#[test]
fn left_counts_remaining_bytes() {
    assert_eq!(bytes_left(7, 0), 7);
    assert_eq!(bytes_left(7, 4), 3);
    assert_eq!(bytes_left(7, 7), 0);
}

#[test]
fn piece_plan_lengths() {
    let doc = torrent_doc(&two_piece_hashes());
    let tf = TorrentFile::from_bytes(&doc).unwrap();
    let total = tf.torrent.info.total_length();
    let specs = plan_pieces(&tf.torrent.info, total).unwrap();
    assert_eq!(specs.len(), 2);
    assert_eq!(specs[0].index, 0);
    assert_eq!(specs[0].length, 4);
    assert_eq!(specs[0].hash, sha1::Sha1::digest(b"abcd").to_vec());
    assert_eq!(specs[1].index, 1);
    assert_eq!(specs[1].length, 3);
    assert_eq!(specs[1].hash, sha1::Sha1::digest(b"efg").to_vec());
}

#[test]
fn piece_plan_rejects_inconsistent_counts() {
    let doc = torrent_doc(&two_piece_hashes());
    let tf = TorrentFile::from_bytes(&doc).unwrap();
    // 2 digests cannot cover 9 bytes of 4-byte pieces
    assert!(matches!(plan_pieces(&tf.torrent.info, 9), Err(TransferError::DecodeError)));
}
