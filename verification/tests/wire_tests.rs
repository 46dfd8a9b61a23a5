use minibit::wire::{decode_frame, decode_message, encode_message, parse_handshake, Handshake, Message, MsgId};
use minibit::wire::{bitfield_has, bitfield_to_flags, protocol_label};
use minibit::TransferError;

fn infohash_a() -> Vec<u8> {
    let mut v = vec![0u8; 20];
    for i in 0..20 {
        v[i] = i as u8;
    }
    v
}

fn peer_id_a() -> Vec<u8> {
    b"ABCDEFGHIJKLMNOPQRST".to_vec()
}

#[test]
fn handshake_serializes_to_68_bytes() {
    let h = Handshake::new(infohash_a(), peer_id_a());
    let bytes = h.to_bytes();
    assert_eq!(bytes.len(), 68);
    assert_eq!(bytes[0], 19);
    assert_eq!(&bytes[1..20], b"BitTorrent protocol");
    assert_eq!(&bytes[20..28], &[0u8; 8]);
    assert_eq!(&bytes[28..48], infohash_a().as_slice());
    assert_eq!(&bytes[48..68], peer_id_a().as_slice());
}

#[test]
fn handshake_round_trip_reproduces_fields() {
    let h = Handshake::new(infohash_a(), peer_id_a());
    let bytes = h.to_bytes();
    let back = parse_handshake(&bytes).unwrap();
    assert_eq!(back.length, 19);
    assert_eq!(back.protocol, protocol_label());
    assert_eq!(back.reserved, vec![0u8; 8]);
    assert_eq!(back.infohash, infohash_a());
    assert_eq!(back.peer_id, peer_id_a());
}

#[test]
fn handshake_bad_label_is_protocol_mismatch() {
    let h = Handshake::new(infohash_a(), peer_id_a());
    let mut bytes = h.to_bytes();
    bytes[5] = b'X';
    assert!(matches!(parse_handshake(&bytes), Err(TransferError::ProtocolMismatch)));
    let mut bytes2 = h.to_bytes();
    bytes2[0] = 18;
    assert!(matches!(parse_handshake(&bytes2), Err(TransferError::ProtocolMismatch)));
}

#[test]
fn handshake_short_reply_is_truncated() {
    let bytes = vec![19u8; 30];
    assert!(matches!(parse_handshake(&bytes), Err(TransferError::FrameTruncated)));
}

fn round_trip(m: &Message) -> Message {
    let frame = encode_message(m);
    let (back, used) = decode_frame(&frame, true).unwrap().unwrap();
    assert_eq!(used, frame.len());
    back
}

#[test]
fn message_round_trip_control() {
    assert!(matches!(round_trip(&Message::Choke), Message::Choke));
    assert!(matches!(round_trip(&Message::Unchoke), Message::Unchoke));
    assert!(matches!(round_trip(&Message::Interested), Message::Interested));
    assert!(matches!(round_trip(&Message::NotInterested), Message::NotInterested));
    assert!(matches!(round_trip(&Message::KeepAlive), Message::KeepAlive));
}

#[test]
fn message_round_trip_have() {
    match round_trip(&Message::Have(0x01020304)) {
        Message::Have(i) => assert_eq!(i, 0x01020304),
        _ => panic!("wrong kind"),
    }
}

#[test]
fn message_round_trip_bitfield() {
    match round_trip(&Message::Bitfield(vec![0b1100_0000, 0x01])) {
        Message::Bitfield(bits) => assert_eq!(bits, vec![0b1100_0000, 0x01]),
        _ => panic!("wrong kind"),
    }
}

#[test]
fn message_round_trip_request_piece_cancel() {
    match round_trip(&Message::Request { index: 1, begin: 16384, length: 16384 }) {
        Message::Request { index, begin, length } => {
            assert_eq!((index, begin, length), (1, 16384, 16384));
        },
        _ => panic!("wrong kind"),
    }
    match round_trip(&Message::Piece { index: 2, begin: 7, block: vec![9, 8, 7] }) {
        Message::Piece { index, begin, block } => {
            assert_eq!((index, begin), (2, 7));
            assert_eq!(block, vec![9, 8, 7]);
        },
        _ => panic!("wrong kind"),
    }
    match round_trip(&Message::Cancel { index: 3, begin: 4, length: 5 }) {
        Message::Cancel { index, begin, length } => {
            assert_eq!((index, begin, length), (3, 4, 5));
        },
        _ => panic!("wrong kind"),
    }
}

#[test]
fn keep_alive_frame_is_four_zero_bytes() {
    let frame = encode_message(&Message::KeepAlive);
    assert_eq!(frame, vec![0, 0, 0, 0]);
}

#[test]
fn request_frame_layout() {
    let frame = encode_message(&Message::Request { index: 0, begin: 16384, length: 16384 });
    assert_eq!(frame[0..4], [0, 0, 0, 13]);
    assert_eq!(frame[4], 6);
    assert_eq!(frame[5..9], [0, 0, 0, 0]);
    assert_eq!(frame[9..13], [0, 0, 0x40, 0]);
    assert_eq!(frame[13..17], [0, 0, 0x40, 0]);
}

#[test]
fn unknown_id_is_surfaced_not_dropped() {
    let body = vec![20u8, 1, 2, 3];
    match decode_message(&body).unwrap() {
        Message::Unknown { id, payload } => {
            assert_eq!(id, 20);
            assert_eq!(payload, vec![1, 2, 3]);
        },
        _ => panic!("wrong kind"),
    }
}

#[test]
fn ill_sized_known_payload_is_decode_error() {
    let body = vec![4u8, 1, 2, 3];
    assert!(matches!(decode_message(&body), Err(TransferError::DecodeError)));
    let body2 = vec![0u8, 9];
    assert!(matches!(decode_message(&body2), Err(TransferError::DecodeError)));
}

#[test]
fn partial_frame_waits_then_truncates() {
    let frame = encode_message(&Message::Have(5));
    let partial = frame[0..6].to_vec();
    assert!(matches!(decode_frame(&partial, false), Ok(None)));
    assert!(matches!(decode_frame(&partial, true), Err(TransferError::FrameTruncated)));
}

#[test]
fn bitfield_msb_first_indexing() {
    let bits = vec![0b1100_0000u8];
    assert!(bitfield_has(&bits, 0));
    assert!(bitfield_has(&bits, 1));
    assert!(!bitfield_has(&bits, 2));
    assert!(!bitfield_has(&bits, 7));
    assert!(!bitfield_has(&bits, 8));
    let flags = bitfield_to_flags(&bits, 3);
    assert_eq!(flags, vec![true, true, false]);
}

#[test]
fn msgid_codes() {
    assert_eq!(MsgId::Choke.code(), 0);
    assert_eq!(MsgId::Unchoke.code(), 1);
    assert_eq!(MsgId::Interested.code(), 2);
    assert_eq!(MsgId::NotInterested.code(), 3);
    assert_eq!(MsgId::Have.code(), 4);
    assert_eq!(MsgId::Bitfield.code(), 5);
    assert_eq!(MsgId::Request.code(), 6);
    assert_eq!(MsgId::Piece.code(), 7);
    assert_eq!(MsgId::Cancel.code(), 8);
    assert_eq!(MsgId::Port.code(), 9);
}
