//! Peer wire-protocol codec: the 68-byte handshake and length-prefixed
//! message frames. Pure transformation, no I/O.

use vstd::prelude::*;
use crate::TransferError;
use crate::util::{
    be4, spec_u32_bytes, lemma_u32_bytes_val, read_u32_be, push_u32_be, push_all, sub_vec,
};

verus! {

/// The 19 bytes of the fixed protocol label.
pub open spec fn spec_protocol_label() -> Seq<u8> {
    seq![66u8, 105, 116, 84, 111, 114, 114, 101, 110, 116, 32, 112, 114, 111, 116, 111, 99, 111, 108]
}

/// Builds the fixed protocol label, `b"BitTorrent protocol"`.
pub fn protocol_label() -> (r: Vec<u8>)
    ensures
        r@ == spec_protocol_label(),
{
    let mut v: Vec<u8> = Vec::new();
    v.push(66);
    v.push(105);
    v.push(116);
    v.push(84);
    v.push(111);
    v.push(114);
    v.push(114);
    v.push(101);
    v.push(110);
    v.push(116);
    v.push(32);
    v.push(112);
    v.push(114);
    v.push(111);
    v.push(116);
    v.push(111);
    v.push(99);
    v.push(111);
    v.push(108);
    proof {
        assert(v@ =~= spec_protocol_label());
    }
    v
}

/// The handshake record: length byte, protocol label, reserved bytes,
/// infohash and peer id, 68 bytes in all on the wire.
pub struct Handshake {
    pub length: u8,
    pub protocol: Vec<u8>,
    pub reserved: Vec<u8>,
    pub infohash: Vec<u8>,
    pub peer_id: Vec<u8>,
}

impl Handshake {
    /// A well-formed handshake: correct length byte and label, and
    /// fields of their wire sizes.
    pub open spec fn wf(self) -> bool {
        &&& self.length == 19
        &&& self.protocol@ == spec_protocol_label()
        &&& self.reserved@.len() == 8
        &&& self.infohash@.len() == 20
        &&& self.peer_id@.len() == 20
    }

    /// The 68-byte wire form of the handshake.
    pub open spec fn spec_bytes(self) -> Seq<u8> {
        seq![self.length] + self.protocol@ + self.reserved@ + self.infohash@ + self.peer_id@
    }

    /// Builds the handshake for one torrent: fixed label, zeroed
    /// reserved bytes, the given infohash and peer id.
    pub fn new(infohash: Vec<u8>, peer_id: Vec<u8>) -> (r: Handshake)
        requires
            infohash@.len() == 20,
            peer_id@.len() == 20,
        ensures
            r.wf(),
            r.infohash@ == infohash@,
            r.peer_id@ == peer_id@,
            r.reserved@ =~= Seq::<u8>::new(8, |i: int| 0u8),
    {
        let mut reserved: Vec<u8> = Vec::new();
        let mut i: usize = 0;
        while i < 8
            invariant
                i <= 8,
                reserved@.len() == i,
                forall|j: int| 0 <= j < i ==> reserved@[j] == 0u8,
            decreases 8 - i,
        {
            reserved.push(0);
            i = i + 1;
        }
        Handshake { length: 19, protocol: protocol_label(), reserved, infohash, peer_id }
    }

    /// Serializes the handshake to its 68-byte wire form.
    pub fn to_bytes(&self) -> (r: Vec<u8>)
        requires
            self.wf(),
        ensures
            r@ == self.spec_bytes(),
            r@.len() == 68,
    {
        let mut bytes: Vec<u8> = Vec::new();
        bytes.push(self.length);
        push_all(&mut bytes, &self.protocol);
        push_all(&mut bytes, &self.reserved);
        push_all(&mut bytes, &self.infohash);
        push_all(&mut bytes, &self.peer_id);
        proof {
            assert(bytes@ =~= self.spec_bytes());
        }
        bytes
    }
}

/// Whether a 68-byte reply opens with the expected length byte and
/// protocol label.
pub open spec fn spec_handshake_head_ok(b: Seq<u8>) -> bool {
    &&& b.len() == 68
    &&& b[0] == 19
    &&& b.subrange(1, 20) == spec_protocol_label()
}

/// Parses a peer's 68-byte handshake reply. Succeeds exactly when the
/// reply has the right size, length byte and protocol label; the
/// infohash is not judged here but handed back for the session to
/// check.
pub fn parse_handshake(bytes: &Vec<u8>) -> (r: Result<Handshake, TransferError>)
    ensures
        match r {
            Ok(h) => {
                &&& spec_handshake_head_ok(bytes@)
                &&& h.wf()
                &&& h.spec_bytes() == bytes@
                &&& h.infohash@ == bytes@.subrange(28, 48)
                &&& h.peer_id@ == bytes@.subrange(48, 68)
            },
            Err(e) => {
                &&& !spec_handshake_head_ok(bytes@)
                &&& (e == TransferError::FrameTruncated || e == TransferError::ProtocolMismatch)
                &&& (e == TransferError::FrameTruncated <==> bytes@.len() != 68)
            },
        },
{
    if bytes.len() != 68 {
        return Err(TransferError::FrameTruncated);
    }
    if bytes[0] != 19 {
        return Err(TransferError::ProtocolMismatch);
    }
    let label = protocol_label();
    let mut i: usize = 0;
    while i < 19
        invariant
            i <= 19,
            bytes@.len() == 68,
            label@ == spec_protocol_label(),
            forall|j: int| 0 <= j < i ==> bytes@[1 + j] == label@[j],
        decreases 19 - i,
    {
        if bytes[1 + i] != label[i] {
            proof {
                assert(bytes@.subrange(1, 20)[i as int] != spec_protocol_label()[i as int]);
            }
            return Err(TransferError::ProtocolMismatch);
        }
        i = i + 1;
    }
    proof {
        assert(bytes@.subrange(1, 20) =~= spec_protocol_label());
    }
    let h = Handshake {
        length: bytes[0],
        protocol: sub_vec(bytes, 1, 20),
        reserved: sub_vec(bytes, 20, 28),
        infohash: sub_vec(bytes, 28, 48),
        peer_id: sub_vec(bytes, 48, 68),
    };
    proof {
        assert(h.spec_bytes() =~= bytes@);
    }
    Ok(h)
}

/// The numeric ids of the recognized peer messages.
pub enum MsgId {
    Choke,
    Unchoke,
    Interested,
    NotInterested,
    Have,
    Bitfield,
    Request,
    Piece,
    Cancel,
    Port,
}

impl MsgId {
    /// The wire value of this message id.
    pub open spec fn spec_code(self) -> u8 {
        match self {
            MsgId::Choke => 0,
            MsgId::Unchoke => 1,
            MsgId::Interested => 2,
            MsgId::NotInterested => 3,
            MsgId::Have => 4,
            MsgId::Bitfield => 5,
            MsgId::Request => 6,
            MsgId::Piece => 7,
            MsgId::Cancel => 8,
            MsgId::Port => 9,
        }
    }

    /// Returns the wire value of this message id.
    pub fn code(&self) -> (r: u8)
        ensures
            r == self.spec_code(),
    {
        match self {
            MsgId::Choke => 0,
            MsgId::Unchoke => 1,
            MsgId::Interested => 2,
            MsgId::NotInterested => 3,
            MsgId::Have => 4,
            MsgId::Bitfield => 5,
            MsgId::Request => 6,
            MsgId::Piece => 7,
            MsgId::Cancel => 8,
            MsgId::Port => 9,
        }
    }
}

/// One peer message: the nine recognized kinds, keep-alive, and a
/// catch-all for unrecognized ids, surfaced rather than dropped.
pub enum Message {
    KeepAlive,
    Choke,
    Unchoke,
    Interested,
    NotInterested,
    Have(u32),
    Bitfield(Vec<u8>),
    Request { index: u32, begin: u32, length: u32 },
    Piece { index: u32, begin: u32, block: Vec<u8> },
    Cancel { index: u32, begin: u32, length: u32 },
    Unknown { id: u8, payload: Vec<u8> },
}

/// The body of a message: its id byte followed by its payload.
/// A keep-alive has an empty body.
pub open spec fn spec_msg_body(m: Message) -> Seq<u8> {
    match m {
        Message::KeepAlive => Seq::empty(),
        Message::Choke => seq![0u8],
        Message::Unchoke => seq![1u8],
        Message::Interested => seq![2u8],
        Message::NotInterested => seq![3u8],
        Message::Have(index) => seq![4u8] + spec_u32_bytes(index),
        Message::Bitfield(bits) => seq![5u8] + bits@,
        Message::Request { index, begin, length } => seq![6u8] + spec_u32_bytes(index)
            + spec_u32_bytes(begin) + spec_u32_bytes(length),
        Message::Piece { index, begin, block } => seq![7u8] + spec_u32_bytes(index)
            + spec_u32_bytes(begin) + block@,
        Message::Cancel { index, begin, length } => seq![8u8] + spec_u32_bytes(index)
            + spec_u32_bytes(begin) + spec_u32_bytes(length),
        Message::Unknown { id, payload } => seq![id] + payload@,
    }
}

/// The body is small enough for its 4-byte length prefix.
pub open spec fn msg_wf(m: Message) -> bool {
    spec_msg_body(m).len() <= 0xffffffff
}

/// A decoded message never hides a recognized id inside `Unknown`.
pub open spec fn msg_canonical(m: Message) -> bool {
    match m {
        Message::Unknown { id, payload } => id > 8,
        _ => true,
    }
}

/// A non-empty body whose id is recognized but whose payload has a
/// size that id does not allow.
pub open spec fn spec_body_ill_formed(b: Seq<u8>) -> bool {
    b.len() >= 1 && {
        let id = b[0];
        let n = b.len() - 1;
        ||| (id == 0 || id == 1 || id == 2 || id == 3) && n != 0
        ||| id == 4 && n != 4
        ||| (id == 6 || id == 8) && n != 12
        ||| id == 7 && n < 8
    }
}

/// The full frame of a message: 4-byte big-endian body length, then
/// the body.
pub open spec fn spec_frame(m: Message) -> Seq<u8> {
    spec_u32_bytes(spec_msg_body(m).len() as u32) + spec_msg_body(m)
}

/// Serializes one message as a length-prefixed frame.
pub fn encode_message(m: &Message) -> (r: Vec<u8>)
    requires
        msg_wf(*m),
    ensures
        r@ == spec_frame(*m),
{
    let mut body: Vec<u8> = Vec::new();
    match m {
        Message::KeepAlive => {},
        Message::Choke => {
            body.push(0);
        },
        Message::Unchoke => {
            body.push(1);
        },
        Message::Interested => {
            body.push(2);
        },
        Message::NotInterested => {
            body.push(3);
        },
        Message::Have(index) => {
            body.push(4);
            push_u32_be(&mut body, *index);
        },
        Message::Bitfield(bits) => {
            body.push(5);
            push_all(&mut body, bits);
        },
        Message::Request { index, begin, length } => {
            body.push(6);
            push_u32_be(&mut body, *index);
            push_u32_be(&mut body, *begin);
            push_u32_be(&mut body, *length);
        },
        Message::Piece { index, begin, block } => {
            body.push(7);
            push_u32_be(&mut body, *index);
            push_u32_be(&mut body, *begin);
            push_all(&mut body, block);
        },
        Message::Cancel { index, begin, length } => {
            body.push(8);
            push_u32_be(&mut body, *index);
            push_u32_be(&mut body, *begin);
            push_u32_be(&mut body, *length);
        },
        Message::Unknown { id, payload } => {
            body.push(*id);
            push_all(&mut body, payload);
        },
    }
    proof {
        assert(body@ =~= spec_msg_body(*m));
    }
    let mut frame: Vec<u8> = Vec::new();
    push_u32_be(&mut frame, body.len() as u32);
    push_all(&mut frame, &body);
    proof {
        assert(frame@ =~= spec_frame(*m));
    }
    frame
}

/// Decodes a message body (id byte plus payload; empty for a
/// keep-alive). Fails exactly on a recognized id with a payload size
/// that id does not allow.
pub fn decode_message(body: &Vec<u8>) -> (r: Result<Message, TransferError>)
    ensures
        match r {
            Ok(m) => {
                &&& !spec_body_ill_formed(body@)
                &&& msg_canonical(m)
                &&& spec_msg_body(m) == body@
            },
            Err(e) => {
                &&& spec_body_ill_formed(body@)
                &&& e == TransferError::DecodeError
            },
        },
{
    if body.len() == 0 {
        proof {
            assert(spec_msg_body(Message::KeepAlive) =~= body@);
        }
        return Ok(Message::KeepAlive);
    }
    let id = body[0];
    let n = body.len() - 1;
    if id == 0 || id == 1 || id == 2 || id == 3 {
        if n != 0 {
            return Err(TransferError::DecodeError);
        }
        let m = if id == 0 {
            Message::Choke
        } else if id == 1 {
            Message::Unchoke
        } else if id == 2 {
            Message::Interested
        } else {
            Message::NotInterested
        };
        proof {
            assert(spec_msg_body(m) =~= body@);
        }
        Ok(m)
    } else if id == 4 {
        if n != 4 {
            return Err(TransferError::DecodeError);
        }
        let index = read_u32_be(body[1], body[2], body[3], body[4]);
        let m = Message::Have(index);
        proof {
            lemma_u32_bytes_val(index);
            lemma_be4_injective(body@[1], body@[2], body@[3], body@[4], index);
            assert(spec_msg_body(m) =~= body@);
        }
        Ok(m)
    } else if id == 5 {
        let bits = sub_vec(body, 1, body.len());
        let m = Message::Bitfield(bits);
        proof {
            assert(spec_msg_body(m) =~= body@);
        }
        Ok(m)
    } else if id == 6 || id == 8 {
        if n != 12 {
            return Err(TransferError::DecodeError);
        }
        let index = read_u32_be(body[1], body[2], body[3], body[4]);
        let begin = read_u32_be(body[5], body[6], body[7], body[8]);
        let length = read_u32_be(body[9], body[10], body[11], body[12]);
        let m = if id == 6 {
            Message::Request { index, begin, length }
        } else {
            Message::Cancel { index, begin, length }
        };
        proof {
            lemma_u32_bytes_val(index);
            lemma_u32_bytes_val(begin);
            lemma_u32_bytes_val(length);
            lemma_be4_injective(body@[1], body@[2], body@[3], body@[4], index);
            lemma_be4_injective(body@[5], body@[6], body@[7], body@[8], begin);
            lemma_be4_injective(body@[9], body@[10], body@[11], body@[12], length);
            assert(spec_msg_body(m) =~= body@);
        }
        Ok(m)
    } else if id == 7 {
        if n < 8 {
            return Err(TransferError::DecodeError);
        }
        let index = read_u32_be(body[1], body[2], body[3], body[4]);
        let begin = read_u32_be(body[5], body[6], body[7], body[8]);
        let block = sub_vec(body, 9, body.len());
        let m = Message::Piece { index, begin, block };
        proof {
            lemma_u32_bytes_val(index);
            lemma_u32_bytes_val(begin);
            lemma_be4_injective(body@[1], body@[2], body@[3], body@[4], index);
            lemma_be4_injective(body@[5], body@[6], body@[7], body@[8], begin);
            assert(spec_msg_body(m) =~= body@);
        }
        Ok(m)
    } else {
        let payload = sub_vec(body, 1, body.len());
        let m = Message::Unknown { id, payload };
        proof {
            assert(spec_msg_body(m) =~= body@);
        }
        Ok(m)
    }
}

/// The body length a buffer's first four bytes declare.
pub open spec fn spec_declared_len(b: Seq<u8>) -> int
    recommends
        b.len() >= 4,
{
    be4(b[0], b[1], b[2], b[3])
}

/// Too few bytes for the frame the buffer opens with.
pub open spec fn spec_frame_incomplete(b: Seq<u8>) -> bool {
    b.len() < 4 || b.len() < 4 + spec_declared_len(b)
}

/// Decodes the frame at the front of `buf`, if it is all there.
/// `eof` says the transport will deliver no more bytes: a frame still
/// incomplete then is truncated, an error; before that it is only a
/// suspension point, `Ok(None)`.
pub fn decode_frame(buf: &Vec<u8>, eof: bool) -> (r: Result<Option<(Message, usize)>, TransferError>)
    ensures
        match r {
            Ok(Some((m, used))) => {
                &&& !spec_frame_incomplete(buf@)
                &&& used == 4 + spec_declared_len(buf@)
                &&& used <= buf@.len()
                &&& msg_canonical(m)
                &&& msg_wf(m)
                &&& spec_msg_body(m) == buf@.subrange(4, used as int)
            },
            Ok(None) => !eof && spec_frame_incomplete(buf@),
            Err(e) => {
                if e == TransferError::FrameTruncated {
                    eof && spec_frame_incomplete(buf@)
                } else {
                    &&& e == TransferError::DecodeError
                    &&& !spec_frame_incomplete(buf@)
                    &&& spec_body_ill_formed(
                        buf@.subrange(4, 4 + spec_declared_len(buf@)),
                    )
                }
            },
        },
{
    if buf.len() < 4 {
        return if eof {
            Err(TransferError::FrameTruncated)
        } else {
            Ok(None)
        };
    }
    let declared = read_u32_be(buf[0], buf[1], buf[2], buf[3]);
    if buf.len() - 4 < declared as usize {
        return if eof {
            Err(TransferError::FrameTruncated)
        } else {
            Ok(None)
        };
    }
    let used = 4 + declared as usize;
    let body = sub_vec(buf, 4, used);
    match decode_message(&body) {
        Ok(m) => {
            proof {
                assert(spec_msg_body(m).len() == declared);
            }
            Ok(Some((m, used)))
        },
        Err(e) => Err(e),
    }
}

/// Bit `i` of a bitfield: bit `i % 8` of byte `i / 8`, counted from
/// the most significant bit. Out of range means the piece is not held.
pub open spec fn spec_bit(bits: Seq<u8>, i: int) -> bool {
    &&& 0 <= i
    &&& i / 8 < bits.len()
    &&& (bits[i / 8] >> ((7 - (i % 8)) as u8)) & 1 == 1
}

/// Reads bit `i` of a bitfield payload.
pub fn bitfield_has(bits: &Vec<u8>, i: usize) -> (r: bool)
    ensures
        r == spec_bit(bits@, i as int),
{
    let byte_idx = i / 8;
    if byte_idx >= bits.len() {
        return false;
    }
    let shift: u8 = (7 - (i % 8)) as u8;
    ((bits[byte_idx] >> shift) & 1) == 1
}

/// Expands a bitfield payload to one flag per piece index.
pub fn bitfield_to_flags(bits: &Vec<u8>, n: usize) -> (r: Vec<bool>)
    ensures
        r@.len() == n,
        forall|i: int| 0 <= i < n ==> r@[i] == spec_bit(bits@, i),
{
    let mut flags: Vec<bool> = Vec::new();
    let mut i: usize = 0;
    while i < n
        invariant
            i <= n,
            flags@.len() == i,
            forall|j: int| 0 <= j < i ==> flags@[j] == spec_bit(bits@, j),
        decreases n - i,
    {
        flags.push(bitfield_has(bits, i));
        i = i + 1;
    }
    flags
}

/// Messages with equal kinds and equal field contents; byte
/// containers are compared by their bytes.
pub open spec fn msg_eq(m1: Message, m2: Message) -> bool {
    match (m1, m2) {
        (Message::KeepAlive, Message::KeepAlive) => true,
        (Message::Choke, Message::Choke) => true,
        (Message::Unchoke, Message::Unchoke) => true,
        (Message::Interested, Message::Interested) => true,
        (Message::NotInterested, Message::NotInterested) => true,
        (Message::Have(a), Message::Have(b)) => a == b,
        (Message::Bitfield(a), Message::Bitfield(b)) => a@ == b@,
        (
            Message::Request { index: i1, begin: b1, length: l1 },
            Message::Request { index: i2, begin: b2, length: l2 },
        ) => i1 == i2 && b1 == b2 && l1 == l2,
        (
            Message::Piece { index: i1, begin: b1, block: k1 },
            Message::Piece { index: i2, begin: b2, block: k2 },
        ) => i1 == i2 && b1 == b2 && k1@ == k2@,
        (
            Message::Cancel { index: i1, begin: b1, length: l1 },
            Message::Cancel { index: i2, begin: b2, length: l2 },
        ) => i1 == i2 && b1 == b2 && l1 == l2,
        (
            Message::Unknown { id: d1, payload: p1 },
            Message::Unknown { id: d2, payload: p2 },
        ) => d1 == d2 && p1@ == p2@,
        _ => false,
    }
}

/// Law: the body of a canonical message decodes; no recognized kind
/// serializes to a payload size the decoder refuses.
pub proof fn lemma_msg_body_well_formed(m: Message)
    requires
        msg_canonical(m),
    ensures
        !spec_body_ill_formed(spec_msg_body(m)),
{
    match m {
        Message::Have(index) => {
            assert(spec_msg_body(m).len() == 5);
        },
        Message::Request { index, begin, length } => {
            assert(spec_msg_body(m).len() == 13);
        },
        Message::Cancel { index, begin, length } => {
            assert(spec_msg_body(m).len() == 13);
        },
        Message::Piece { index, begin, block } => {
            assert(spec_msg_body(m).len() == 9 + block@.len());
        },
        _ => {},
    }
}

/// Law: among canonical messages the body pins the message: equal
/// bodies mean equal kinds and equal fields. Together with the codec
/// contracts this is the round trip: decoding an encoded message
/// reproduces its id and payload.
pub proof fn lemma_msg_body_injective(m1: Message, m2: Message)
    requires
        msg_canonical(m1),
        msg_canonical(m2),
        spec_msg_body(m1) == spec_msg_body(m2),
    ensures
        msg_eq(m1, m2),
{
    let b1 = spec_msg_body(m1);
    let b2 = spec_msg_body(m2);
    lemma_body_head(m1);
    lemma_body_head(m2);
    match (m1, m2) {
        (Message::Have(x), Message::Have(y)) => {
            assert(spec_u32_bytes(x) =~= b1.subrange(1, 5));
            assert(spec_u32_bytes(y) =~= b2.subrange(1, 5));
            lemma_u32_bytes_eq(x, y);
        },
        (Message::Bitfield(a), Message::Bitfield(b)) => {
            assert(a@ =~= b1.subrange(1, b1.len() as int));
            assert(b@ =~= b2.subrange(1, b2.len() as int));
        },
        (
            Message::Request { index: i1, begin: g1, length: l1 },
            Message::Request { index: i2, begin: g2, length: l2 },
        ) => {
            lemma_triple_fields(i1, g1, l1, i2, g2, l2, b1, b2);
        },
        (
            Message::Cancel { index: i1, begin: g1, length: l1 },
            Message::Cancel { index: i2, begin: g2, length: l2 },
        ) => {
            lemma_triple_fields(i1, g1, l1, i2, g2, l2, b1, b2);
        },
        (
            Message::Piece { index: i1, begin: g1, block: k1 },
            Message::Piece { index: i2, begin: g2, block: k2 },
        ) => {
            assert(spec_u32_bytes(i1) =~= b1.subrange(1, 5));
            assert(spec_u32_bytes(i2) =~= b2.subrange(1, 5));
            assert(spec_u32_bytes(g1) =~= b1.subrange(5, 9));
            assert(spec_u32_bytes(g2) =~= b2.subrange(5, 9));
            lemma_u32_bytes_eq(i1, i2);
            lemma_u32_bytes_eq(g1, g2);
            assert(k1@ =~= b1.subrange(9, b1.len() as int));
            assert(k2@ =~= b2.subrange(9, b2.len() as int));
        },
        (
            Message::Unknown { id: d1, payload: p1 },
            Message::Unknown { id: d2, payload: p2 },
        ) => {
            assert(p1@ =~= b1.subrange(1, b1.len() as int));
            assert(p2@ =~= b2.subrange(1, b2.len() as int));
        },
        _ => {},
    }
}

/// Law: parsing a serialized handshake reproduces its fields; the
/// byte layout puts the infohash at `[28, 48)` and the peer id at
/// `[48, 68)`.
pub proof fn lemma_handshake_round_trip(h: Handshake)
    requires
        h.wf(),
    ensures
        spec_handshake_head_ok(h.spec_bytes()),
        h.spec_bytes().subrange(20, 28) == h.reserved@,
        h.spec_bytes().subrange(28, 48) == h.infohash@,
        h.spec_bytes().subrange(48, 68) == h.peer_id@,
{
    let b = h.spec_bytes();
    assert(b.subrange(1, 20) =~= spec_protocol_label());
    assert(b.subrange(20, 28) =~= h.reserved@);
    assert(b.subrange(28, 48) =~= h.infohash@);
    assert(b.subrange(48, 68) =~= h.peer_id@);
}

/// Law: an encoded frame decodes as itself: it is complete, its
/// length prefix declares exactly its body, the bytes after the
/// prefix are the message's own body, and that body is one the
/// decoder accepts. With the body laws this is the full round trip:
/// decoding an encoded message reproduces its id and payload.
pub proof fn lemma_frame_round_trip(m: Message)
    requires
        msg_wf(m),
        msg_canonical(m),
    ensures
        !spec_frame_incomplete(spec_frame(m)),
        spec_declared_len(spec_frame(m)) == spec_msg_body(m).len(),
        spec_frame(m).subrange(4, spec_frame(m).len() as int) == spec_msg_body(m),
        !spec_body_ill_formed(spec_msg_body(m)),
{
    let body = spec_msg_body(m);
    let f = spec_frame(m);
    lemma_u32_bytes_val(body.len() as u32);
    lemma_msg_body_well_formed(m);
    assert(f[0] == spec_u32_bytes(body.len() as u32)[0]);
    assert(f[1] == spec_u32_bytes(body.len() as u32)[1]);
    assert(f[2] == spec_u32_bytes(body.len() as u32)[2]);
    assert(f[3] == spec_u32_bytes(body.len() as u32)[3]);
    assert(f.subrange(4, f.len() as int) =~= body);
}

/// The id byte a message kind writes first, `-1` for a keep-alive.
pub open spec fn spec_msg_tag(m: Message) -> int {
    match m {
        Message::KeepAlive => -1,
        Message::Choke => 0,
        Message::Unchoke => 1,
        Message::Interested => 2,
        Message::NotInterested => 3,
        Message::Have(index) => 4,
        Message::Bitfield(bits) => 5,
        Message::Request { index, begin, length } => 6,
        Message::Piece { index, begin, block } => 7,
        Message::Cancel { index, begin, length } => 8,
        Message::Unknown { id, payload } => id as int,
    }
}

/// A body opens with its kind's id byte; only a keep-alive is empty.
proof fn lemma_body_head(m: Message)
    requires
        msg_canonical(m),
    ensures
        spec_msg_tag(m) == -1 ==> spec_msg_body(m).len() == 0,
        spec_msg_tag(m) >= 0 ==> spec_msg_body(m).len() >= 1 && spec_msg_body(m)[0] == spec_msg_tag(m),
{
}

/// Equal encodings of a 4-byte field mean equal values.
proof fn lemma_u32_bytes_eq(x: u32, y: u32)
    requires
        spec_u32_bytes(x) == spec_u32_bytes(y),
    ensures
        x == y,
{
    lemma_u32_bytes_val(x);
    lemma_u32_bytes_val(y);
}

/// The three 4-byte fields of a request or cancel body pin the values.
proof fn lemma_triple_fields(
    i1: u32, g1: u32, l1: u32, i2: u32, g2: u32, l2: u32, b1: Seq<u8>, b2: Seq<u8>,
)
    requires
        b1 == seq![6u8] + spec_u32_bytes(i1) + spec_u32_bytes(g1) + spec_u32_bytes(l1)
            || b1 == seq![8u8] + spec_u32_bytes(i1) + spec_u32_bytes(g1) + spec_u32_bytes(l1),
        b2 == seq![6u8] + spec_u32_bytes(i2) + spec_u32_bytes(g2) + spec_u32_bytes(l2)
            || b2 == seq![8u8] + spec_u32_bytes(i2) + spec_u32_bytes(g2) + spec_u32_bytes(l2),
        b1 == b2,
    ensures
        i1 == i2 && g1 == g2 && l1 == l2,
{
    assert(spec_u32_bytes(i1) =~= b1.subrange(1, 5));
    assert(spec_u32_bytes(i2) =~= b2.subrange(1, 5));
    assert(spec_u32_bytes(g1) =~= b1.subrange(5, 9));
    assert(spec_u32_bytes(g2) =~= b2.subrange(5, 9));
    assert(spec_u32_bytes(l1) =~= b1.subrange(9, 13));
    assert(spec_u32_bytes(l2) =~= b2.subrange(9, 13));
    lemma_u32_bytes_eq(i1, i2);
    lemma_u32_bytes_eq(g1, g2);
    lemma_u32_bytes_eq(l1, l2);
}

/// Four bytes that encode the value `x` are the bytes of `x`.
proof fn lemma_be4_injective(b0: u8, b1: u8, b2: u8, b3: u8, x: u32)
    requires
        be4(b0, b1, b2, b3) == x,
    ensures
        spec_u32_bytes(x) == seq![b0, b1, b2, b3],
{
    lemma_u32_bytes_val(x);
    let s = spec_u32_bytes(x);
    assert(be4(s[0], s[1], s[2], s[3]) == be4(b0, b1, b2, b3));
    assert(s[0] == b0 && s[1] == b1 && s[2] == b2 && s[3] == b3) by {
        assert(be4(s[0], s[1], s[2], s[3]) == be4(b0, b1, b2, b3)
            ==> (s[0] == b0 && s[1] == b1 && s[2] == b2 && s[3] == b3)) by (nonlinear_arith);
    };
    assert(spec_u32_bytes(x) =~= seq![b0, b1, b2, b3]);
}

} // verus!
