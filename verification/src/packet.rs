//! Packet framing: a 16-byte big-endian header followed by a body.
//!
//! Header layout (all big-endian):
//! bytes 0..4 total packet size, 4..6 header size, 6..8 protocol version,
//! 8..12 operation code, 12..16 sequence number.

use vstd::prelude::*;

verus! {

/// Size of the fixed packet header in bytes.
pub const HEADER_SIZE: u32 = 16;

/// Operation code of a heartbeat sent by the client.
pub const OP_HEARTBEAT: u32 = 2;

/// Operation code of the server's heartbeat reply.
pub const OP_HEARTBEAT_REPLY: u32 = 3;

/// Operation code of a server notification (a JSON body).
pub const OP_MESSAGE: u32 = 5;

/// Operation code of the authentication packet.
pub const OP_AUTH: u32 = 7;

/// Big-endian value of the four bytes of `b` starting at `at`.
pub open spec fn be_u32_at(b: Seq<u8>, at: int) -> int {
    b[at] * 16777216 + b[at + 1] * 65536 + b[at + 2] * 256 + b[at + 3]
}

/// Big-endian value of the two bytes of `b` starting at `at`.
pub open spec fn be_u16_at(b: Seq<u8>, at: int) -> int {
    b[at] * 256 + b[at + 1]
}

/// The four big-endian bytes of `x`.
pub open spec fn be_u32_bytes(x: u32) -> Seq<u8> {
    seq![
        (x / 16777216) as u8,
        ((x / 65536) % 256) as u8,
        ((x / 256) % 256) as u8,
        (x % 256) as u8,
    ]
}

/// The two big-endian bytes of `x`.
pub open spec fn be_u16_bytes(x: u16) -> Seq<u8> {
    seq![(x / 256) as u8, (x % 256) as u8]
}

/// The header of a packet of protocol `version` that carries `body_len` body
/// bytes with operation `op` and sequence number 1.
pub open spec fn header_bytes(version: u16, op: u32, body_len: u32) -> Seq<u8> {
    be_u32_bytes((body_len + 16) as u32) + be_u16_bytes(16) + be_u16_bytes(version) + be_u32_bytes(op)
        + be_u32_bytes(1)
}

/// The packet of protocol `version` that carries `payload` with operation `op`:
/// the body length in the header is the payload length truncated to 32 bits.
pub open spec fn frame_bytes(version: u16, op: u32, payload: Seq<u8>) -> Seq<u8> {
    header_bytes(version, op, payload.len() as u32) + payload
}

/// The packet that the client sends: protocol 1, operation `op`, body `payload`.
pub open spec fn packet_bytes(op: u32, payload: Seq<u8>) -> Seq<u8> {
    frame_bytes(1, op, payload)
}

/// Reads the big-endian `u32` at `at`.
pub fn read_u32_be(b: &[u8], at: usize) -> (r: u32)
    requires
        at + 4 <= b@.len(),
    ensures
        r == be_u32_at(b@, at as int),
{
    let b0 = b[at] as u32;
    let b1 = b[at + 1] as u32;
    let b2 = b[at + 2] as u32;
    let b3 = b[at + 3] as u32;
    b0 * 16777216 + b1 * 65536 + b2 * 256 + b3
}

/// Reads the big-endian `u16` at `at`.
pub fn read_u16_be(b: &[u8], at: usize) -> (r: u16)
    requires
        at + 2 <= b@.len(),
    ensures
        r == be_u16_at(b@, at as int),
{
    let b0 = b[at] as u16;
    let b1 = b[at + 1] as u16;
    b0 * 256 + b1
}

fn push_u32_be(out: &mut Vec<u8>, x: u32)
    ensures
        final(out)@ == old(out)@ + be_u32_bytes(x),
{
    out.push((x / 16777216) as u8);
    out.push(((x / 65536) % 256) as u8);
    out.push(((x / 256) % 256) as u8);
    out.push((x % 256) as u8);
}

fn push_u16_be(out: &mut Vec<u8>, x: u16)
    ensures
        final(out)@ == old(out)@ + be_u16_bytes(x),
{
    out.push((x / 256) as u8);
    out.push((x % 256) as u8);
}

/// Frames `payload` as one packet with operation `op`.
///
/// The body length is the payload length truncated to 32 bits; the total size
/// `16 + body length` must fit in a `u32`.
pub fn encode_packet(op: u32, payload: &[u8]) -> (packet: Vec<u8>)
    requires
        (payload@.len() as u32) + 16 <= u32::MAX,
    ensures
        packet@ == packet_bytes(op, payload@),
{
    let body_size: u32 = payload.len() as u32;
    let total_size: u32 = HEADER_SIZE + body_size;
    let mut packet: Vec<u8> = Vec::new();
    push_u32_be(&mut packet, total_size);
    push_u16_be(&mut packet, 16);
    push_u16_be(&mut packet, 1);
    push_u32_be(&mut packet, op);
    push_u32_be(&mut packet, 1);
    let mut i: usize = 0;
    while i < payload.len()
        invariant
            i <= payload@.len(),
            packet@ == header_bytes(1, op, payload@.len() as u32) + payload@.subrange(0, i as int),
        decreases payload@.len() - i,
    {
        packet.push(payload[i]);
        i = i + 1;
        assert(payload@.subrange(0, i as int) == payload@.subrange(0, i - 1).push(payload@[i - 1]));
    }
    assert(payload@.subrange(0, payload@.len() as int) == payload@);
    packet
}

/// Reading four big-endian bytes back gives the number they were written from.
pub proof fn lemma_be_u32_roundtrip(x: u32)
    ensures
        be_u32_at(be_u32_bytes(x), 0) == x,
{
    let b = be_u32_bytes(x);
    assert(b[0] == x / 16777216);
    assert(b[1] == (x / 65536) % 256);
    assert(b[2] == (x / 256) % 256);
    assert(b[3] == x % 256);
}

/// Reading two big-endian bytes back gives the number they were written from.
pub proof fn lemma_be_u16_roundtrip(x: u16)
    ensures
        be_u16_at(be_u16_bytes(x), 0) == x,
{
}

/// A framed packet reads back as what it was framed from: its size field is the
/// whole packet's length, it announces a 16-byte header, protocol `version` and
/// operation `op`, and the bytes after the header are the payload.
pub proof fn lemma_frame_roundtrip(version: u16, op: u32, payload: Seq<u8>)
    requires
        payload.len() + 16 <= u32::MAX,
    ensures
        frame_bytes(version, op, payload).len() == payload.len() + 16,
        be_u32_at(frame_bytes(version, op, payload), 0) == payload.len() + 16,
        be_u16_at(frame_bytes(version, op, payload), 4) == 16,
        be_u16_at(frame_bytes(version, op, payload), 6) == version,
        be_u32_at(frame_bytes(version, op, payload), 8) == op,
        be_u32_at(frame_bytes(version, op, payload), 12) == 1,
        frame_bytes(version, op, payload).subrange(16, payload.len() + 16int) == payload,
{
    let n = (payload.len() as u32 + 16) as u32;
    assert(payload.len() as u32 == payload.len());
    let p = frame_bytes(version, op, payload);
    lemma_be_u32_roundtrip(n);
    lemma_be_u32_roundtrip(op);
    lemma_be_u32_roundtrip(1);
    lemma_be_u16_roundtrip(16);
    lemma_be_u16_roundtrip(version);
    let h = header_bytes(version, op, payload.len() as u32);
    assert(h.len() == 16);
    assert(p.subrange(0, 4) == be_u32_bytes(n));
    assert(p.subrange(4, 6) == be_u16_bytes(16));
    assert(p.subrange(6, 8) == be_u16_bytes(version));
    assert(p.subrange(8, 12) == be_u32_bytes(op));
    assert(p.subrange(12, 16) == be_u32_bytes(1));
    assert(p.subrange(16, payload.len() + 16int) == payload);
}

/// A packet as the client frames it reads back as what it was framed from,
/// with protocol version 1.
pub proof fn lemma_packet_roundtrip(op: u32, payload: Seq<u8>)
    requires
        payload.len() + 16 <= u32::MAX,
    ensures
        packet_bytes(op, payload).len() == payload.len() + 16,
        be_u32_at(packet_bytes(op, payload), 0) == payload.len() + 16,
        be_u16_at(packet_bytes(op, payload), 4) == 16,
        be_u16_at(packet_bytes(op, payload), 6) == 1,
        be_u32_at(packet_bytes(op, payload), 8) == op,
        be_u32_at(packet_bytes(op, payload), 12) == 1,
        packet_bytes(op, payload).subrange(16, payload.len() + 16int) == payload,
{
    lemma_frame_roundtrip(1, op, payload);
}

} // verus!
