use bili_danmu::packet::{encode_packet, read_u16_be, read_u32_be, HEADER_SIZE, OP_AUTH, OP_HEARTBEAT};
use bili_danmu::session::heartbeat_packet;

#[test]
fn encode_packet_exact_bytes() {
    let packet = encode_packet(OP_AUTH, b"{}");
    assert_eq!(
        packet,
        vec![0, 0, 0, 18, 0, 16, 0, 1, 0, 0, 0, 7, 0, 0, 0, 1, b'{', b'}']
    );
}

#[test]
fn encode_packet_empty_payload() {
    let packet = encode_packet(9, &[]);
    assert_eq!(packet, vec![0, 0, 0, 16, 0, 16, 0, 1, 0, 0, 0, 9, 0, 0, 0, 1]);
}

#[test]
fn heartbeat_packet_exact_bytes() {
    let packet = heartbeat_packet();
    assert_eq!(
        packet,
        vec![0, 0, 0, 20, 0, 16, 0, 1, 0, 0, 0, 2, 0, 0, 0, 1, b'p', b'i', b'n', b'g']
    );
    assert_eq!(read_u32_be(&packet, 8), OP_HEARTBEAT);
}

#[test]
fn auth_packet_wraps_payload() {
    let packet = encode_packet(OP_AUTH, b"abc");
    assert_eq!(packet.len(), 19);
    assert_eq!(read_u32_be(&packet, 8), OP_AUTH);
    assert_eq!(&packet[16..], b"abc");
}

#[test]
fn header_round_trip() {
    let payload: Vec<u8> = (0..300u32).map(|i| (i % 251) as u8).collect();
    let op = 0x0102_0304;
    let packet = encode_packet(op, &payload);
    assert_eq!(read_u32_be(&packet, 0), 316);
    assert_eq!(read_u16_be(&packet, 4), HEADER_SIZE as u16);
    assert_eq!(read_u16_be(&packet, 6), 1);
    assert_eq!(read_u32_be(&packet, 8), op);
    assert_eq!(read_u32_be(&packet, 12), 1);
    assert_eq!(&packet[16..], &payload[..]);
}

#[test]
fn read_big_endian_values() {
    let bytes = [0xde, 0xad, 0xbe, 0xef, 0x01];
    assert_eq!(read_u32_be(&bytes, 0), 0xdead_beef);
    assert_eq!(read_u32_be(&bytes, 1), 0xadbe_ef01);
    assert_eq!(read_u16_be(&bytes, 3), 0xef01);
}
