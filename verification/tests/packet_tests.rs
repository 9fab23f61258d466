use seamless::packet::{
    build_initiate_multilink_header, build_keepalive_multilink_header, build_multilink_header,
    MultiLinkHeader, PacketType, MULTILINK_HEADER_SIZE,
};

#[test]
fn header_bytes_roundtrip() {
    let h = build_multilink_header(PacketType::DataDup, 7, 0x0102_0304, true, 100, 0xbeef, true, 0x1234);
    let bytes = h.into_bytes();
    assert_eq!(bytes.len(), MULTILINK_HEADER_SIZE);
    assert_eq!(MultiLinkHeader::from_bytes(bytes), h);
}

#[test]
fn header_layout_is_little_endian() {
    let h = build_multilink_header(PacketType::Data, 3, 0x0a0b_0c0d, false, 12, 0x0102, false, 0);
    let b = h.into_bytes();
    assert_eq!(&b[0..3], b"CNI");
    assert_eq!(b[3], 32);
    assert_eq!(b[4], 0);
    assert_eq!(b[5], 3);
    assert_eq!(&b[6..10], &[0x0d, 0x0c, 0x0b, 0x0a]);
    assert_eq!(&b[10..12], &[0x02, 0x01]);
    // packet type Data, no reorder, no rtt measurement
    assert_eq!(b[19], 1);
}

#[test]
fn header_flags_byte() {
    let h = build_multilink_header(PacketType::DataDup, 0, 0, true, 0, 0, true, 0);
    assert_eq!(h.into_bytes()[19], 2 | 4 | 8);
}

#[test]
fn bytes_header_roundtrip() {
    let mut bytes = [0u8; 20];
    for (i, b) in bytes.iter_mut().enumerate() {
        *b = (i as u8) * 7 + 1;
    }
    bytes[19] = 0x5e;
    let h = MultiLinkHeader::from_bytes(bytes);
    assert_eq!(h.into_bytes(), bytes);
    assert_eq!(h.pkt_type, PacketType::DataDup);
    assert!(h.reorder);
    assert!(h.srrt_calculation);
    assert_eq!(h.padding, 5);
}

#[test]
fn keepalive_and_initiate_headers() {
    let k = build_keepalive_multilink_header(500, true, 499, 9);
    assert_eq!(k.pkt_type, PacketType::Keepalive);
    assert_eq!(k.len, 20);
    assert_eq!(k.stream_id, 255);
    assert_eq!(k.timestamp, 500);
    assert_eq!(k.timestamp_reply, 499);
    assert_eq!(k.link_seq, 9);
    assert!(k.srrt_calculation);
    let i = build_initiate_multilink_header();
    assert_eq!(i.pkt_type, PacketType::Initiate);
    assert_eq!(i.len, 20);
    assert_eq!((i.c, i.n, i.i), (b'C', b'N', b'I'));
}

#[test]
fn new_header_is_empty() {
    let h = MultiLinkHeader::new();
    assert_eq!(h.pkt_type, PacketType::Keepalive);
    assert_eq!(h.len, 0);
    assert_eq!(h.stream_seq, 0);
}
