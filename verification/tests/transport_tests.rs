use seamless::transport::{parse_transport_header, Transport, TransportInformation};

fn udp_packet(src: u16, dst: u16) -> Vec<u8> {
    let mut p = vec![
        0x45, 0x00, 0x00, 0x1c, 0x00, 0x00, 0x40, 0x00, 0x40, 0x11, 0x00, 0x00, 10, 0, 0, 1, 10, 0, 0, 2,
    ];
    p.extend_from_slice(&src.to_be_bytes());
    p.extend_from_slice(&dst.to_be_bytes());
    p.extend_from_slice(&[0x00, 0x08, 0x00, 0x00]);
    p
}

#[test]
fn parses_udp_ports() {
    let t = parse_transport_header(&udp_packet(1234, 5678));
    assert_eq!(
        t,
        TransportInformation { transport_protocol: Transport::Udp, dst_port: Some(5678), src_port: Some(1234) }
    );
}

#[test]
fn garbage_is_unknown() {
    let t = parse_transport_header(&[1, 2, 3]);
    assert_eq!(t, TransportInformation { transport_protocol: Transport::Unknown, dst_port: None, src_port: None });
}

#[test]
fn flows_compare_by_destination_then_source() {
    let app = TransportInformation { transport_protocol: Transport::Udp, dst_port: Some(5678), src_port: None };
    assert!(app.compare(&parse_transport_header(&udp_packet(1, 5678))));
    assert!(!app.compare(&parse_transport_header(&udp_packet(5678, 1))));
    let by_src = TransportInformation { transport_protocol: Transport::Udp, dst_port: None, src_port: Some(42) };
    assert!(by_src.compare(&parse_transport_header(&udp_packet(42, 9))));
    let tcp = TransportInformation { transport_protocol: Transport::Tcp, dst_port: Some(5678), src_port: None };
    assert!(!tcp.compare(&parse_transport_header(&udp_packet(1, 5678))));
}

#[test]
fn flow_matching_is_symmetric() {
    let a = TransportInformation { transport_protocol: Transport::Udp, dst_port: Some(2), src_port: Some(1) };
    let b = TransportInformation { transport_protocol: Transport::Udp, dst_port: Some(2), src_port: None };
    assert!(a.compare(&b));
    assert!(b.compare(&a));
    let c = TransportInformation { transport_protocol: Transport::Udp, dst_port: None, src_port: Some(7) };
    let d = TransportInformation { transport_protocol: Transport::Udp, dst_port: None, src_port: Some(7) };
    assert!(c.compare(&d));
    let e = TransportInformation { transport_protocol: Transport::Udp, dst_port: Some(80), src_port: Some(5000) };
    let f = TransportInformation { transport_protocol: Transport::Udp, dst_port: Some(443), src_port: None };
    assert!(!e.compare(&f));
    assert!(!f.compare(&e));
}
