use seamless::link::{Link, LinkState};
use seamless::multilink::{
    announce_start, decode_packet, encode_packet, frame_data_packet, highest_round_trip_time, link_ids,
    monitor_link, monitoring_interval_or_default, packet_type_for, plan_receive, receive_on_link,
    Delivery, LinkSequencer, ReceivePlan,
};
use seamless::packet::{build_keepalive_multilink_header, build_multilink_header, PacketType};
use seamless::technology::Technology;

fn link() -> Link {
    Link::new("wan".to_string(), 4, None, None, &Technology::Generic, 0)
}

#[test]
fn received_data_updates_link() {
    let mut l = link();
    let h = build_multilink_header(PacketType::Data, 1, 1, true, 10, 300, true, 70_000u32 as u16);
    let mut h = h;
    h.link_seq = 1;
    h.link_id = 9;
    let r = receive_on_link(&mut l, &h, 10, 70_100);
    // the echoed timestamp 4464 (70000 mod 65536) answers at 4564
    assert_eq!(r.rtt_sample, Some(100));
    assert!(r.reply.is_none());
    assert_eq!(l.get_bytes_received(), 10);
    assert_eq!(l.get_seq_received(), 1);
    assert_eq!(l.count_lost(1), 0);
    // the peer's timestamp is echoed in the next outgoing packet
    assert_eq!(l.get_rtt_calculation_due(70_100), Some(300));
}

#[test]
fn received_keepalive_is_answered_when_due() {
    let mut l = link();
    let mut k = build_keepalive_multilink_header(55, false, 0, 1);
    k.link_id = 2;
    let r = receive_on_link(&mut l, &k, 0, 500);
    let reply = r.reply.expect("a keepalive is due");
    assert_eq!(reply.pkt_type, PacketType::Keepalive);
    assert_eq!(reply.link_id, 4);
    assert!(reply.srrt_calculation);
    assert_eq!(reply.timestamp_reply, 55);
    assert_eq!(reply.timestamp, 500);
    assert_eq!(l.get_last_keepalive_received(), 500);
    assert_eq!(l.get_last_keepalive_sent(), 500);
    assert_eq!(l.get_bytes_sent(), 20);
    // a second keepalive right after is not answered
    let mut k2 = k;
    k2.link_seq = 2;
    let r2 = receive_on_link(&mut l, &k2, 0, 550);
    assert!(r2.reply.is_none());
}

#[test]
fn receive_plans() {
    let mut h = build_multilink_header(PacketType::DataDup, 1, 1, true, 0, 0, false, 0);
    assert_eq!(plan_receive(&h), ReceivePlan { reset_link: false, open_stream: true, deliver: Delivery::Stream { dedup: true } });
    h.pkt_type = PacketType::Data;
    assert_eq!(plan_receive(&h), ReceivePlan { reset_link: false, open_stream: true, deliver: Delivery::Stream { dedup: false } });
    h.reorder = false;
    assert_eq!(plan_receive(&h), ReceivePlan { reset_link: false, open_stream: false, deliver: Delivery::Tunnel });
    h.pkt_type = PacketType::Initiate;
    assert_eq!(plan_receive(&h), ReceivePlan { reset_link: true, open_stream: false, deliver: Delivery::Nothing });
    h.pkt_type = PacketType::Keepalive;
    assert_eq!(plan_receive(&h).deliver, Delivery::Nothing);
}

#[test]
fn highest_rtt_skips_unmeasured() {
    let rtts = vec![12.0f32.to_bits(), f32::MAX.to_bits(), 30.5f32.to_bits(), 7.0f32.to_bits()];
    assert_eq!(highest_round_trip_time(&rtts), 30.5f32.to_bits());
    assert_eq!(highest_round_trip_time(&vec![]), 0.0f32.to_bits());
    assert_eq!(highest_round_trip_time(&vec![f32::MAX.to_bits()]), 0);
    assert_eq!(highest_round_trip_time(&vec![f32::NAN.to_bits(), 2.0f32.to_bits()]), 2.0f32.to_bits());
}

#[test]
fn monitor_sends_keepalive_and_checks() {
    let mut l = link();
    let r = monitor_link(&mut l, 1000, false, true);
    let k = r.expect("keepalive due");
    assert_eq!(k.pkt_type, PacketType::Keepalive);
    assert_eq!(k.link_id, 4);
    assert!(!k.srrt_calculation);
    assert_eq!(l.get_link_state(), LinkState::HighLatency);
    assert!(monitor_link(&mut l, 1050, true, true).is_none());
    assert_eq!(l.get_link_state(), LinkState::Healthy);
}

#[test]
fn monitor_takes_silent_link_down() {
    let mut l = link();
    l.update_last_keepalive_received(100);
    monitor_link(&mut l, 1200, true, true);
    assert_eq!(l.get_link_state(), LinkState::Down);
}

#[test]
fn data_packets_are_framed_per_link() {
    assert_eq!(packet_type_for(1), PacketType::Data);
    assert_eq!(packet_type_for(2), PacketType::DataDup);
    let mut l = link();
    l.update_timestamps(40, 100);
    let h = frame_data_packet(&mut l, PacketType::Data, 2, 17, true, 100, 120);
    assert_eq!(h.len, 120);
    assert_eq!(h.stream_id, 2);
    assert_eq!(h.stream_seq, 17);
    assert_eq!(h.link_id, 4);
    assert!(h.srrt_calculation);
    assert_eq!(h.timestamp_reply, 60);
    assert_eq!(h.timestamp, 120);
    assert_eq!(l.get_bytes_sent(), 120);
}

#[test]
fn start_is_announced() {
    let mut l = link();
    let h = announce_start(&mut l);
    assert_eq!(h.pkt_type, PacketType::Initiate);
    assert_eq!(h.link_id, 4);
    assert_eq!(l.get_bytes_sent(), 20);
}

#[test]
fn wire_encoding_roundtrip() {
    let h = build_multilink_header(PacketType::Data, 5, 77, true, 3, 9, false, 0);
    let bytes = encode_packet(&h, 1234, &vec![7, 8, 9]);
    assert_eq!(bytes.len(), 23);
    let (d, payload) = decode_packet(&bytes);
    assert_eq!(payload, vec![7, 8, 9]);
    assert_eq!(d.link_seq, 1234);
    assert_eq!(d.stream_seq, 77);
    assert_eq!(d.stream_id, 5);
    assert!(d.reorder);
}

#[test]
fn link_sequence_wraps() {
    let mut s = LinkSequencer::new();
    assert_eq!(s.next(), 1);
    assert_eq!(s.next(), 2);
    let mut last = 0;
    for _ in 0..3 {
        last = s.next();
    }
    assert_eq!(last, 5);
}

#[test]
fn defaults_and_ids() {
    assert_eq!(monitoring_interval_or_default(None), 200_000_000);
    assert_eq!(monitoring_interval_or_default(Some(5)), 5);
    assert_eq!(link_ids(3), vec![1, 2, 3]);
}

#[test]
fn receiver_deduplicates_what_went_out_twice() {
    let mut l = link();
    let h = frame_data_packet(&mut l, packet_type_for(2), 3, 9, true, 10, 0);
    assert_eq!(plan_receive(&h), ReceivePlan { reset_link: false, open_stream: true, deliver: Delivery::Stream { dedup: true } });
    let h = frame_data_packet(&mut l, packet_type_for(1), 3, 10, true, 10, 0);
    assert_eq!(plan_receive(&h), ReceivePlan { reset_link: false, open_stream: true, deliver: Delivery::Stream { dedup: false } });
    let h = frame_data_packet(&mut l, packet_type_for(2), 3, 11, false, 10, 0);
    assert_eq!(plan_receive(&h), ReceivePlan { reset_link: false, open_stream: false, deliver: Delivery::Tunnel });
}
