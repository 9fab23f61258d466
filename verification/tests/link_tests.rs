use seamless::link::{Link, LinkState, RttComputationMethod};
use seamless::technology::Technology;

fn link() -> Link {
    Link::new("wan".to_string(), 3, None, None, &Technology::Generic, 1000)
}

#[test]
fn new_link_is_healthy() {
    let l = link();
    assert_eq!(l.get_link_state(), LinkState::Healthy);
    assert_eq!(l.get_link_id(), 3);
    assert_eq!(l.get_bytes_sent(), 0);
    assert_eq!(l.get_last_keepalive_sent(), 0);
    assert_eq!(l.rtt_computation_method(), RttComputationMethod::SmoothedTcpStyle);
}

#[test]
fn loss_window_counts_missing_packets() {
    let mut l = link();
    l.update_loss(1, 128);
    l.update_loss(2, 128);
    l.update_loss(5, 128);
    // the window now marks 5, 2 and 1; 3 and 4 are missing, and so is
    // everything before 1 (up to the window's size)
    assert_eq!(l.count_lost(4), 2);
    assert_eq!(l.count_lost(5), 2);
    l.update_loss(4, 128);
    assert_eq!(l.count_lost(5), 1);
    assert_eq!(l.count_lost(128), 128 - 4);
}

#[test]
fn loss_window_wraps_around() {
    let mut l = link();
    l.update_loss(u32::MAX - 1, 128);
    l.update_loss(1, 128);
    // u32::MAX and 0 are missing between MAX-1 and 1
    assert_eq!(l.count_lost(4), 2);
    l.update_loss(0, 128);
    assert_eq!(l.count_lost(4), 1);
}

#[test]
fn checks_move_between_states() {
    let mut l = link();
    l.check_high_latency(false);
    assert_eq!(l.get_link_state(), LinkState::HighLatency);
    l.check_high_loss(false);
    assert_eq!(l.get_link_state(), LinkState::HighLatencyAndHighLoss);
    l.check_high_latency(true);
    assert_eq!(l.get_link_state(), LinkState::HighLoss);
    l.check_high_loss(true);
    assert_eq!(l.get_link_state(), LinkState::Healthy);
}

#[test]
fn timeout_takes_link_down_and_back_up() {
    let mut l = link();
    assert!(!l.get_link_timeout(5000));
    l.update_last_keepalive_received(2000);
    assert!(l.get_link_timeout(3001));
    assert_eq!(l.get_link_state(), LinkState::Down);
    l.update_last_keepalive_received(3000);
    assert!(!l.get_link_timeout(3500));
    assert_eq!(l.get_link_state(), LinkState::Healthy);
}

#[test]
fn rtt_echo_is_shifted_and_consumed() {
    let mut l = link();
    l.update_timestamps(1000, 2000);
    assert_eq!(l.get_rtt_calculation_due(2030), Some(1030));
    assert_eq!(l.get_rtt_calculation_due(2031), None);
    l.update_timestamps(1000, 2000);
    assert_eq!(l.get_rtt_calculation_due(3500), None);
}

#[test]
fn rtt_sample_wraps() {
    let mut l = link();
    l.update_timestamps(7, 10);
    assert_eq!(l.rtt_sample(65530), 16);
}

#[test]
fn datarate_window_moves_bytes_to_totals() {
    let mut l = link();
    l.increment_bytes_sent(100);
    l.increment_bytes_received(40);
    let s = l.calculate_datarates(1500);
    assert_eq!((s.bytes_sent, s.bytes_received, s.elapsed_ms), (100, 40, 500));
    assert_eq!(l.get_bytes_sent(), 0);
    assert_eq!(l.get_bytes_sent_total(), 100);
    assert_eq!(l.get_bytes_received_total(), 40);
}

#[test]
fn keepalive_due_after_interval() {
    let mut l = link();
    l.update_last_keepalive_sent(1000);
    assert!(!l.get_next_keepalive_due(1100));
    assert!(l.get_next_keepalive_due(1101));
}

#[test]
fn down_link_notes_sequence_on_return() {
    let mut l = link();
    l.notify_interface_down();
    assert_eq!(l.get_link_state(), LinkState::Down);
    l.update_loss(40, 128);
    l.update_loss(45, 128);
    l._update_link_state(LinkState::Healthy);
    l.update_loss(50, 128);
    assert_eq!(l.get_seq_received(), 5);
}

#[test]
fn reset_clears_counters() {
    let mut l = link();
    l.increment_bytes_sent(10);
    l.update_loss(3, 128);
    l.reset(9000);
    assert_eq!(l.get_bytes_sent(), 0);
    assert_eq!(l.get_seq_received(), 0);
    assert_eq!(l.get_link_state(), LinkState::Healthy);
}

#[test]
fn technology_values_are_kept() {
    let mut l = Link::new("5g".to_string(), 1, None, None, &Technology::Nr, 0);
    l.update_technology("ss_sinr".to_string(), 12.5f32.to_bits());
    assert_eq!(l.get_kpi(&"ss_sinr".to_string()), Some(12.5f32.to_bits()));
    assert_eq!(l.get_kpi(&"rsrp".to_string()), None);
}

#[test]
fn link_state_names() {
    assert_eq!(LinkState::HighLatencyAndHighLoss.to_display_string(), "HighLatencyAndHighLoss");
    assert_eq!(LinkState::Down.to_display_string(), "Down");
}

#[test]
fn in_order_packets_fill_the_window() {
    let mut l = link();
    l.update_loss(10, 128);
    let mut lost = l.count_lost(128);
    for seq in 11..139u32 {
        l.update_loss(seq, 128);
        let now_lost = l.count_lost(128);
        assert!(now_lost <= lost);
        lost = now_lost;
    }
    assert_eq!(l.count_lost(128), 0);
}
