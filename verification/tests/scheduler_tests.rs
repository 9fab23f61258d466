use seamless::link::LinkState;
use seamless::scheduler::scheduler_bestquality::BestQualitySchedulerConfig;
use seamless::scheduler::scheduler_redundant::RedundantSchedulerConfig;
use seamless::scheduler::scheduler_roundrobin::RoundRobinScheduler;
use seamless::scheduler::scheduler_singlelink::SingleLinkSchedulerConfig;
use seamless::scheduler::smooth_transition::SmoothTransition;
use seamless::scheduler::time_to_trigger::SchedulerTimeToTrigger;
use seamless::scheduler::{is_usable, LinkSnapshot, Scheduler, SchedulerConfig, SchedulerError};

fn snap(name: &str, state: LinkState, quality: f32) -> LinkSnapshot {
    LinkSnapshot {
        name: name.to_string(),
        state,
        seq_received: 500,
        quality: quality.to_bits(),
        round_trip_time: None,
        kpis: vec![],
    }
}

fn names(v: &[&str]) -> Vec<String> {
    v.iter().map(|s| s.to_string()).collect()
}

#[test]
fn usable_links() {
    assert!(is_usable(LinkState::Healthy, 1000));
    assert!(is_usable(LinkState::HighLoss, 127));
    assert!(!is_usable(LinkState::HighLoss, 128));
    assert!(!is_usable(LinkState::Down, 0));
    assert!(!is_usable(LinkState::HighLatency, 0));
}

#[test]
fn round_robin_takes_turns_and_skips_unusable() {
    let mut rr = RoundRobinScheduler::new(names(&["a", "b", "c"]));
    let mut links = vec![
        snap("a", LinkState::Healthy, 0.0),
        snap("b", LinkState::Healthy, 0.0),
        snap("c", LinkState::Healthy, 0.0),
    ];
    assert_eq!(rr.schedule(&links), Some(names(&["b"])));
    assert_eq!(rr.schedule(&links), Some(names(&["c"])));
    assert_eq!(rr.schedule(&links), Some(names(&["a"])));
    links[1].state = LinkState::Down;
    assert_eq!(rr.schedule(&links), Some(names(&["c"])));
    assert_eq!(rr.get_last_chosen_links(), names(&["c"]));
    for l in links.iter_mut() {
        l.state = LinkState::Down;
    }
    assert_eq!(rr.schedule(&links), None);
}

#[test]
fn scheduler_setup_reports_unknown_links() {
    let config = SchedulerConfig::SingleLink(SingleLinkSchedulerConfig { link: "x".to_string() });
    let r = Scheduler::new(&config, &names(&["a", "b"]), &vec![]);
    assert_eq!(r.err(), Some(SchedulerError::UnknownLink("x".to_string())));
    let config = SchedulerConfig::Redundant(RedundantSchedulerConfig { links: names(&["a", "z", "y"]) });
    let r = Scheduler::new(&config, &names(&["a", "b"]), &vec![]);
    assert_eq!(r.err(), Some(SchedulerError::UnknownLink("z".to_string())));
}

#[test]
fn single_link_only_when_usable() {
    let config = SchedulerConfig::SingleLink(SingleLinkSchedulerConfig { link: "b".to_string() });
    let mut s = Scheduler::new(&config, &names(&["a", "b"]), &vec![]).unwrap();
    assert_eq!(s.to_display_string(), "SingleLink");
    let mut links = vec![snap("a", LinkState::Healthy, 0.0), snap("b", LinkState::Healthy, 0.0)];
    assert_eq!(s.schedule(&links, 0), Some(names(&["b"])));
    links[1].state = LinkState::Down;
    assert_eq!(s.schedule(&links, 0), Some(vec![]));
    assert!(s.get_last_chosen_links().is_empty());
}

#[test]
fn redundant_uses_all_usable() {
    let config = SchedulerConfig::Redundant(RedundantSchedulerConfig { links: names(&["a", "b", "c"]) });
    let mut s = Scheduler::new(&config, &names(&["a", "b", "c"]), &vec![]).unwrap();
    let links = vec![
        snap("a", LinkState::Healthy, 0.0),
        snap("b", LinkState::Down, 0.0),
        snap("c", LinkState::Healthy, 0.0),
    ];
    let mut chosen = s.schedule(&links, 0).unwrap();
    chosen.sort();
    assert_eq!(chosen, names(&["a", "c"]));
}

#[test]
fn best_quality_switches_after_time_to_trigger() {
    let config = SchedulerConfig::BestQuality(BestQualitySchedulerConfig {
        links: names(&["a", "b"]),
        time_to_trigger: Some(10),
    });
    let mut s = Scheduler::new(&config, &names(&["a", "b"]), &vec![]).unwrap();
    let links = vec![snap("a", LinkState::Healthy, 20.0), snap("b", LinkState::Healthy, 80.0)];
    assert_eq!(s.schedule(&links, 100), Some(names(&["a"])));
    assert_eq!(s.schedule(&links, 105), Some(names(&["a"])));
    assert_eq!(s.schedule(&links, 111), Some(names(&["b"])));
    assert_eq!(s.to_display_string(), "BestQuality");
}

#[test]
fn time_to_trigger_resets_when_challenger_falls_back() {
    let mut t = SchedulerTimeToTrigger::new(names(&["a", "b"]), Some(10));
    let better = vec![("a".to_string(), 1.0f32.to_bits()), ("b".to_string(), 2.0f32.to_bits())];
    let worse = vec![("a".to_string(), 1.0f32.to_bits()), ("b".to_string(), 0.5f32.to_bits())];
    t.update(&better, 0);
    t.update(&worse, 5);
    t.update(&better, 12);
    assert_eq!(t.get_serving_link(), "a");
    t.update(&better, 23);
    assert_eq!(t.get_serving_link(), "b");
}

#[test]
fn smooth_transition_keeps_old_links_during_handover() {
    let mut s = SmoothTransition::new(Some(100));
    assert_eq!(s.smooth_out(names(&["a"]), 0), names(&["a"]));
    let mut during = s.smooth_out(names(&["b"]), 10);
    during.sort();
    assert_eq!(during, names(&["a", "b"]));
    assert_eq!(s.smooth_out(names(&["b"]), 200), names(&["b"]));
    assert_eq!(s.smooth_out(names(&["b"]), 300), names(&["b"]));
    let mut plain = SmoothTransition::new(None);
    assert_eq!(plain.smooth_out(names(&["x"]), 0), names(&["x"]));
}

#[test]
fn time_to_trigger_ignores_unwatched_losers() {
    let mut t = SchedulerTimeToTrigger::new(names(&["a", "b"]), Some(10));
    let values = vec![
        ("a".to_string(), 5.0f32.to_bits()),
        ("stranger".to_string(), 1.0f32.to_bits()),
        ("b".to_string(), 2.0f32.to_bits()),
    ];
    t.update(&values, 0);
    t.update(&values, 100);
    assert_eq!(t.get_serving_link(), "a");
}

#[test]
fn quality_schedulers_choose_configured_links() {
    let config = SchedulerConfig::BestQuality(BestQualitySchedulerConfig { links: names(&["b", "c"]), time_to_trigger: Some(0) });
    let mut s = Scheduler::new(&config, &names(&["a", "b", "c"]), &vec![]).unwrap();
    let links = vec![
        snap("a", LinkState::Healthy, 99.0),
        snap("b", LinkState::Down, 0.0),
        snap("c", LinkState::Healthy, 50.0),
    ];
    for now in 0..5 {
        let chosen = s.schedule(&links, now).unwrap();
        assert_eq!(chosen.len(), 1);
        assert!(chosen[0] == "b" || chosen[0] == "c");
    }
    assert_eq!(s.get_last_chosen_links(), names(&["c"]));
}
