use seamless::application::{generate_applications, matching_applications, ApplicationConfig};
use seamless::config::UserGroup;
use seamless::link::{Link, LinkState};
use seamless::multilink::dispatch_default;
use seamless::network_interface::{tun_settings, InterfaceConfig, InterfaceError};
use seamless::scheduler::scheduler_singlelink::SingleLinkSchedulerConfig;
use seamless::scheduler::{LinkSnapshot, Scheduler, SchedulerConfig, SchedulerError};
use seamless::stream::Stream;
use seamless::technology::Technology;
use seamless::transport::{Transport, TransportInformation};

fn names(v: &[&str]) -> Vec<String> {
    v.iter().map(|s| s.to_string()).collect()
}

fn healthy(name: &str) -> LinkSnapshot {
    LinkSnapshot {
        name: name.to_string(),
        state: LinkState::Healthy,
        seq_received: 0,
        quality: 0,
        round_trip_time: None,
        kpis: vec![],
    }
}

fn app_config(name: &str, port: u16, link: &str) -> ApplicationConfig {
    ApplicationConfig {
        name: name.to_string(),
        transport_information: TransportInformation {
            transport_protocol: Transport::Udp,
            dst_port: Some(port),
            src_port: None,
        },
        reorder: true,
        scheduler: SchedulerConfig::SingleLink(SingleLinkSchedulerConfig { link: link.to_string() }),
    }
}

#[test]
fn applications_get_streams_and_sequences() {
    let configs = vec![app_config("video", 5000, "b"), app_config("control", 6000, "a")];
    let mut apps = generate_applications(&configs, &names(&["a", "b"]), &vec![vec![], vec![]], 10).unwrap();
    assert_eq!(apps[0].get_stream_id(), 1);
    assert_eq!(apps[1].get_stream_id(), 2);
    let packet = TransportInformation { transport_protocol: Transport::Udp, dst_port: Some(5000), src_port: Some(40000) };
    assert_eq!(matching_applications(&apps, &packet), vec![0]);
    let links = vec![healthy("a"), healthy("b")];
    assert!(apps[0].fits_packet(100));
    let d = apps[0].dispatch(&links, 0, 100).unwrap();
    assert_eq!(d.links, names(&["b"]));
    assert_eq!(d.sequence, 1);
    assert_eq!(d.stream_id, 1);
    assert!(d.reorder);
    assert_eq!(apps[0].get_bytes_sent(), 100);
    let d2 = apps[0].dispatch(&links, 1, 50).unwrap();
    assert_eq!(d2.sequence, 2);
    assert_eq!(apps[0].get_bytes_sent(), 150);
    let other = TransportInformation { transport_protocol: Transport::Tcp, dst_port: Some(5000), src_port: Some(1) };
    assert!(matching_applications(&apps, &other).is_empty());
}

#[test]
fn unknown_application_link_is_reported() {
    let configs = vec![app_config("video", 5000, "zz")];
    let r = generate_applications(&configs, &names(&["a"]), &vec![vec![]], 0);
    assert_eq!(r.err(), Some(SchedulerError::UnknownLink("zz".to_string())));
}

#[test]
fn default_stream_counts_up() {
    let mut global = Scheduler::new(&SchedulerConfig::RoundRobin, &names(&["a", "b"]), &vec![]).unwrap();
    let links = vec![healthy("a"), healthy("b")];
    let d = dispatch_default(&mut global, 0, &links, 0).unwrap();
    assert_eq!(d.sequence, 1);
    assert_eq!(d.stream_id, 0);
    assert!(d.reorder);
    assert_eq!(d.links, names(&["b"]));
    let d = dispatch_default(&mut global, d.sequence, &links, 0).unwrap();
    assert_eq!(d.sequence, 2);
    assert_eq!(d.links, names(&["a"]));
    assert_eq!(global.get_last_chosen_links(), names(&["a"]));
    assert_eq!(global.to_display_string(), "RoundRobin");
}

#[test]
fn tunnel_settings() {
    let config = InterfaceConfig {
        name: "tun0".to_string(),
        local_ip: [10, 0, 0, 1],
        remote_ip: [10, 0, 0, 2],
        mtu: 1400,
        netmask: [255, 255, 255, 0],
    };
    let s = tun_settings(&config, UserGroup::Regular { uid: 1000, gid: 100 }).unwrap();
    assert_eq!(s.mtu, 1400);
    assert_eq!(s.owner, Some((1000, 100)));
    assert_eq!(s.broadcast, [255, 255, 255, 255]);
    assert_eq!(s.local_ip, [10, 0, 0, 1]);
    assert_eq!(tun_settings(&config, UserGroup::Privileged).unwrap().owner, None);
    let big = InterfaceConfig { mtu: u32::MAX, ..config };
    assert_eq!(tun_settings(&big, UserGroup::Privileged).err(), Some(InterfaceError::MtuOutOfRange));
}

#[test]
fn preconditions_are_testable() {
    let mut l = Link::new("x".to_string(), 1, None, None, &Technology::Wifi, 0);
    assert!(l.fits_packet(1, 100));
    assert!(l.fits_check());
    assert!(l.counts_received());
    l.update_loss(1_000_000, 128);
    l.update_loss(u32::MAX - 2, 128);
    // an advance across the wrap by more than the window is refused
    assert!(!l.fits_packet(127, 0));
    assert!(l.fits_packet(100, 0));
    l.update_technology("quality".to_string(), 35.0f32.to_bits());
    assert_eq!(l.kpi_entries(), vec![("quality".to_string(), 35.0f32.to_bits())]);
    let mut s = Stream::new(Some(0), None);
    assert!(s.accepts(1, false));
    assert!(!s.accepts(5, false));
    assert!(!s.accepts(u32::MAX, true));
    s.handle_rx(1, vec![1], true, false);
    // a held duplicate is dropped, whatever its number
    assert!(s.accepts(1, true));
    assert!(!s.accepts(5, true));
}
