use seamless::external_measurement::{
    read_message, route_measurement, split_at_white_space, subscriber_topics, subscription_topic, zmq_ip_default,
    ExternalMeasurementConfig,
};
use seamless::technology::{Technology, TechnologyConfig};

fn conf(links: Vec<&str>, sub: Option<&str>, fields: Vec<&str>) -> TechnologyConfig {
    TechnologyConfig {
        technology: Technology::Nr,
        links: links.into_iter().map(|s| s.to_string()).collect(),
        topic: "modem".to_string(),
        sub_topic: sub.map(|s| s.to_string()),
        fields: fields.into_iter().map(|s| s.to_string()).collect(),
    }
}

#[test]
fn address_and_default_host() {
    assert_eq!(zmq_ip_default(), "localhost");
    let c = ExternalMeasurementConfig { zmq_ip: "10.0.0.7".to_string(), zmq_port: 5556, technologies: vec![] };
    assert_eq!(c.address(), "tcp://10.0.0.7:5556");
    let c0 = ExternalMeasurementConfig { zmq_ip: "h".to_string(), zmq_port: 0, technologies: vec![] };
    assert_eq!(c0.address(), "tcp://h:0");
    let cmax = ExternalMeasurementConfig { zmq_ip: "h".to_string(), zmq_port: 65535, technologies: vec![] };
    assert_eq!(cmax.address(), "tcp://h:65535");
}

#[test]
fn topics_are_built_per_indicator() {
    let host = "car1".to_string();
    assert_eq!(subscription_topic(&host, &conf(vec![], Some("5g"), vec![]), &"sinr".to_string()), "car1 modem 5g sinr");
    assert_eq!(subscription_topic(&host, &conf(vec![], None, vec![]), &"sinr".to_string()), "car1 modem sinr");
    let techs = vec![
        ("nr".to_string(), conf(vec!["a"], None, vec!["sinr", "rsrp"])),
        ("wifi".to_string(), conf(vec!["b"], Some("w"), vec!["rssi"])),
    ];
    let topics = subscriber_topics(&host, &techs);
    assert_eq!(
        topics,
        vec![
            ("car1 modem sinr".to_string(), "nr".to_string()),
            ("car1 modem rsrp".to_string(), "nr".to_string()),
            ("car1 modem w rssi".to_string(), "wifi".to_string()),
        ]
    );
}

#[test]
fn messages_split_at_white_space() {
    assert_eq!(split_at_white_space("a b  c"), vec!["a", "b", "", "c"]);
    assert_eq!(split_at_white_space(""), vec![""]);
    assert_eq!(split_at_white_space("x\ty\u{3000}z"), vec!["x", "y", "z"]);
    let (topic, field, value) = read_message("car1 modem sinr 12.5");
    assert_eq!((topic.as_str(), field.as_str(), value.as_str()), ("car1 modem sinr", "sinr", "12.5"));
    let (topic, field, value) = read_message("lonely");
    assert_eq!((topic.as_str(), field.as_str(), value.as_str()), ("", "", "lonely"));
}

#[test]
fn messages_are_routed_to_the_measurement_links() {
    let host = "car1".to_string();
    let techs = vec![
        ("nr".to_string(), conf(vec!["a", "c"], None, vec!["sinr"])),
        ("wifi".to_string(), conf(vec!["b"], None, vec!["rssi"])),
    ];
    let topics = subscriber_topics(&host, &techs);
    let u = route_measurement(&topics, &techs, "car1 modem sinr 17").expect("subscribed");
    assert_eq!(u.links, vec!["a".to_string(), "c".to_string()]);
    assert_eq!(u.field, "sinr");
    assert_eq!(u.value, "17");
    assert!(route_measurement(&topics, &techs, "car2 modem sinr 17").is_none());
}
