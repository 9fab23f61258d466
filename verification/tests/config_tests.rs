use seamless::config::{check_config, ConfigError, LinkMeasurementRef};
use seamless::external_measurement::ExternalMeasurementConfig;
use seamless::technology::{Technology, TechnologyConfig};

fn measurement(technology: Technology) -> TechnologyConfig {
    TechnologyConfig {
        technology,
        links: vec![],
        topic: "radio".to_string(),
        sub_topic: None,
        fields: vec!["rsrp".to_string()],
    }
}

fn link(name: &str, technology: Technology, m: Option<&str>) -> LinkMeasurementRef {
    LinkMeasurementRef { name: name.to_string(), technology, external_measurement: m.map(|s| s.to_string()) }
}

fn external() -> Option<ExternalMeasurementConfig> {
    Some(ExternalMeasurementConfig {
        zmq_ip: "localhost".to_string(),
        zmq_port: 5556,
        technologies: vec![("nr".to_string(), measurement(Technology::Nr)), ("wifi".to_string(), measurement(Technology::Wifi))],
    })
}

#[test]
fn config_without_links_is_refused() {
    let mut e = external();
    assert_eq!(check_config(&vec![], &mut e), Err(ConfigError::NoLinks));
}

#[test]
fn links_are_recorded_with_their_measurement() {
    let mut e = external();
    let links = vec![
        link("a", Technology::Nr, Some("nr")),
        link("b", Technology::Wifi, Some("wifi")),
        link("c", Technology::Nr, Some("nr")),
        link("d", Technology::Generic, None),
    ];
    assert_eq!(check_config(&links, &mut e), Ok(()));
    let e = e.unwrap();
    assert_eq!(e.technologies[0].1.links, vec!["a".to_string(), "c".to_string()]);
    assert_eq!(e.technologies[1].1.links, vec!["b".to_string()]);
}

#[test]
fn unknown_measurement_is_refused() {
    let mut e = external();
    let links = vec![link("a", Technology::Nr, Some("lte"))];
    assert_eq!(check_config(&links, &mut e), Err(ConfigError::TechnologyNotFound));
}

#[test]
fn technology_mismatch_is_refused() {
    let mut e = external();
    let links = vec![link("a", Technology::Lte, Some("nr"))];
    assert_eq!(check_config(&links, &mut e), Err(ConfigError::TechnologyMismatch));
}

#[test]
fn without_external_measurement_links_suffice() {
    let mut e = None;
    let links = vec![link("a", Technology::Lte, Some("nr"))];
    assert_eq!(check_config(&links, &mut e), Ok(()));
}
