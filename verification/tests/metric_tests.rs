use seamless::metric::{
    join_links, link_metric_labels, DataDirection, DatarateType, Influxdb1Config, Influxdb2Config, Metric,
    MetricConfig, MetricsToReportConfig, ReportFlags, ReportingConfig,
};

fn influx1(host: &str) -> ReportingConfig {
    ReportingConfig::Influxdb1(Influxdb1Config { host: host.to_string(), port: 8086, db: "m".to_string() })
}

fn influx2(host: &str) -> ReportingConfig {
    ReportingConfig::Influxdb2(Influxdb2Config {
        host: host.to_string(),
        port: 8086,
        org: "o".to_string(),
        token: "t".to_string(),
        bucket: "b".to_string(),
    })
}

#[test]
fn settings_take_last_backend_and_list() {
    let confs = vec![
        MetricConfig {
            name: "one".to_string(),
            report_to: influx1("h1"),
            metrics_to_report: Some(vec![MetricsToReportConfig::Datarate]),
            reporting_interval: None,
        },
        MetricConfig {
            name: "two".to_string(),
            report_to: influx2("h2"),
            metrics_to_report: None,
            reporting_interval: Some(5),
        },
        MetricConfig {
            name: "three".to_string(),
            report_to: influx1("h3"),
            metrics_to_report: Some(vec![MetricsToReportConfig::LinkLoss, MetricsToReportConfig::ChosenLinks]),
            reporting_interval: None,
        },
    ];
    let m = Metric::new(&confs);
    assert_eq!(m.influxdb1_parameter.as_ref().unwrap().host, "h3");
    assert_eq!(m.influxdb2_parameter.as_ref().unwrap().host, "h2");
    assert_eq!(m.reporting_interval, 1_000_000_000);
    assert_eq!(m.metrics_to_report, Some(vec![MetricsToReportConfig::LinkLoss, MetricsToReportConfig::ChosenLinks]));
    let f = ReportFlags::from_metrics(&m.metrics_to_report);
    assert!(f.link_loss && f.chosen_links);
    assert!(!f.datarate && !f.round_trip_time && !f.link_state);
    assert!(!f.megabytes_sent_total && !f.megabytes_received_total);
}

#[test]
fn first_interval_counts() {
    let confs = vec![MetricConfig {
        name: "x".to_string(),
        report_to: influx2("h"),
        metrics_to_report: None,
        reporting_interval: Some(250),
    }];
    let m = Metric::new(&confs);
    assert_eq!(m.reporting_interval, 250);
    assert!(m.influxdb1_parameter.is_none());
    assert_eq!(ReportFlags::from_metrics(&m.metrics_to_report).datarate, false);
}

#[test]
fn labels_of_points() {
    let l = DatarateType::Application("video".to_string()).labels(DataDirection::In);
    assert_eq!((l.measurement.as_str(), l.kind.as_str(), l.name.as_str(), l.field.as_str()), ("application", "application", "video", "datarate_in"));
    let l = DatarateType::Link("wan".to_string()).labels(DataDirection::Out);
    assert_eq!((l.measurement.as_str(), l.field.as_str()), ("link", "datarate_out"));
    let l = link_metric_labels(&"wan".to_string(), "round_trip_time");
    assert_eq!((l.measurement.as_str(), l.kind.as_str(), l.field.as_str()), ("link", "link", "round_trip_time"));
}

#[test]
fn chosen_links_are_joined() {
    assert_eq!(join_links(&vec!["a".to_string(), "b".to_string(), "c".to_string()]), "a, b, c");
    assert_eq!(join_links(&vec![]), "");
    assert_eq!(join_links(&vec!["solo".to_string()]), "solo");
}
