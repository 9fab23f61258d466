//! Metric reporting: which backends are reported to, how often, which
//! metrics, and how each reported point is labelled.

use vstd::prelude::*;
use crate::link_set::names;
use crate::scheduler::time_to_trigger::NANOS_PER_MILLI;

verus! {

/// An InfluxDB 1 backend.
#[derive(Debug)]
pub struct Influxdb1Config {
    pub host: String,
    pub port: u16,
    pub db: String,
}

/// An InfluxDB 2 backend.
#[derive(Debug)]
pub struct Influxdb2Config {
    pub host: String,
    pub port: u16,
    pub org: String,
    pub token: String,
    pub bucket: String,
}

/// The backend a metric configuration reports to.
#[derive(Debug)]
pub enum ReportingConfig {
    Influxdb1(Influxdb1Config),
    Influxdb2(Influxdb2Config),
}

/// A kind of metric that can be reported.
#[derive(Debug, Clone, Copy, PartialEq, Eq, Structural)]
pub enum MetricsToReportConfig {
    Datarate,
    RoundTripTime,
    LinkState,
    LinkLoss,
    MegabytesSentTotal,
    MegabytesReceivedTotal,
    ChosenLinks,
}

/// One metric configuration: a backend, the metrics to report and the
/// reporting interval in nanoseconds.
#[derive(Debug)]
pub struct MetricConfig {
    pub name: String,
    pub report_to: ReportingConfig,
    pub metrics_to_report: Option<Vec<MetricsToReportConfig>>,
    pub reporting_interval: Option<u128>,
}

/// What a datarate is reported for.
#[derive(Debug)]
pub enum DatarateType {
    Link(String),
    Multilink(String),
    Application(String),
}

/// The direction of a datarate.
#[derive(Debug, Clone, Copy, PartialEq, Eq, Structural)]
pub enum DataDirection {
    In,
    Out,
}

/// The parts of an InfluxDB 1 backend that matter.
pub open spec fn influxdb1_view(c: Influxdb1Config) -> (Seq<char>, u16, Seq<char>) {
    (c.host@, c.port, c.db@)
}

/// The parts of an InfluxDB 2 backend that matter.
pub open spec fn influxdb2_view(c: Influxdb2Config) -> (Seq<char>, u16, Seq<char>, Seq<char>, Seq<char>) {
    (c.host@, c.port, c.org@, c.token@, c.bucket@)
}

impl Influxdb1Config {
    /// A copy of the backend.
    pub fn duplicate(&self) -> (c: Self)
        ensures
            influxdb1_view(c) == influxdb1_view(*self),
    {
        Influxdb1Config { host: self.host.clone(), port: self.port, db: self.db.clone() }
    }
}

impl Influxdb2Config {
    /// A copy of the backend.
    pub fn duplicate(&self) -> (c: Self)
        ensures
            influxdb2_view(c) == influxdb2_view(*self),
    {
        Influxdb2Config {
            host: self.host.clone(),
            port: self.port,
            org: self.org.clone(),
            token: self.token.clone(),
            bucket: self.bucket.clone(),
        }
    }
}

/// The InfluxDB 1 backend of the last configuration that names one.
pub open spec fn last_influxdb1(confs: Seq<MetricConfig>) -> Option<Influxdb1Config>
    decreases confs.len(),
{
    if confs.len() == 0 {
        None
    } else {
        match confs.last().report_to {
            ReportingConfig::Influxdb1(p) => Some(p),
            _ => last_influxdb1(confs.drop_last()),
        }
    }
}

/// The InfluxDB 2 backend of the last configuration that names one.
pub open spec fn last_influxdb2(confs: Seq<MetricConfig>) -> Option<Influxdb2Config>
    decreases confs.len(),
{
    if confs.len() == 0 {
        None
    } else {
        match confs.last().report_to {
            ReportingConfig::Influxdb2(p) => Some(p),
            _ => last_influxdb2(confs.drop_last()),
        }
    }
}

/// The metric list of the last configuration that gives one.
pub open spec fn last_metrics(confs: Seq<MetricConfig>) -> Option<Seq<MetricsToReportConfig>>
    decreases confs.len(),
{
    if confs.len() == 0 {
        None
    } else {
        match confs.last().metrics_to_report {
            Some(m) => Some(m@),
            None => last_metrics(confs.drop_last()),
        }
    }
}

/// The reporting set-up that a list of metric configurations gives.
#[derive(Debug)]
pub struct Metric {
    pub influxdb2_parameter: Option<Influxdb2Config>,
    pub influxdb1_parameter: Option<Influxdb1Config>,
    pub reporting_interval: u128,
    pub metrics_to_report: Option<Vec<MetricsToReportConfig>>,
}

/// Two optional backends agree.
pub open spec fn same_influxdb1(a: Option<Influxdb1Config>, b: Option<Influxdb1Config>) -> bool {
    match (a, b) {
        (Some(x), Some(y)) => influxdb1_view(x) == influxdb1_view(y),
        (None, None) => true,
        _ => false,
    }
}

/// Two optional backends agree.
pub open spec fn same_influxdb2(a: Option<Influxdb2Config>, b: Option<Influxdb2Config>) -> bool {
    match (a, b) {
        (Some(x), Some(y)) => influxdb2_view(x) == influxdb2_view(y),
        (None, None) => true,
        _ => false,
    }
}

/// The view of an optional metric list.
pub open spec fn metrics_view(m: Option<Vec<MetricsToReportConfig>>) -> Option<Seq<MetricsToReportConfig>> {
    match m {
        Some(v) => Some(v@),
        None => None,
    }
}

fn copy_metrics(m: &Vec<MetricsToReportConfig>) -> (r: Vec<MetricsToReportConfig>)
    ensures
        r@ == m@,
{
    let mut out: Vec<MetricsToReportConfig> = Vec::new();
    let mut i: usize = 0;
    while i < m.len()
        invariant
            i <= m.len(),
            out@ == m@.subrange(0, i as int),
        decreases m.len() - i,
    {
        out.push(m[i]);
        assert(out@ =~= m@.subrange(0, i + 1));
        i = i + 1;
    }
    assert(m@.subrange(0, m.len() as int) =~= m@);
    out
}

impl Metric {
    /// The set-up of a non-empty list of metric configurations: for each
    /// backend the last configuration that names it, the last metric list
    /// given, and the first configuration's interval (one second if it
    /// gives none).
    pub fn new(conf_metrics: &Vec<MetricConfig>) -> (m: Metric)
        requires
            conf_metrics.len() > 0,
        ensures
            same_influxdb2(m.influxdb2_parameter, last_influxdb2(conf_metrics@)),
            same_influxdb1(m.influxdb1_parameter, last_influxdb1(conf_metrics@)),
            metrics_view(m.metrics_to_report) == last_metrics(conf_metrics@),
            m.reporting_interval == match conf_metrics@[0].reporting_interval {
                Some(t) => t,
                None => (1000 * NANOS_PER_MILLI) as u128,
            },
    {
        let mut influxdb2_parameter: Option<Influxdb2Config> = None;
        let mut influxdb1_parameter: Option<Influxdb1Config> = None;
        let mut metrics_to_report: Option<Vec<MetricsToReportConfig>> = None;
        let mut i: usize = 0;
        while i < conf_metrics.len()
            invariant
                i <= conf_metrics.len(),
                same_influxdb2(influxdb2_parameter, last_influxdb2(conf_metrics@.subrange(0, i as int))),
                same_influxdb1(influxdb1_parameter, last_influxdb1(conf_metrics@.subrange(0, i as int))),
                metrics_view(metrics_to_report) == last_metrics(conf_metrics@.subrange(0, i as int)),
            decreases conf_metrics.len() - i,
        {
            let ghost sub = conf_metrics@.subrange(0, i + 1);
            assert(sub.drop_last() =~= conf_metrics@.subrange(0, i as int));
            assert(sub.last() == conf_metrics@[i as int]);
            let conf = &conf_metrics[i];
            match &conf.report_to {
                ReportingConfig::Influxdb2(p) => {
                    influxdb2_parameter = Some(p.duplicate());
                },
                ReportingConfig::Influxdb1(p) => {
                    influxdb1_parameter = Some(p.duplicate());
                },
            }
            match &conf.metrics_to_report {
                Some(list) => {
                    metrics_to_report = Some(copy_metrics(list));
                },
                None => {},
            }
            i = i + 1;
        }
        assert(conf_metrics@.subrange(0, conf_metrics.len() as int) =~= conf_metrics@);
        let reporting_interval = match conf_metrics[0].reporting_interval {
            Some(t) => t,
            None => 1000 * NANOS_PER_MILLI,
        };
        Metric { influxdb2_parameter, influxdb1_parameter, reporting_interval, metrics_to_report }
    }
}

/// Which metrics are reported in a round.
#[derive(Debug, Clone, Copy, PartialEq, Eq, Structural)]
pub struct ReportFlags {
    pub datarate: bool,
    pub round_trip_time: bool,
    pub link_state: bool,
    pub link_loss: bool,
    pub megabytes_sent_total: bool,
    pub megabytes_received_total: bool,
    pub chosen_links: bool,
}

/// Whether metric `k` is listed.
pub open spec fn listed(m: Option<Seq<MetricsToReportConfig>>, k: MetricsToReportConfig) -> bool {
    match m {
        Some(list) => list.contains(k),
        None => false,
    }
}

impl ReportFlags {
    /// The metrics to report in a round: those listed.
    pub fn from_metrics(metrics_to_report: &Option<Vec<MetricsToReportConfig>>) -> (f: ReportFlags)
        ensures
            f.datarate == listed(metrics_view(*metrics_to_report), MetricsToReportConfig::Datarate),
            f.round_trip_time == listed(metrics_view(*metrics_to_report), MetricsToReportConfig::RoundTripTime),
            f.link_state == listed(metrics_view(*metrics_to_report), MetricsToReportConfig::LinkState),
            f.link_loss == listed(metrics_view(*metrics_to_report), MetricsToReportConfig::LinkLoss),
            f.megabytes_sent_total == listed(
                metrics_view(*metrics_to_report),
                MetricsToReportConfig::MegabytesSentTotal,
            ),
            f.megabytes_received_total == listed(
                metrics_view(*metrics_to_report),
                MetricsToReportConfig::MegabytesReceivedTotal,
            ),
            f.chosen_links == listed(metrics_view(*metrics_to_report), MetricsToReportConfig::ChosenLinks),
    {
        let mut f = ReportFlags {
            datarate: false,
            round_trip_time: false,
            link_state: false,
            link_loss: false,
            megabytes_sent_total: false,
            megabytes_received_total: false,
            chosen_links: false,
        };
        match metrics_to_report {
            Some(list) => {
                let mut i: usize = 0;
                while i < list.len()
                    invariant
                        i <= list.len(),
                        f.datarate == list@.subrange(0, i as int).contains(MetricsToReportConfig::Datarate),
                        f.round_trip_time == list@.subrange(0, i as int).contains(
                            MetricsToReportConfig::RoundTripTime,
                        ),
                        f.link_state == list@.subrange(0, i as int).contains(MetricsToReportConfig::LinkState),
                        f.link_loss == list@.subrange(0, i as int).contains(MetricsToReportConfig::LinkLoss),
                        f.megabytes_sent_total == list@.subrange(0, i as int).contains(
                            MetricsToReportConfig::MegabytesSentTotal,
                        ),
                        f.megabytes_received_total == list@.subrange(0, i as int).contains(
                            MetricsToReportConfig::MegabytesReceivedTotal,
                        ),
                        f.chosen_links == list@.subrange(0, i as int).contains(
                            MetricsToReportConfig::ChosenLinks,
                        ),
                    decreases list.len() - i,
                {
                    let ghost pre = list@.subrange(0, i as int);
                    let ghost post = list@.subrange(0, i + 1);
                    assert(post =~= pre.push(list@[i as int]));
                    assert forall|k: MetricsToReportConfig| #[trigger] post.contains(k) == (pre.contains(k) || k
                        == list@[i as int]) by {
                        if post.contains(k) {
                            let j = choose|j: int| 0 <= j < post.len() && post[j] == k;
                            if j < pre.len() {
                                assert(pre[j] == k);
                            }
                        }
                        if pre.contains(k) {
                            let j = choose|j: int| 0 <= j < pre.len() && pre[j] == k;
                            assert(post[j] == k);
                        }
                        if k == list@[i as int] {
                            assert(post[i as int] == k);
                        }
                    }
                    match list[i] {
                        MetricsToReportConfig::Datarate => f.datarate = true,
                        MetricsToReportConfig::RoundTripTime => f.round_trip_time = true,
                        MetricsToReportConfig::LinkState => f.link_state = true,
                        MetricsToReportConfig::LinkLoss => f.link_loss = true,
                        MetricsToReportConfig::MegabytesSentTotal => f.megabytes_sent_total = true,
                        MetricsToReportConfig::MegabytesReceivedTotal => f.megabytes_received_total = true,
                        MetricsToReportConfig::ChosenLinks => f.chosen_links = true,
                    }
                    i = i + 1;
                }
                assert(list@.subrange(0, list.len() as int) =~= list@);
            },
            None => {},
        }
        f
    }
}

/// The name of the field a datarate in direction `d` is reported under.
pub open spec fn direction_field(d: DataDirection) -> Seq<char> {
    match d {
        DataDirection::In => "datarate_in"@,
        DataDirection::Out => "datarate_out"@,
    }
}

/// The kind of thing a datarate is reported for, as labelled in reports.
pub open spec fn datarate_kind(t: DatarateType) -> Seq<char> {
    match t {
        DatarateType::Link(_) => "link"@,
        DatarateType::Multilink(_) => "multilink"@,
        DatarateType::Application(_) => "application"@,
    }
}

/// The name of the thing a datarate is reported for.
pub open spec fn datarate_name(t: DatarateType) -> Seq<char> {
    match t {
        DatarateType::Link(n) => n@,
        DatarateType::Multilink(n) => n@,
        DatarateType::Application(n) => n@,
    }
}

/// How a reported point is labelled: its measurement, the `type` tag of
/// the single-measurement layout, the `name` tag and the field.
pub struct PointLabels {
    pub measurement: String,
    pub kind: String,
    pub name: String,
    pub field: String,
}

impl DataDirection {
    /// The name of the field a datarate in this direction is reported under.
    pub fn field_name(&self) -> (s: String)
        ensures
            s@ == direction_field(*self),
    {
        match self {
            DataDirection::In => String::from_str("datarate_in"),
            DataDirection::Out => String::from_str("datarate_out"),
        }
    }
}

impl DatarateType {
    /// How a datarate of this kind, in direction `direction`, is labelled:
    /// the measurement and the `type` tag are the kind of thing it is for.
    pub fn labels(&self, direction: DataDirection) -> (l: PointLabels)
        ensures
            l.measurement@ == datarate_kind(*self),
            l.kind@ == datarate_kind(*self),
            l.name@ == datarate_name(*self),
            l.field@ == direction_field(direction),
    {
        let (kind, name) = match self {
            DatarateType::Link(n) => (String::from_str("link"), n.clone()),
            DatarateType::Multilink(n) => (String::from_str("multilink"), n.clone()),
            DatarateType::Application(n) => (String::from_str("application"), n.clone()),
        };
        PointLabels { measurement: kind.clone(), kind, name, field: direction.field_name() }
    }
}

/// Labels of a metric of link `name` reported under field `field`: the
/// measurement and the `type` tag are `link`.
pub fn link_metric_labels(name: &String, field: &str) -> (l: PointLabels)
    ensures
        l.measurement@ == "link"@,
        l.kind@ == "link"@,
        l.name@ == name@,
        l.field@ == field@,
{
    PointLabels {
        measurement: String::from_str("link"),
        kind: String::from_str("link"),
        name: name.clone(),
        field: String::from_str(field),
    }
}

/// The names joined with `", "`.
pub open spec fn join_with_comma(p: Seq<Seq<char>>) -> Seq<char>
    decreases p.len(),
{
    if p.len() == 0 {
        Seq::empty()
    } else if p.len() == 1 {
        p[0]
    } else {
        join_with_comma(p.drop_last()) + ", "@ + p.last()
    }
}

/// The chosen links as they are reported: joined with `", "`.
pub fn join_links(links: &Vec<String>) -> (s: String)
    ensures
        s@ == join_with_comma(names(links@)),
{
    let mut s = String::new();
    let mut i: usize = 0;
    while i < links.len()
        invariant
            i <= links.len(),
            s@ == join_with_comma(names(links@).subrange(0, i as int)),
        decreases links.len() - i,
    {
        proof {
            let sub = names(links@).subrange(0, i + 1);
            assert(sub.drop_last() =~= names(links@).subrange(0, i as int));
            assert(sub.last() == links@[i as int]@);
        }
        if i > 0 {
            s.append(", ");
        }
        s.append(links[i].as_str());
        proof {
            if i == 0 {
                assert(s@ =~= names(links@).subrange(0, 1)[0]);
            }
        }
        i = i + 1;
    }
    assert(names(links@).subrange(0, links.len() as int) =~= names(links@));
    s
}

} // verus!
