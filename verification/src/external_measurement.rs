//! External measurements: where they are published, which topics carry them
//! and how a received measurement message is routed to the links it
//! describes.

use vstd::prelude::*;
use crate::technology::TechnologyConfig;
use crate::link_set::names;
use crate::config::measurement_names;

verus! {

/// Where the external measurements are published and what they describe,
/// by measurement name.
#[derive(Debug, Clone)]
pub struct ExternalMeasurementConfig {
    pub zmq_ip: String,
    pub zmq_port: u16,
    pub technologies: Vec<(String, TechnologyConfig)>,
}

/// The character of a decimal digit.
pub open spec fn digit_char(d: nat) -> char {
    (48 + d) as char
}

/// The decimal notation of a number, without leading zeros.
pub open spec fn decimal(n: nat) -> Seq<char>
    decreases n,
{
    if n < 10 {
        seq![digit_char(n)]
    } else {
        decimal(n / 10).push(digit_char(n % 10))
    }
}

/// The host the measurements come from when none is configured.
pub fn zmq_ip_default() -> (s: String)
    ensures
        s@ == "localhost"@,
{
    String::from_str("localhost")
}

fn digit_str(d: u16) -> (s: &'static str)
    requires
        d < 10,
    ensures
        s@ == seq![digit_char(d as nat)],
{
    proof {
        reveal_strlit("0");
        reveal_strlit("1");
        reveal_strlit("2");
        reveal_strlit("3");
        reveal_strlit("4");
        reveal_strlit("5");
        reveal_strlit("6");
        reveal_strlit("7");
        reveal_strlit("8");
        reveal_strlit("9");
    }
    let s = match d {
        0 => "0",
        1 => "1",
        2 => "2",
        3 => "3",
        4 => "4",
        5 => "5",
        6 => "6",
        7 => "7",
        8 => "8",
        _ => "9",
    };
    assert(s@ =~= seq![digit_char(d as nat)]);
    s
}

fn append_decimal(s: &mut String, n: u16)
    ensures
        final(s)@ == old(s)@ + decimal(n as nat),
    decreases n,
{
    if n >= 10 {
        append_decimal(s, n / 10);
    }
    s.append(digit_str(n % 10));
    proof {
        if n >= 10 {
            assert(decimal(n as nat) == decimal((n / 10) as nat).push(digit_char((n % 10) as nat)));
        }
    }
    assert(final(s)@ =~= old(s)@ + decimal(n as nat));
}

/// The address of a measurement publisher.
pub open spec fn publisher_address(ip: Seq<char>, port: u16) -> Seq<char> {
    "tcp://"@ + ip + ":"@ + decimal(port as nat)
}

impl ExternalMeasurementConfig {
    /// The address to subscribe to, as `tcp://<ip>:<port>`.
    pub fn address(&self) -> (s: String)
        ensures
            s@ == publisher_address(self.zmq_ip@, self.zmq_port),
    {
        let mut s = String::from_str("tcp://");
        s.append(self.zmq_ip.as_str());
        s.append(":");
        append_decimal(&mut s, self.zmq_port);
        s
    }
}

/// The topic that carries indicator `kpi` of a measurement, for host
/// `hostname`: the host, the measurement's topic, its sub-topic if it has
/// one, and the indicator, separated by single spaces.
pub open spec fn topic_of(hostname: Seq<char>, conf: TechnologyConfig, kpi: Seq<char>) -> Seq<char> {
    let head = hostname + " "@ + conf.topic@;
    let with_sub = match conf.sub_topic {
        Some(sub) => head + " "@ + sub@,
        None => head,
    };
    with_sub + " "@ + kpi
}

/// The topic that carries indicator `kpi` of measurement `conf`.
pub fn subscription_topic(hostname: &String, conf: &TechnologyConfig, kpi: &String) -> (s: String)
    ensures
        s@ == topic_of(hostname@, *conf, kpi@),
{
    let mut topic = hostname.clone();
    topic.append(" ");
    topic.append(conf.topic.as_str());
    match &conf.sub_topic {
        Some(sub) => {
            topic.append(" ");
            topic.append(sub.as_str());
        },
        None => {},
    }
    topic.append(" ");
    topic.append(kpi.as_str());
    topic
}

/// The (topic, measurement) pairs of one measurement, one per indicator.
pub open spec fn measurement_topics(hostname: Seq<char>, entry: (String, TechnologyConfig)) -> Seq<(Seq<char>, Seq<char>)> {
    entry.1.fields@.map_values(|k: String| (topic_of(hostname, entry.1, k@), entry.0@))
}

/// The (topic, measurement) pairs of all measurements, in order.
pub open spec fn all_topics(hostname: Seq<char>, techs: Seq<(String, TechnologyConfig)>) -> Seq<(Seq<char>, Seq<char>)>
    decreases techs.len(),
{
    if techs.len() == 0 {
        Seq::empty()
    } else {
        all_topics(hostname, techs.drop_last()) + measurement_topics(hostname, techs.last())
    }
}

/// The pairs of strings as pairs of their views.
pub open spec fn pair_views(p: Seq<(String, String)>) -> Seq<(Seq<char>, Seq<char>)> {
    p.map_values(|e: (String, String)| (e.0@, e.1@))
}

/// The topics to subscribe to, each with the measurement it carries, in the
/// order of the measurements and of their indicators.
pub fn subscriber_topics(hostname: &String, technologies: &Vec<(String, TechnologyConfig)>) -> (r: Vec<(String, String)>)
    ensures
        pair_views(r@) == all_topics(hostname@, technologies@),
{
    let mut out: Vec<(String, String)> = Vec::new();
    let mut i: usize = 0;
    while i < technologies.len()
        invariant
            i <= technologies.len(),
            pair_views(out@) == all_topics(hostname@, technologies@.subrange(0, i as int)),
        decreases technologies.len() - i,
    {
        let ghost before = out@;
        let entry = &technologies[i];
        let mut k: usize = 0;
        while k < entry.1.fields.len()
            invariant
                k <= entry.1.fields.len(),
                *entry == technologies@[i as int],
                out@.len() == before.len() + k,
                forall|j: int| 0 <= j < before.len() ==> #[trigger] out@[j] == before[j],
                forall|j: int|
                    0 <= j < k ==> (#[trigger] out@[before.len() + j]).0@ == topic_of(
                        hostname@,
                        entry.1,
                        entry.1.fields@[j]@,
                    ) && out@[before.len() + j].1@ == entry.0@,
            decreases entry.1.fields.len() - k,
        {
            let topic = subscription_topic(hostname, &entry.1, &entry.1.fields[k]);
            out.push((topic, entry.0.clone()));
            k = k + 1;
        }
        proof {
            let sub = technologies@.subrange(0, i + 1);
            assert(sub.drop_last() =~= technologies@.subrange(0, i as int));
            assert(sub.last() == technologies@[i as int]);
            let want = pair_views(before) + measurement_topics(hostname@, *entry);
            assert forall|j: int| 0 <= j < out@.len() implies #[trigger] pair_views(out@)[j] == want[j] by {
                if j >= before.len() {
                    let kk = j - before.len();
                    assert(out@[before.len() + kk] == out@[j]);
                }
            }
            assert(pair_views(out@) =~= want);
        }
        i = i + 1;
    }
    assert(technologies@.subrange(0, technologies.len() as int) =~= technologies@);
    out
}

/// Whether `c` has the Unicode White_Space property.
pub open spec fn is_white_space(c: char) -> bool {
    let n = c as u32;
    (0x09 <= n <= 0x0d) || n == 0x20 || n == 0x85 || n == 0xa0 || n == 0x1680 || (0x2000 <= n
        <= 0x200a) || n == 0x2028 || n == 0x2029 || n == 0x202f || n == 0x205f || n == 0x3000
}

/// Whether `c` has the Unicode White_Space property.
pub fn char_is_white_space(c: char) -> (r: bool)
    ensures
        r == is_white_space(c),
{
    let n = c as u32;
    (0x09 <= n && n <= 0x0d) || n == 0x20 || n == 0x85 || n == 0xa0 || n == 0x1680 || (0x2000 <= n
        && n <= 0x200a) || n == 0x2028 || n == 0x2029 || n == 0x202f || n == 0x205f || n == 0x3000
}

/// The pieces of `s` between white space characters, empty pieces
/// included: a text without white space is one piece.
pub open spec fn split_white_space(s: Seq<char>) -> Seq<Seq<char>>
    decreases s.len(),
{
    if s.len() == 0 {
        seq![Seq::empty()]
    } else {
        let p = split_white_space(s.drop_last());
        if is_white_space(s.last()) {
            p.push(Seq::empty())
        } else {
            p.update(p.len() - 1, p.last().push(s.last()))
        }
    }
}

/// Splitting always gives at least one piece.
pub proof fn lemma_split_nonempty(s: Seq<char>)
    ensures
        split_white_space(s).len() >= 1,
    decreases s.len(),
{
    if s.len() > 0 {
        lemma_split_nonempty(s.drop_last());
    }
}

/// The pieces of `s` between white space characters.
pub fn split_at_white_space(s: &str) -> (r: Vec<String>)
    ensures
        names(r@) == split_white_space(s@),
{
    let n = s.unicode_len();
    let mut pieces: Vec<String> = Vec::new();
    let mut start: usize = 0;
    let mut i: usize = 0;
    assert(s@.subrange(0, 0) =~= Seq::<char>::empty());
    assert(names(pieces@) =~= Seq::<Seq<char>>::empty());
    assert(names(pieces@).push(s@.subrange(0, 0)) =~= seq![Seq::<char>::empty()]);
    while i < n
        invariant
            n == s@.len(),
            start <= i <= n,
            names(pieces@).push(s@.subrange(start as int, i as int)) == split_white_space(
                s@.subrange(0, i as int),
            ),
        decreases n - i,
    {
        let c = s.get_char(i);
        proof {
            let pre = s@.subrange(0, i + 1);
            assert(pre.drop_last() =~= s@.subrange(0, i as int));
            assert(pre.last() == c);
            lemma_split_nonempty(s@.subrange(0, i as int));
        }
        if char_is_white_space(c) {
            let piece = String::from_str(s.substring_char(start, i));
            let ghost before = pieces@;
            pieces.push(piece);
            proof {
                assert(names(pieces@) =~= names(before).push(s@.subrange(start as int, i as int)));
                assert(s@.subrange((i + 1) as int, (i + 1) as int) =~= Seq::<char>::empty());
            }
            start = i + 1;
        } else {
            proof {
                assert(s@.subrange(start as int, i + 1) =~= s@.subrange(start as int, i as int).push(c));
                let p = split_white_space(s@.subrange(0, i as int));
                assert(names(pieces@).push(s@.subrange(start as int, i + 1)) =~= p.update(
                    p.len() - 1,
                    p.last().push(c),
                ));
            }
        }
        i = i + 1;
    }
    let last = String::from_str(s.substring_char(start, n));
    let ghost before = pieces@;
    pieces.push(last);
    proof {
        assert(s@.subrange(0, n as int) =~= s@);
        assert(names(pieces@) =~= names(before).push(s@.subrange(start as int, n as int)));
    }
    pieces
}

/// The pieces joined with single spaces.
pub open spec fn join_with_space(p: Seq<Seq<char>>) -> Seq<char>
    decreases p.len(),
{
    if p.len() == 0 {
        Seq::empty()
    } else if p.len() == 1 {
        p[0]
    } else {
        join_with_space(p.drop_last()) + " "@ + p.last()
    }
}

/// How a measurement message reads: the topic is every piece but the last,
/// joined with spaces; the indicator is the piece before the value (empty
/// if there is none); the value is the last piece.
pub open spec fn message_parts(msg: Seq<char>) -> (Seq<char>, Seq<char>, Seq<char>) {
    let pieces = split_white_space(msg);
    let rest = pieces.drop_last();
    let field = if rest.len() > 0 {
        rest.last()
    } else {
        Seq::empty()
    };
    (join_with_space(rest), field, pieces.last())
}

fn join_pieces(p: &Vec<String>, count: usize) -> (s: String)
    requires
        count <= p.len(),
    ensures
        s@ == join_with_space(names(p@).subrange(0, count as int)),
{
    let mut s = String::new();
    let mut i: usize = 0;
    while i < count
        invariant
            i <= count <= p.len(),
            s@ == join_with_space(names(p@).subrange(0, i as int)),
        decreases count - i,
    {
        proof {
            let sub = names(p@).subrange(0, i + 1);
            assert(sub.drop_last() =~= names(p@).subrange(0, i as int));
            assert(sub.last() == p@[i as int]@);
        }
        if i > 0 {
            s.append(" ");
        }
        s.append(p[i].as_str());
        proof {
            if i == 0 {
                assert(s@ =~= names(p@).subrange(0, 1)[0]);
            }
        }
        i = i + 1;
    }
    s
}

/// A measurement message taken apart into topic, indicator and value.
pub fn read_message(msg: &str) -> (r: (String, String, String))
    ensures
        (r.0@, r.1@, r.2@) == message_parts(msg@),
{
    let pieces = split_at_white_space(msg);
    proof {
        lemma_split_nonempty(msg@);
    }
    let n = pieces.len();
    let value = pieces[n - 1].clone();
    let topic = join_pieces(&pieces, n - 1);
    let field = if n >= 2 {
        pieces[n - 2].clone()
    } else {
        String::new()
    };
    proof {
        let p = split_white_space(msg@);
        assert(p.drop_last() =~= names(pieces@).subrange(0, n - 1));
    }
    (topic, field, value)
}

/// The measurement that the last entry with topic `topic` names, if any.
pub open spec fn measurement_of_topic(topics: Seq<(Seq<char>, Seq<char>)>, topic: Seq<char>) -> Option<Seq<char>>
    decreases topics.len(),
{
    if topics.len() == 0 {
        None
    } else if topics.last().0 == topic {
        Some(topics.last().1)
    } else {
        measurement_of_topic(topics.drop_last(), topic)
    }
}

/// The links a measurement message updates, with the indicator and its
/// value: those of the measurement its topic belongs to.
pub struct MeasurementUpdate {
    pub links: Vec<String>,
    pub field: String,
    pub value: String,
}

/// What a message does: `None` if its topic is not subscribed to, else the
/// links of its measurement, the indicator and the value.
pub open spec fn routed(
    topics: Seq<(Seq<char>, Seq<char>)>,
    techs: Seq<(String, TechnologyConfig)>,
    msg: Seq<char>,
) -> Option<(Seq<Seq<char>>, Seq<char>, Seq<char>)> {
    let (topic, field, value) = message_parts(msg);
    match measurement_of_topic(topics, topic) {
        Some(m) => Some(
            (
                names(
                    techs[crate::scheduler::time_to_trigger::position_of(measurement_names(techs), m)].1.links@,
                ),
                field,
                value,
            ),
        ),
        None => None,
    }
}

fn find_topic(topics: &Vec<(String, String)>, topic: &String) -> (r: Option<usize>)
    ensures
        match r {
            Some(i) => i < topics.len() && measurement_of_topic(pair_views(topics@), topic@) == Some(
                topics@[i as int].1@,
            ),
            None => measurement_of_topic(pair_views(topics@), topic@) is None,
        },
{
    let mut i: usize = topics.len();
    assert(pair_views(topics@).subrange(0, i as int) =~= pair_views(topics@));
    while i > 0
        invariant
            i <= topics.len(),
            measurement_of_topic(pair_views(topics@), topic@) == measurement_of_topic(
                pair_views(topics@).subrange(0, i as int),
                topic@,
            ),
        decreases i,
    {
        let ghost sub = pair_views(topics@).subrange(0, i as int);
        assert(sub.last() == (topics@[i - 1].0@, topics@[i - 1].1@));
        assert(sub.drop_last() =~= pair_views(topics@).subrange(0, i - 1));
        if topics[i - 1].0 == *topic {
            return Some(i - 1);
        }
        i = i - 1;
    }
    None
}

/// Routes a measurement message to the links it describes.
pub fn route_measurement(
    topics: &Vec<(String, String)>,
    technologies: &Vec<(String, TechnologyConfig)>,
    msg: &str,
) -> (r: Option<MeasurementUpdate>)
    requires
        measurement_names(technologies@).no_duplicates(),
        forall|j: int|
            0 <= j < topics.len() ==> measurement_names(technologies@).contains(
                #[trigger] topics@[j].1@,
            ),
    ensures
        match r {
            Some(u) => routed(pair_views(topics@), technologies@, msg@) == Some(
                (names(u.links@), u.field@, u.value@),
            ),
            None => routed(pair_views(topics@), technologies@, msg@) is None,
        },
{
    let (topic, field, value) = read_message(msg);
    match find_topic(topics, &topic) {
        None => None,
        Some(i) => {
            let m = &topics[i].1;
            assert(measurement_names(technologies@).contains(m@));
            let mut k: usize = 0;
            while k < technologies.len()
                invariant
                    k <= technologies.len(),
                    measurement_names(technologies@).no_duplicates(),
                    measurement_names(technologies@).contains(m@),
                    forall|j: int| 0 <= j < k ==> measurement_names(technologies@)[j] != m@,
                    message_parts(msg@) == (topic@, field@, value@),
                    measurement_of_topic(pair_views(topics@), topic@) == Some(m@),
                decreases technologies.len() - k,
            {
                assert(measurement_names(technologies@)[k as int] == technologies@[k as int].0@);
                if technologies[k].0 == *m {
                    proof {
                        crate::scheduler::time_to_trigger::lemma_position_unique(
                            measurement_names(technologies@),
                            k as int,
                        );
                    }
                    let links = crate::link_set::copy_names(&technologies[k].1.links);
                    proof {
                        assert(routed(pair_views(topics@), technologies@, msg@) == Some(
                            (names(links@), field@, value@),
                        ));
                    }
                    return Some(MeasurementUpdate { links, field, value });
                }
                k = k + 1;
            }
            proof {
                let j = choose|j: int|
                    0 <= j < measurement_names(technologies@).len() && measurement_names(
                        technologies@,
                    )[j] == m@;
                assert(false);
            }
            None
        },
    }
}

/// `s` holds no white space.
pub open spec fn no_white_space(s: Seq<char>) -> bool {
    forall|i: int| 0 <= i < s.len() ==> !is_white_space(#[trigger] s[i])
}

proof fn lemma_split_single(s: Seq<char>)
    requires
        no_white_space(s),
    ensures
        split_white_space(s) == seq![s],
    decreases s.len(),
{
    if s.len() == 0 {
        assert(s =~= Seq::<char>::empty());
    } else {
        assert(no_white_space(s.drop_last()) && !is_white_space(s[s.len() - 1]));
        lemma_split_single(s.drop_last());
        assert(s.drop_last().push(s.last()) =~= s);
        assert(seq![s.drop_last()].update(0, s.drop_last().push(s.last())) =~= seq![s]);
    }
}

proof fn lemma_split_at(a: Seq<char>, c: char, b: Seq<char>)
    requires
        is_white_space(c),
    ensures
        split_white_space(a + seq![c] + b) == split_white_space(a) + split_white_space(b),
    decreases b.len(),
{
    let s = a + seq![c] + b;
    if b.len() == 0 {
        assert(s.drop_last() =~= a);
        assert(s.last() == c);
        assert(split_white_space(b) == seq![Seq::<char>::empty()]);
        assert(split_white_space(a).push(Seq::empty()) =~= split_white_space(a) + seq![Seq::<char>::empty()]);
    } else {
        let b1 = b.drop_last();
        assert(s.drop_last() =~= a + seq![c] + b1);
        assert(s.last() == b.last());
        lemma_split_at(a, c, b1);
        lemma_split_nonempty(b1);
        lemma_split_nonempty(a);
        let pa = split_white_space(a);
        let pb = split_white_space(b1);
        if is_white_space(b.last()) {
            assert((pa + pb).push(Seq::empty()) =~= pa + pb.push(Seq::empty()));
        } else {
            let p = pa + pb;
            assert(p.update(p.len() - 1, p.last().push(b.last())) =~= pa + pb.update(
                pb.len() - 1,
                pb.last().push(b.last()),
            ));
        }
    }
}

/// Joining pieces without white space with single spaces and splitting the
/// result at white space gives the pieces back.
pub proof fn lemma_split_join(p: Seq<Seq<char>>)
    requires
        p.len() >= 1,
        forall|i: int| 0 <= i < p.len() ==> no_white_space(#[trigger] p[i]),
    ensures
        split_white_space(join_with_space(p)) == p,
    decreases p.len(),
{
    reveal_strlit(" ");
    if p.len() == 1 {
        lemma_split_single(p[0]);
        assert(seq![p[0]] =~= p);
    } else {
        let q = p.drop_last();
        assert forall|i: int| 0 <= i < q.len() implies no_white_space(#[trigger] q[i]) by {
            assert(q[i] == p[i]);
        }
        lemma_split_join(q);
        assert(" "@ =~= seq![' ']);
        assert(join_with_space(p) == join_with_space(q) + seq![' '] + p.last());
        lemma_split_at(join_with_space(q), ' ', p.last());
        assert(no_white_space(p[p.len() - 1]));
        lemma_split_single(p.last());
        assert(q + seq![p.last()] =~= p);
    }
}

/// The pieces a topic is made of: host, topic, sub-topic if any, indicator.
pub open spec fn topic_pieces(hostname: Seq<char>, conf: TechnologyConfig, kpi: Seq<char>) -> Seq<Seq<char>> {
    match conf.sub_topic {
        Some(sub) => seq![hostname, conf.topic@, sub@, kpi],
        None => seq![hostname, conf.topic@, kpi],
    }
}

/// A measurement published on a subscribed topic is read back as it was
/// published: when host, topic, sub-topic, indicator and value hold no white
/// space, the message `<topic> <value>` reads as that topic, that indicator
/// and that value, and goes to the links of the measurement the topic was
/// last subscribed for.
pub proof fn lemma_published_value_read_back(
    topics: Seq<(Seq<char>, Seq<char>)>,
    techs: Seq<(String, TechnologyConfig)>,
    hostname: Seq<char>,
    conf: TechnologyConfig,
    kpi: Seq<char>,
    value: Seq<char>,
)
    requires
        no_white_space(hostname),
        no_white_space(conf.topic@),
        conf.sub_topic matches Some(sub) ==> no_white_space(sub@),
        no_white_space(kpi),
        no_white_space(value),
    ensures
        ({
            let topic = topic_of(hostname, conf, kpi);
            let msg = topic + " "@ + value;
            &&& message_parts(msg) == (topic, kpi, value)
            &&& routed(topics, techs, msg) == match measurement_of_topic(topics, topic) {
                Some(m) => Some(
                    (
                        names(
                            techs[crate::scheduler::time_to_trigger::position_of(
                                measurement_names(techs),
                                m,
                            )].1.links@,
                        ),
                        kpi,
                        value,
                    ),
                ),
                None => None,
            }
        }),
{
    reveal_strlit(" ");
    let pieces = topic_pieces(hostname, conf, kpi);
    let all = pieces.push(value);
    assert(" "@ =~= seq![' ']);
    match conf.sub_topic {
        Some(sub) => {
            let p1 = seq![hostname];
            let p2 = seq![hostname, conf.topic@];
            let p3 = seq![hostname, conf.topic@, sub@];
            assert(p2.drop_last() =~= p1);
            assert(p3.drop_last() =~= p2);
            assert(pieces.drop_last() =~= p3);
            assert(join_with_space(p1) == hostname);
            assert(join_with_space(p2) == join_with_space(p1) + " "@ + conf.topic@);
            assert(join_with_space(p3) == join_with_space(p2) + " "@ + sub@);
            assert(join_with_space(pieces) == join_with_space(p3) + " "@ + kpi);
            assert(join_with_space(pieces) =~= topic_of(hostname, conf, kpi));
        },
        None => {
            let p1 = seq![hostname];
            let p2 = seq![hostname, conf.topic@];
            assert(p2.drop_last() =~= p1);
            assert(pieces.drop_last() =~= p2);
            assert(join_with_space(p1) == hostname);
            assert(join_with_space(p2) == join_with_space(p1) + " "@ + conf.topic@);
            assert(join_with_space(pieces) == join_with_space(p2) + " "@ + kpi);
            assert(join_with_space(pieces) =~= topic_of(hostname, conf, kpi));
        },
    }
    assert(all.drop_last() =~= pieces);
    assert(join_with_space(all) == join_with_space(pieces) + " "@ + value);
    assert forall|i: int| 0 <= i < all.len() implies no_white_space(#[trigger] all[i]) by {}
    lemma_split_join(all);
}

} // verus!
