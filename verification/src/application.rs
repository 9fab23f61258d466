use vstd::prelude::*;
use crate::link::DatarateSample;
use crate::scheduler::{Scheduler, SchedulerConfig, SchedulerError, LinkSnapshot, config_links, config_buildable, first_missing, built_from, schedule_outcome, snapshots_cover};
use crate::scheduler::scheduler_priority_quality::kpis_distinct;
use crate::link_set::names;
use crate::transport::{TransportInformation, flows_match};

verus! {

/// A higher layer service that is scheduled on its own: its name, the flow
/// that identifies its packets, whether its packets are reordered and its
/// scheduler.
#[derive(Debug)]
pub struct ApplicationConfig {
    pub name: String,
    pub transport_information: TransportInformation,
    pub reorder: bool,
    pub scheduler: SchedulerConfig,
}

/// Applications are reordered unless configured otherwise.
pub fn reorder_default() -> (r: bool)
    ensures
        r,
{
    true
}

/// A registered application with its own scheduler, stream id, packet
/// sequence and byte counters.
#[derive(Debug)]
pub struct Application {
    pub name: String,
    pub transport: TransportInformation,
    pub scheduler: Scheduler,
    pub reorder: bool,
    _bytes_sent: u128,
    _bytes_received: u128,
    _bytes_sent_total: u128,
    _bytes_received_total: u128,
    _last_datarate_calculation_timestamp: u128,
    _stream_id: u8,
    _sequence: u32,
}

/// The counters of an application.
pub struct ApplicationView {
    pub name: Seq<char>,
    pub transport: TransportInformation,
    pub scheduler: Scheduler,
    pub reorder: bool,
    pub bytes_sent: u128,
    pub bytes_received: u128,
    pub bytes_sent_total: u128,
    pub bytes_received_total: u128,
    pub last_datarate_calculation: u128,
    pub stream_id: u8,
    pub sequence: u32,
}

impl Application {
    pub closed spec fn view(&self) -> ApplicationView {
        ApplicationView {
            name: self.name@,
            transport: self.transport,
            scheduler: self.scheduler,
            reorder: self.reorder,
            bytes_sent: self._bytes_sent,
            bytes_received: self._bytes_received,
            bytes_sent_total: self._bytes_sent_total,
            bytes_received_total: self._bytes_received_total,
            last_datarate_calculation: self._last_datarate_calculation_timestamp,
            stream_id: self._stream_id,
            sequence: self._sequence,
        }
    }

    /// A new application; `now` is the current time in milliseconds.
    pub fn new(
        name: String,
        trans: TransportInformation,
        sched: Scheduler,
        reordering: bool,
        stream_id: u8,
        now: u128,
    ) -> (a: Application)
        ensures
            a.view() == (ApplicationView {
                name: name@,
                transport: trans,
                scheduler: sched,
                reorder: reordering,
                bytes_sent: 0,
                bytes_received: 0,
                bytes_sent_total: 0,
                bytes_received_total: 0,
                last_datarate_calculation: now,
                stream_id,
                sequence: 0,
            }),
    {
        Application {
            name,
            transport: trans,
            scheduler: sched,
            reorder: reordering,
            _bytes_received: 0,
            _bytes_received_total: 0,
            _bytes_sent: 0,
            _bytes_sent_total: 0,
            _last_datarate_calculation_timestamp: now,
            _stream_id: stream_id,
            _sequence: 0,
        }
    }

    /// Closes the current datarate window at time `now` (milliseconds): the
    /// bytes counted in it go to the totals and come back with the window's
    /// length.
    pub fn calculate_datarates(&mut self, now: u128) -> (sample: DatarateSample)
        requires
            now >= old(self).view().last_datarate_calculation,
            old(self).view().bytes_sent_total + old(self).view().bytes_sent <= u128::MAX,
            old(self).view().bytes_received_total + old(self).view().bytes_received <= u128::MAX,
        ensures
            sample == (DatarateSample {
                bytes_sent: old(self).view().bytes_sent,
                bytes_received: old(self).view().bytes_received,
                elapsed_ms: (now - old(self).view().last_datarate_calculation) as u128,
            }),
            final(self).view() == (ApplicationView {
                bytes_sent: 0,
                bytes_received: 0,
                bytes_sent_total: (old(self).view().bytes_sent_total + old(self).view().bytes_sent) as u128,
                bytes_received_total: (old(self).view().bytes_received_total
                    + old(self).view().bytes_received) as u128,
                last_datarate_calculation: now,
                ..old(self).view()
            }),
    {
        let sample = DatarateSample {
            bytes_sent: self._bytes_sent,
            bytes_received: self._bytes_received,
            elapsed_ms: now - self._last_datarate_calculation_timestamp,
        };
        self._bytes_sent_total = self._bytes_sent_total + self._bytes_sent;
        self._bytes_received_total = self._bytes_received_total + self._bytes_received;
        self._bytes_sent = 0;
        self._bytes_received = 0;
        self._last_datarate_calculation_timestamp = now;
        sample
    }

    pub fn increment_bytes_sent(&mut self, number_of_bytes: u32)
        requires
            old(self).view().bytes_sent + number_of_bytes <= u128::MAX,
        ensures
            final(self).view() == (ApplicationView {
                bytes_sent: (old(self).view().bytes_sent + number_of_bytes) as u128,
                ..old(self).view()
            }),
    {
        self._bytes_sent = self._bytes_sent + number_of_bytes as u128;
    }

    pub fn increment_bytes_received(&mut self, number_of_bytes: u32)
        requires
            old(self).view().bytes_received + number_of_bytes <= u128::MAX,
        ensures
            final(self).view() == (ApplicationView {
                bytes_received: (old(self).view().bytes_received + number_of_bytes) as u128,
                ..old(self).view()
            }),
    {
        self._bytes_received = self._bytes_received + number_of_bytes as u128;
    }

    pub fn get_bytes_sent(&self) -> (n: u128)
        ensures
            n == self.view().bytes_sent,
    {
        self._bytes_sent
    }

    pub fn get_bytes_received(&self) -> (n: u128)
        ensures
            n == self.view().bytes_received,
    {
        self._bytes_received
    }

    /// Whether the stream's sequence numbers and the byte counter leave room
    /// for one more packet of `len` bytes.
    pub fn fits_packet(&self, len: u32) -> (r: bool)
        ensures
            r == (self.view().sequence < u32::MAX && self.view().bytes_sent + len <= u128::MAX),
    {
        self._sequence < u32::MAX && self._bytes_sent <= u128::MAX - len as u128
    }

    pub fn get_bytes_sent_total(&self) -> (n: u128)
        ensures
            n == self.view().bytes_sent_total,
    {
        self._bytes_sent_total
    }

    pub fn get_bytes_received_total(&self) -> (n: u128)
        ensures
            n == self.view().bytes_received_total,
    {
        self._bytes_received_total
    }

    /// When the current datarate window started, in milliseconds.
    pub fn get_last_datarate_calculation(&self) -> (t: u128)
        ensures
            t == self.view().last_datarate_calculation,
    {
        self._last_datarate_calculation_timestamp
    }

    /// The next packet sequence number of the application's stream.
    pub fn get_next_sequence(&mut self) -> (s: u32)
        requires
            old(self).view().sequence < u32::MAX,
        ensures
            s == old(self).view().sequence + 1,
            final(self).view() == (ApplicationView { sequence: s, ..old(self).view() }),
            final(self).view() == after_sequences(old(self).view(), 1),
    {
        assert(after_sequences(old(self).view(), 0) == old(self).view());
        self._sequence = self._sequence + 1;
        self._sequence
    }

    pub fn get_stream_id(&self) -> (id: u8)
        ensures
            id == self.view().stream_id,
    {
        self._stream_id
    }
}


/// How a packet goes out: the links it is sent on, its stream sequence
/// number, its stream and whether the receiver reorders it.
#[derive(Debug)]
pub struct Dispatch {
    pub links: Vec<String>,
    pub sequence: u32,
    pub stream_id: u8,
    pub reorder: bool,
}

impl Application {
    /// Schedules a packet of the application with `len` bytes, from the
    /// current state of the links (`now` in nanoseconds): the packet gets
    /// the next sequence number of the stream and is counted as sent. Gives
    /// `None`, changing nothing but the scheduler's bookkeeping, when a round
    /// robin scheduler finds no usable link; the caller asks again with fresh
    /// link states.
    pub fn dispatch(&mut self, links: &Vec<LinkSnapshot>, now: u128, len: u32) -> (r: Option<Dispatch>)
        requires
            old(self).view().scheduler.wf(),
            snapshots_cover(links@, old(self).view().scheduler.links()),
            old(self).view().scheduler is PriorityQuality ==> kpis_distinct(links@),
            old(self).view().sequence < u32::MAX,
            old(self).view().bytes_sent + len <= u128::MAX,
        ensures
            final(self).view().scheduler.wf(),
            final(self).view().scheduler.links() == old(self).view().scheduler.links(),
            schedule_outcome(
                old(self).view().scheduler,
                links@,
                now,
                final(self).view().scheduler,
                match r {
                    Some(d) => Some(names(d.links@)),
                    None => None,
                },
            ),
            match r {
                Some(d) => {
                    &&& d.sequence == old(self).view().sequence + 1
                    &&& d.stream_id == old(self).view().stream_id
                    &&& d.reorder == old(self).view().reorder
                    &&& final(self).view() == ApplicationView {
                        scheduler: final(self).view().scheduler,
                        sequence: d.sequence,
                        bytes_sent: (old(self).view().bytes_sent + len) as u128,
                        ..old(self).view()
                    }
                },
                None => final(self).view() == ApplicationView {
                    scheduler: final(self).view().scheduler,
                    ..old(self).view()
                },
            },
    {
        match self.scheduler.schedule(links, now) {
            None => None,
            Some(chosen) => {
                let sequence = self.get_next_sequence();
                let stream_id = self.get_stream_id();
                self.increment_bytes_sent(len);
                Some(Dispatch { links: chosen, sequence, stream_id, reorder: self.reorder })
            },
        }
    }
}

/// The positions of the flows that a packet's flow belongs to, in order.
pub open spec fn matching_positions(flows: Seq<TransportInformation>, packet: TransportInformation) -> Seq<int>
    decreases flows.len(),
{
    if flows.len() == 0 {
        Seq::empty()
    } else {
        let rest = matching_positions(flows.drop_last(), packet);
        if flows_match(flows.last(), packet) {
            rest.push(flows.len() - 1)
        } else {
            rest
        }
    }
}

/// The flows of the applications.
pub open spec fn app_flows(apps: Seq<Application>) -> Seq<TransportInformation> {
    apps.map_values(|a: Application| a.view().transport)
}

/// The applications a packet with flow `packet` belongs to, by position.
pub fn matching_applications(apps: &Vec<Application>, packet: &TransportInformation) -> (r: Vec<usize>)
    ensures
        r@.map_values(|i: usize| i as int) == matching_positions(app_flows(apps@), *packet),
{
    let mut out: Vec<usize> = Vec::new();
    let mut i: usize = 0;
    while i < apps.len()
        invariant
            i <= apps.len(),
            out@.map_values(|k: usize| k as int) == matching_positions(app_flows(apps@).subrange(0, i as int), *packet),
        decreases apps.len() - i,
    {
        proof {
            let sub = app_flows(apps@).subrange(0, i + 1);
            assert(sub.drop_last() =~= app_flows(apps@).subrange(0, i as int));
            assert(sub.last() == apps@[i as int].view().transport);
        }
        let ghost before = out@;
        if apps[i].transport.compare(packet) {
            out.push(i);
            assert(out@.map_values(|k: usize| k as int) =~= before.map_values(|k: usize| k as int).push(i as int));
        }
        i = i + 1;
    }
    assert(app_flows(apps@).subrange(0, apps.len() as int) =~= app_flows(apps@));
    out
}

/// The application after `k` more packets were given sequence numbers.
pub open spec fn after_sequences(v: ApplicationView, k: nat) -> ApplicationView
    decreases k,
{
    if k == 0 {
        v
    } else {
        let p = after_sequences(v, (k - 1) as nat);
        ApplicationView { sequence: (p.sequence + 1) as u32, ..p }
    }
}

/// Sequence numbers count up by one per packet: after `k` packets the
/// stream's sequence number has grown by `k`, so on a new application the
/// `k`-th packet gets number `k`; nothing else changes.
pub proof fn lemma_sequences_count_up(v: ApplicationView, k: nat)
    requires
        v.sequence + k <= u32::MAX,
    ensures
        after_sequences(v, k).sequence == v.sequence + k,
        after_sequences(v, k) == (ApplicationView { sequence: after_sequences(v, k).sequence, ..v }),
    decreases k,
{
    if k > 0 {
        lemma_sequences_count_up(v, (k - 1) as nat);
    }
}

/// `e` reports the first link of `wanted` that is not among `known`.
pub open spec fn unknown_link_error(wanted: Seq<Seq<char>>, known: Seq<Seq<char>>, e: SchedulerError) -> bool {
    match first_missing(wanted, known) {
        Some(n) => e matches SchedulerError::UnknownLink(m) && m@ == n,
        None => false,
    }
}

/// Whether the scheduler of application `i` names only existing links.
pub open spec fn app_links_known(configs: Seq<ApplicationConfig>, link_names: Seq<Seq<char>>, i: int) -> bool {
    first_missing(config_links(configs[i].scheduler), link_names) is None
}

/// Sets up the applications of the configuration, in order: application `i`
/// gets stream id `i + 1` and its own scheduler over the links `link_names`
/// (`priorities[i]` as in [`Scheduler::new`]); `now` in milliseconds. Fails
/// with the error of the first application whose scheduler names a link that
/// does not exist.
#[verifier::rlimit(40)]
pub fn generate_applications(
    configs: &Vec<ApplicationConfig>,
    link_names: &Vec<String>,
    priorities: &Vec<Vec<u32>>,
    now: u128,
) -> (r: Result<Vec<Application>, SchedulerError>)
    requires
        configs.len() <= 255,
        priorities.len() == configs.len(),
        forall|i: int|
            0 <= i < configs.len() && (forall|j: int|
                0 <= j <= i ==> app_links_known(configs@, names(link_names@), j)) ==> config_buildable(
                #[trigger] configs@[i].scheduler,
                priorities@[i]@,
            ),
    ensures
        match r {
            Ok(apps) => {
                &&& forall|i: int| 0 <= i < configs.len() ==> app_links_known(configs@, names(link_names@), i)
                &&& apps.len() == configs.len()
                &&& forall|i: int|
                    0 <= i < apps.len() ==> {
                        let a = #[trigger] apps@[i].view();
                        &&& a.name == configs@[i].name@
                        &&& a.transport == configs@[i].transport_information
                        &&& a.reorder == configs@[i].reorder
                        &&& a.stream_id == i + 1
                        &&& a.sequence == 0
                        &&& a.bytes_sent == 0 && a.bytes_received == 0
                        &&& a.bytes_sent_total == 0 && a.bytes_received_total == 0
                        &&& a.last_datarate_calculation == now
                        &&& built_from(a.scheduler, configs@[i].scheduler, names(link_names@), priorities@[i]@)
                    }
            },
            Err(e) => exists|i: int|
                0 <= i < configs.len() && (forall|j: int|
                    0 <= j < i ==> app_links_known(configs@, names(link_names@), j)) && unknown_link_error(
                    config_links(#[trigger] configs@[i].scheduler),
                    names(link_names@),
                    e,
                ),
        },
{
    let mut apps: Vec<Application> = Vec::new();
    let mut i: usize = 0;
    while i < configs.len()
        invariant
            i <= configs.len() <= 255,
            priorities.len() == configs.len(),
            forall|i: int|
                0 <= i < configs.len() && (forall|j: int|
                    0 <= j <= i ==> app_links_known(configs@, names(link_names@), j)) ==> config_buildable(
                    #[trigger] configs@[i].scheduler,
                    priorities@[i]@,
                ),
            apps.len() == i,
            forall|j: int| 0 <= j < i ==> app_links_known(configs@, names(link_names@), j),
            forall|k: int|
                0 <= k < i ==> {
                    let a = #[trigger] apps@[k].view();
                    &&& a.name == configs@[k].name@
                    &&& a.transport == configs@[k].transport_information
                    &&& a.reorder == configs@[k].reorder
                    &&& a.stream_id == k + 1
                    &&& a.sequence == 0
                    &&& a.bytes_sent == 0 && a.bytes_received == 0
                    &&& a.bytes_sent_total == 0 && a.bytes_received_total == 0
                    &&& a.last_datarate_calculation == now
                    &&& built_from(a.scheduler, configs@[k].scheduler, names(link_names@), priorities@[k]@)
                },
        decreases configs.len() - i,
    {
        let app = &configs[i];
        let sched = match Scheduler::new(&app.scheduler, link_names, &priorities[i]) {
            Ok(s) => s,
            Err(e) => {
                return Err(e);
            },
        };
        let stream_id: u8 = (i as u8) + 1;
        apps.push(
            Application::new(app.name.clone(), app.transport_information, sched, app.reorder, stream_id, now),
        );
        i = i + 1;
    }
    Ok(apps)
}

} // verus!
