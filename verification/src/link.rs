use vstd::prelude::*;
use crate::technology::{Technology, TechnologyData, lists_map};
use crate::packet::{MultiLinkHeader, MULTILINK_HEADER_SIZE};

verus! {

/// The health of a link as seen by the monitoring.
#[derive(Debug, Clone, Copy, PartialEq, Eq, Structural)]
pub enum LinkState {
    Down,
    Healthy,
    HighLatency,
    HighLoss,
    HighLatencyAndHighLoss,
}

/// How round trip time samples are combined.
#[derive(Debug, Clone, Copy, PartialEq, Eq, Structural)]
pub enum RttComputationMethod {
    Plain,
    SmoothedTcpStyle,
}

impl LinkState {
    /// The name of the state, as it is reported.
    pub fn to_display_string(&self) -> (s: String)
        ensures
            s@ == link_state_name(*self),
    {
        match self {
            LinkState::Down => String::from_str("Down"),
            LinkState::Healthy => String::from_str("Healthy"),
            LinkState::HighLatency => String::from_str("HighLatency"),
            LinkState::HighLoss => String::from_str("HighLoss"),
            LinkState::HighLatencyAndHighLoss => String::from_str("HighLatencyAndHighLoss"),
        }
    }
}

/// The name of a link state.
pub open spec fn link_state_name(s: LinkState) -> Seq<char> {
    match s {
        LinkState::Down => "Down"@,
        LinkState::Healthy => "Healthy"@,
        LinkState::HighLatency => "HighLatency"@,
        LinkState::HighLoss => "HighLoss"@,
        LinkState::HighLatencyAndHighLoss => "HighLatencyAndHighLoss"@,
    }
}

/// Whether a state reports a too high latency.
pub open spec fn has_high_latency(s: LinkState) -> bool {
    s == LinkState::HighLatency || s == LinkState::HighLatencyAndHighLoss
}

/// Whether a state reports a too high loss.
pub open spec fn has_high_loss(s: LinkState) -> bool {
    s == LinkState::HighLoss || s == LinkState::HighLatencyAndHighLoss
}

/// The state after a latency check whose measured round trip time was
/// (`within`) or was not within tolerance. A down link stays down.
pub open spec fn latency_transition(s: LinkState, within: bool) -> LinkState {
    if within {
        match s {
            LinkState::HighLatency => LinkState::Healthy,
            LinkState::HighLatencyAndHighLoss => LinkState::HighLoss,
            _ => s,
        }
    } else {
        match s {
            LinkState::Healthy => LinkState::HighLatency,
            LinkState::HighLoss => LinkState::HighLatencyAndHighLoss,
            _ => s,
        }
    }
}

/// The state after a loss check whose measured loss was (`within`) or was not
/// within tolerance. A down link stays down.
pub open spec fn loss_transition(s: LinkState, within: bool) -> LinkState {
    if within {
        match s {
            LinkState::HighLoss => LinkState::Healthy,
            LinkState::HighLatencyAndHighLoss => LinkState::HighLatency,
            _ => s,
        }
    } else {
        match s {
            LinkState::Healthy => LinkState::HighLoss,
            LinkState::HighLatency => LinkState::HighLatencyAndHighLoss,
            _ => s,
        }
    }
}

/// Whether the packet with link sequence number `seq` was marked as received
/// in the loss window: bit `k` stands for sequence number `received - k`.
pub open spec fn window_bit(buffer: u128, k: int) -> bool {
    0 <= k < 128 && (buffer >> (k as u128)) & 1 == 1
}

/// Number of packets missing among the `n` most recent sequence numbers.
pub open spec fn lost_in_window(buffer: u128, n: int) -> int
    decreases n,
{
    if n <= 0 {
        0
    } else {
        lost_in_window(buffer, n - 1) + (if window_bit(buffer, n - 1) {
            0int
        } else {
            1int
        })
    }
}

/// Whether `seq` is taken as a newer sequence number than `received`, given
/// that numbers wrap around and that a window of `horizon` numbers is watched.
pub open spec fn is_advance(received: u32, seq: u32, horizon: u32) -> bool {
    if seq > received {
        !(received < horizon && seq > u32::MAX - horizon)
    } else {
        seq < horizon && received > u32::MAX - horizon
    }
}

/// The distance between two sequence numbers, counted forward from `from`
/// with wrap-around.
pub open spec fn seq_distance(from: u32, to: u32) -> int {
    if to >= from {
        to - from
    } else {
        to - from + 0x1_0000_0000
    }
}

/// Loss accounting never shifts by 128 or more where the protocol does not
/// guard against it.
pub open spec fn loss_update_defined(received: u32, seq: u32, horizon: u32) -> bool {
    &&& horizon <= 128
    &&& (seq <= received && is_advance(received, seq, horizon)) ==> seq_distance(received, seq) < 128
}

/// The link after the packet with link sequence number `seq` was entered in
/// the loss window of `horizon` numbers: a newer number shifts the window
/// and marks the new newest bit, an older one marks its bit if it lies in
/// the window.
pub open spec fn loss_update(o: LinkView, seq: u32, horizon: u32) -> LinkView {
    let last_down = if o.state == LinkState::Down {
        seq
    } else {
        o.seq_received_last_down
    };
    if is_advance(o.seq_received, seq, horizon) {
        let d = seq_distance(o.seq_received, seq);
        LinkView {
            seq_received: seq,
            seq_received_last_down: last_down,
            seq_buffer: if d < 128 {
                (o.seq_buffer << (d as u128)) | 1
            } else {
                1
            },
            ..o
        }
    } else {
        let d = seq_distance(seq, o.seq_received);
        LinkView {
            seq_received_last_down: last_down,
            seq_buffer: if d < horizon {
                o.seq_buffer | (1u128 << (d as u128))
            } else {
                o.seq_buffer
            },
            ..o
        }
    }
}

/// The observable state of a link.
pub struct LinkView {
    pub name: Seq<char>,
    pub technology: TechnologyData,
    pub state: LinkState,
    pub timeout_tolerance: u128,
    pub keepalive_interval: u128,
    pub saved_timestamp: Option<u16>,
    pub saved_timestamp_received_at: Option<u16>,
    pub seq_received: u32,
    pub seq_received_last_down: u32,
    pub seq_buffer: u128,
    pub link_id: u8,
    pub remote_link_id: Option<u8>,
    pub last_keepalive_sent: u128,
    pub last_keepalive_received: u128,
    pub bytes_sent: u128,
    pub bytes_sent_total: u128,
    pub bytes_received: u128,
    pub bytes_received_total: u128,
    pub last_datarate_calculation: u128,
}

/// The bytes counted since the last datarate calculation and the time that
/// passed, in milliseconds.
#[derive(Debug, Clone, Copy, PartialEq, Eq, Structural)]
pub struct DatarateSample {
    pub bytes_sent: u128,
    pub bytes_received: u128,
    pub elapsed_ms: u128,
}

/// Bookkeeping of one link: its state, its loss window, the timestamps used
/// for keepalives and round trip time measurement and its byte counters.
#[derive(Debug)]
pub struct Link {
    pub name: String,
    _timeout_tolerance: u128,
    _keepalive_interval: u128,
    _rtt_computation_method: RttComputationMethod,
    _saved_timestamp: Option<u16>,
    _saved_timestamp_received_at: Option<u16>,
    _state: LinkState,
    _link_seq_received: u32,
    _link_seq_received_last_down: u32,
    _link_seq_buffer: u128,
    _link_id: u8,
    _remote_link_id: Option<u8>,
    _last_keepalive_sent: u128,
    _last_keepalive_received: u128,
    _bytes_sent: u128,
    _bytes_sent_total: u128,
    _bytes_received: u128,
    _bytes_received_total: u128,
    _last_datarate_calculation_timestamp: u128,
    pub _technology: TechnologyData,
}

impl View for Link {
    type V = LinkView;

    closed spec fn view(&self) -> LinkView {
        LinkView {
            name: self.name@,
            technology: self._technology,
            state: self._state,
            timeout_tolerance: self._timeout_tolerance,
            keepalive_interval: self._keepalive_interval,
            saved_timestamp: self._saved_timestamp,
            saved_timestamp_received_at: self._saved_timestamp_received_at,
            seq_received: self._link_seq_received,
            seq_received_last_down: self._link_seq_received_last_down,
            seq_buffer: self._link_seq_buffer,
            link_id: self._link_id,
            remote_link_id: self._remote_link_id,
            last_keepalive_sent: self._last_keepalive_sent,
            last_keepalive_received: self._last_keepalive_received,
            bytes_sent: self._bytes_sent,
            bytes_sent_total: self._bytes_sent_total,
            bytes_received: self._bytes_received,
            bytes_received_total: self._bytes_received_total,
            last_datarate_calculation: self._last_datarate_calculation_timestamp,
        }
    }
}

/// The view of a link right after it was set up or reset at time `now`.
pub open spec fn fresh_link_view(
    name: Seq<char>,
    technology: TechnologyData,
    timeout_tolerance: u128,
    keepalive_interval: u128,
    link_id: u8,
    now: u128,
) -> LinkView {
    LinkView {
        name,
        technology,
        state: LinkState::Healthy,
        timeout_tolerance,
        keepalive_interval,
        saved_timestamp: None,
        saved_timestamp_received_at: None,
        seq_received: 0,
        seq_received_last_down: 0,
        seq_buffer: 0,
        link_id,
        remote_link_id: None,
        last_keepalive_sent: 0,
        last_keepalive_received: 0,
        bytes_sent: 0,
        bytes_sent_total: 0,
        bytes_received: 0,
        bytes_received_total: 0,
        last_datarate_calculation: now,
    }
}


proof fn lemma_shift_in_bit(b: u128, d: u128, k: u128)
    by (bit_vector)
    requires
        d < 128,
        k < 128,
    ensures
        ((b << d) | 1) >> k & 1 == 1 <==> (k == 0 || (k >= d && (b >> ((k - d) as u128)) & 1 == 1)),
{
}

proof fn lemma_mark_bit(b: u128, d: u128, k: u128)
    by (bit_vector)
    requires
        d < 128,
        k < 128,
    ensures
        (b | (1u128 << d)) >> k & 1 == 1 <==> ((b >> k) & 1 == 1 || k == d),
{
}

proof fn lemma_only_first_bit(k: u128)
    by (bit_vector)
    requires
        k < 128,
    ensures
        (1u128 >> k) & 1 == 1 <==> k == 0,
{
}

impl Link {
    /// The internal consistency of a link: its measurement store is sound.
    pub open spec fn wf(&self) -> bool {
        self@.technology.wf()
    }

    /// A fresh link. Timeouts default to one second and the keepalive
    /// interval to 100 ms; `now` is the current time in milliseconds.
    pub fn new(
        name: String,
        link_id: u8,
        timeout_tolerance_ms: Option<u128>,
        keepalive_interval_ms: Option<u128>,
        technology: &Technology,
        now: u128,
    ) -> (l: Link)
        ensures
            l.wf(),
            l@.technology.technology() == *technology,
            l@.technology.kpis() == (if *technology == Technology::Generic {
                None
            } else {
                Some(Map::<Seq<char>, u32>::empty())
            }),
            l@ == fresh_link_view(
                name@,
                l@.technology,
                match timeout_tolerance_ms {
                    Some(t) => t,
                    None => 1000,
                },
                match keepalive_interval_ms {
                    Some(k) => k,
                    None => 100,
                },
                link_id,
                now,
            ),
    {
        let timeout_tolerance = match timeout_tolerance_ms {
            Some(t) => t,
            None => 1000,
        };
        let keepalive_interval = match keepalive_interval_ms {
            Some(k) => k,
            None => 100,
        };
        Link {
            name,
            _timeout_tolerance: timeout_tolerance,
            _keepalive_interval: keepalive_interval,
            _rtt_computation_method: RttComputationMethod::SmoothedTcpStyle,
            _saved_timestamp: None,
            _saved_timestamp_received_at: None,
            _state: LinkState::Healthy,
            _link_seq_received: 0,
            _link_seq_received_last_down: 0,
            _link_seq_buffer: 0,
            _link_id: link_id,
            _remote_link_id: None,
            _last_keepalive_sent: 0,
            _last_keepalive_received: 0,
            _bytes_sent: 0,
            _bytes_sent_total: 0,
            _bytes_received: 0,
            _bytes_received_total: 0,
            _last_datarate_calculation_timestamp: now,
            _technology: TechnologyData::new(technology),
        }
    }

    /// How round trip time samples of this link are combined.
    pub fn rtt_computation_method(&self) -> (m: RttComputationMethod)
        ensures
            m == RttComputationMethod::SmoothedTcpStyle,
    {
        RttComputationMethod::SmoothedTcpStyle
    }

    /// Forgets everything learned about the link, as after a restart of the
    /// peer; `now` is the current time in milliseconds.
    pub fn reset(&mut self, now: u128)
        ensures
            final(self)@ == fresh_link_view(
                old(self)@.name,
                old(self)@.technology,
                old(self)@.timeout_tolerance,
                old(self)@.keepalive_interval,
                old(self)@.link_id,
                now,
            ),
    {
        self._saved_timestamp = None;
        self._saved_timestamp_received_at = None;
        self._state = LinkState::Healthy;
        self._link_seq_received = 0;
        self._link_seq_received_last_down = 0;
        self._link_seq_buffer = 0;
        self._remote_link_id = None;
        self._last_keepalive_received = 0;
        self._last_keepalive_sent = 0;
        self._bytes_received = 0;
        self._bytes_received_total = 0;
        self._bytes_sent = 0;
        self._bytes_sent_total = 0;
        self._last_datarate_calculation_timestamp = now;
    }

    /// Closes the current datarate window at time `now` (milliseconds): the
    /// bytes counted in it are added to the totals and handed back with the
    /// window's length, and a new window starts.
    pub fn calculate_datarates(&mut self, now: u128) -> (sample: DatarateSample)
        requires
            now >= old(self)@.last_datarate_calculation,
            old(self)@.bytes_sent_total + old(self)@.bytes_sent <= u128::MAX,
            old(self)@.bytes_received_total + old(self)@.bytes_received <= u128::MAX,
        ensures
            sample == (DatarateSample {
                bytes_sent: old(self)@.bytes_sent,
                bytes_received: old(self)@.bytes_received,
                elapsed_ms: (now - old(self)@.last_datarate_calculation) as u128,
            }),
            final(self)@ == (LinkView {
                bytes_sent: 0,
                bytes_received: 0,
                bytes_sent_total: (old(self)@.bytes_sent_total + old(self)@.bytes_sent) as u128,
                bytes_received_total: (old(self)@.bytes_received_total
                    + old(self)@.bytes_received) as u128,
                last_datarate_calculation: now,
                ..old(self)@
            }),
    {
        let sample = DatarateSample {
            bytes_sent: self._bytes_sent,
            bytes_received: self._bytes_received,
            elapsed_ms: now - self._last_datarate_calculation_timestamp,
        };
        self._bytes_sent_total = self._bytes_sent_total + self._bytes_sent;
        self._bytes_received_total = self._bytes_received_total + self._bytes_received;
        self._bytes_sent = 0;
        self._bytes_received = 0;
        self._last_datarate_calculation_timestamp = now;
        sample
    }

    /// Sets the state; a state equal to the current one changes nothing.
    pub fn _update_link_state(&mut self, state: LinkState)
        ensures
            final(self)@ == (LinkView { state, ..old(self)@ }),
    {
        if state == self._state {
            return ;
        }
        self._state = state;
    }

    /// Marks the link as down after its interface failed to send.
    pub fn notify_interface_down(&mut self)
        ensures
            final(self)@ == (LinkView { state: LinkState::Down, ..old(self)@ }),
    {
        self._update_link_state(LinkState::Down);
    }

    pub fn get_link_state(&self) -> (s: LinkState)
        ensures
            s == self@.state,
    {
        self._state
    }

    pub fn get_link_id(&self) -> (id: u8)
        ensures
            id == self@.link_id,
    {
        self._link_id
    }

    /// Records the arrival of the packet with link sequence number `seq` in
    /// the loss window, watching the last `moving_average_size` numbers.
    pub fn update_loss(&mut self, seq: u32, moving_average_size: u32)
        requires
            loss_update_defined(old(self)@.seq_received, seq, moving_average_size),
        ensures
            final(self)@ == loss_update(old(self)@, seq, moving_average_size),
            ({
                let o = old(self)@;
                let f = final(self)@;
                &&& f.seq_received_last_down == (if o.state == LinkState::Down {
                    seq
                } else {
                    o.seq_received_last_down
                })
                &&& if is_advance(o.seq_received, seq, moving_average_size) {
                    let d = seq_distance(o.seq_received, seq);
                    &&& f.seq_received == seq
                    &&& forall|k: int|
                        0 <= k < 128 ==> (#[trigger] window_bit(f.seq_buffer, k) <==> (k == 0 || (k
                            >= d && window_bit(o.seq_buffer, k - d))))
                } else {
                    let d = seq_distance(seq, o.seq_received);
                    &&& f.seq_received == o.seq_received
                    &&& forall|k: int|
                        0 <= k < 128 ==> (#[trigger] window_bit(f.seq_buffer, k) <==> (window_bit(
                            o.seq_buffer,
                            k,
                        ) || (k == d && d < moving_average_size)))
                }
                &&& f == LinkView {
                    seq_received: f.seq_received,
                    seq_received_last_down: f.seq_received_last_down,
                    seq_buffer: f.seq_buffer,
                    ..o
                }
            }),
    {
        let ghost o = self@;
        if self._state == LinkState::Down {
            self._link_seq_received_last_down = seq;
        }
        let received = self._link_seq_received;
        let buffer = self._link_seq_buffer;
        if seq > received {
            if received < moving_average_size && seq > u32::MAX - moving_average_size {
                // an older packet, from before the sequence numbers wrapped
                let delta: u32 = (u32::MAX - seq) + received + 1;
                if delta < moving_average_size {
                    self._link_seq_buffer = buffer | (1u128 << (delta as u128));
                    proof {
                        assert forall|k: int| 0 <= k < 128 implies (#[trigger] window_bit(
                            self._link_seq_buffer,
                            k,
                        ) <==> (window_bit(buffer, k) || k == delta)) by {
                            lemma_mark_bit(buffer, delta as u128, k as u128);
                        }
                    }
                }
            } else {
                let bit_to_shift: u32 = seq - received;
                if bit_to_shift < 128 {
                    let shifted = buffer << (bit_to_shift as u128);
                    self._link_seq_buffer = shifted | 1;
                    proof {
                        assert forall|k: int| 0 <= k < 128 implies (#[trigger] window_bit(
                            self._link_seq_buffer,
                            k,
                        ) <==> (k == 0 || (k >= bit_to_shift && window_bit(buffer, k - bit_to_shift)))) by {
                            lemma_shift_in_bit(buffer, bit_to_shift as u128, k as u128);
                        }
                    }
                } else {
                    self._link_seq_buffer = 1;
                    proof {
                        assert forall|k: int| 0 <= k < 128 implies (#[trigger] window_bit(
                            self._link_seq_buffer,
                            k,
                        ) <==> k == 0) by {
                            lemma_only_first_bit(k as u128);
                        }
                    }
                }
                self._link_seq_received = seq;
            }
        } else {
            if seq < moving_average_size && received > u32::MAX - moving_average_size {
                // a newer packet, after the sequence numbers wrapped
                let delta: u32 = (u32::MAX - received) + seq + 1;
                let shifted = buffer << (delta as u128);
                self._link_seq_buffer = shifted | 1;
                self._link_seq_received = seq;
                proof {
                    assert forall|k: int| 0 <= k < 128 implies (#[trigger] window_bit(
                        self._link_seq_buffer,
                        k,
                    ) <==> (k == 0 || (k >= delta && window_bit(buffer, k - delta)))) by {
                        lemma_shift_in_bit(buffer, delta as u128, k as u128);
                    }
                }
            } else {
                let delta: u32 = received - seq;
                if delta < moving_average_size {
                    self._link_seq_buffer = buffer | (1u128 << (delta as u128));
                    proof {
                        assert forall|k: int| 0 <= k < 128 implies (#[trigger] window_bit(
                            self._link_seq_buffer,
                            k,
                        ) <==> (window_bit(buffer, k) || k == delta)) by {
                            lemma_mark_bit(buffer, delta as u128, k as u128);
                        }
                    }
                }
            }
        }
    }

    /// How many packets arrived on the link since it last came back up.
    pub fn get_seq_received(&self) -> (n: u32)
        requires
            self@.seq_received >= self@.seq_received_last_down,
        ensures
            n == self@.seq_received - self@.seq_received_last_down,
    {
        self._link_seq_received - self._link_seq_received_last_down
    }

    /// Whether the count of packets received since the link came back up is
    /// defined: the newest sequence number is not below the one it came back
    /// up with.
    pub fn counts_received(&self) -> (r: bool)
        ensures
            r == (self@.seq_received >= self@.seq_received_last_down),
    {
        self._link_seq_received >= self._link_seq_received_last_down
    }

    /// Number of packets missing among the last `moving_average_size` link
    /// sequence numbers.
    pub fn count_lost(&self, moving_average_size: u16) -> (lost: u32)
        requires
            moving_average_size <= 128,
        ensures
            lost == lost_in_window(self@.seq_buffer, moving_average_size as int),
            lost <= moving_average_size,
    {
        let mut lost: u32 = 0;
        let mut i: u16 = 0;
        while i < moving_average_size
            invariant
                i <= moving_average_size <= 128,
                lost == lost_in_window(self@.seq_buffer, i as int),
                lost <= i,
            decreases moving_average_size - i,
        {
            if (self._link_seq_buffer >> (i as u128)) & 1 != 1 {
                lost = lost + 1;
            }
            i = i + 1;
        }
        lost
    }

    /// Updates the state after a latency check; `within_tolerance` tells
    /// whether the round trip time was within the tolerance of the link.
    pub fn check_high_latency(&mut self, within_tolerance: bool)
        ensures
            final(self)@ == (LinkView {
                state: latency_transition(old(self)@.state, within_tolerance),
                ..old(self)@
            }),
    {
        if within_tolerance {
            match self._state {
                LinkState::HighLatency => {
                    self._update_link_state(LinkState::Healthy);
                },
                LinkState::HighLatencyAndHighLoss => {
                    self._update_link_state(LinkState::HighLoss);
                },
                LinkState::Healthy | LinkState::HighLoss | LinkState::Down => {},
            }
        } else {
            match self._state {
                LinkState::Healthy => {
                    self._update_link_state(LinkState::HighLatency);
                },
                LinkState::HighLoss => {
                    self._update_link_state(LinkState::HighLatencyAndHighLoss);
                },
                _ => {},
            }
        }
    }

    /// Updates the state after a loss check; `within_tolerance` tells whether
    /// the measured loss was within the tolerance of the link.
    pub fn check_high_loss(&mut self, within_tolerance: bool)
        ensures
            final(self)@ == (LinkView {
                state: loss_transition(old(self)@.state, within_tolerance),
                ..old(self)@
            }),
    {
        if within_tolerance {
            match self._state {
                LinkState::HighLoss => {
                    self._update_link_state(LinkState::Healthy);
                },
                LinkState::HighLatencyAndHighLoss => {
                    self._update_link_state(LinkState::HighLatency);
                },
                _ => {},
            }
        } else {
            match self._state {
                LinkState::Healthy => {
                    self._update_link_state(LinkState::HighLoss);
                },
                LinkState::HighLatency => {
                    self._update_link_state(LinkState::HighLatencyAndHighLoss);
                },
                _ => {},
            }
        }
    }

    pub fn update_last_keepalive_received(&mut self, timestamp: u128)
        ensures
            final(self)@ == (LinkView { last_keepalive_received: timestamp, ..old(self)@ }),
    {
        self._last_keepalive_received = timestamp;
    }

    pub fn update_last_keepalive_sent(&mut self, timestamp: u128)
        ensures
            final(self)@ == (LinkView { last_keepalive_sent: timestamp, ..old(self)@ }),
    {
        self._last_keepalive_sent = timestamp;
    }

    pub fn get_last_keepalive_received(&self) -> (t: u128)
        ensures
            t == self@.last_keepalive_received,
    {
        self._last_keepalive_received
    }

    pub fn get_last_keepalive_sent(&self) -> (t: u128)
        ensures
            t == self@.last_keepalive_sent,
    {
        self._last_keepalive_sent
    }

    /// Keeps the peer's timestamp of the last packet and the local time it
    /// arrived at, to answer it in the next outgoing packet.
    pub fn update_timestamps(&mut self, timestamp: u16, timestamp_received_at: u16)
        ensures
            final(self)@ == (LinkView {
                saved_timestamp: Some(timestamp),
                saved_timestamp_received_at: Some(timestamp_received_at),
                ..old(self)@
            }),
    {
        self._saved_timestamp = Some(timestamp);
        self._saved_timestamp_received_at = Some(timestamp_received_at);
    }

    pub fn update_remote_link_id(&mut self, remote_link_id: u8)
        ensures
            final(self)@ == (LinkView { remote_link_id: Some(remote_link_id), ..old(self)@ }),
    {
        self._remote_link_id = Some(remote_link_id);
    }

    /// The round trip time sample, in milliseconds, that an echoed timestamp
    /// gives: the arrival time of the echoing packet minus the echoed
    /// timestamp, wrapping at 16 bits.
    pub fn rtt_sample(&self, timestamp_reply: u16) -> (rtt: u16)
        requires
            self@.saved_timestamp_received_at is Some,
        ensures
            rtt == seq16_distance(timestamp_reply, self@.saved_timestamp_received_at->0),
    {
        let at = match self._saved_timestamp_received_at {
            Some(at) => at,
            None => 0,
        };
        wrapping_sub_u16(at, timestamp_reply)
    }

    /// Stores a measured value of the link's technology (the bit pattern of
    /// the `f32`).
    pub fn update_technology(&mut self, field: String, value: u32)
        requires
            old(self).wf(),
            old(self)@.technology.technology() == Technology::Lte
                ==> old(self)@.technology.kpis().unwrap().contains_key(field@),
        ensures
            final(self).wf(),
            final(self)@.technology.technology() == old(self)@.technology.technology(),
            final(self)@.technology.kpis() == match old(self)@.technology.kpis() {
                Some(m) => Some(m.insert(field@, value)),
                None => None,
            },
            final(self)@ == (LinkView { technology: final(self)@.technology, ..old(self)@ }),
    {
        self._technology.set_value(field, value);
    }

    /// The last value measured for `kpi`, as the bit pattern of an `f32`.
    pub fn get_kpi(&self, kpi: &String) -> (r: Option<u32>)
        requires
            self.wf(),
        ensures
            r == match self@.technology.kpis() {
                Some(m) => if m.contains_key(kpi@) {
                    Some(m[kpi@])
                } else {
                    None
                },
                None => None,
            },
    {
        self._technology.get_value(kpi)
    }

    /// The measured values of the link's technology with their names.
    pub fn kpi_entries(&self) -> (r: Vec<(String, u32)>)
        requires
            self.wf(),
        ensures
            match self@.technology.kpis() {
                Some(m) => lists_map(r@, m),
                None => r@.len() == 0,
            },
    {
        self._technology.entries()
    }

    /// Whether the link's counters and clocks leave room for a packet with
    /// link sequence number `seq` and `payload_len` bytes of payload, and for
    /// the keepalive that may answer it.
    pub fn fits_packet(&self, seq: u32, payload_len: u32) -> (r: bool)
        ensures
            r == (loss_update_defined(self@.seq_received, seq, 128) && self@.bytes_received + payload_len
                <= u128::MAX && self@.bytes_sent + MULTILINK_HEADER_SIZE <= u128::MAX
                && self@.last_keepalive_sent + self@.keepalive_interval <= u128::MAX),
    {
        let received = self._link_seq_received;
        let advance = if seq > received {
            !(received < 128 && seq > u32::MAX - 128)
        } else {
            seq < 128 && received > u32::MAX - 128
        };
        let window_ok = if seq <= received && advance {
            (seq as u64) + 0x1_0000_0000 - (received as u64) < 128
        } else {
            true
        };
        window_ok && self._bytes_received <= u128::MAX - payload_len as u128 && self._bytes_sent
            <= u128::MAX - MULTILINK_HEADER_SIZE as u128 && self._last_keepalive_sent <= u128::MAX
            - self._keepalive_interval
    }

    /// Whether the link's counters and clocks leave room for a round of
    /// the periodic check.
    pub fn fits_check(&self) -> (r: bool)
        ensures
            r == (self@.last_keepalive_sent + self@.keepalive_interval <= u128::MAX && self@.bytes_sent
                + MULTILINK_HEADER_SIZE <= u128::MAX && self@.last_keepalive_received
                + self@.timeout_tolerance <= u128::MAX),
    {
        self._last_keepalive_sent <= u128::MAX - self._keepalive_interval && self._bytes_sent <= u128::MAX
            - MULTILINK_HEADER_SIZE as u128 && self._last_keepalive_received <= u128::MAX
            - self._timeout_tolerance
    }

    /// When the current datarate window started, in milliseconds.
    pub fn get_last_datarate_calculation(&self) -> (t: u128)
        ensures
            t == self@.last_datarate_calculation,
    {
        self._last_datarate_calculation_timestamp
    }

    /// Whether a keepalive is due at time `now`: the keepalive interval has
    /// passed since the last one was sent.
    pub fn get_next_keepalive_due(&self, timestamp_now: u128) -> (due: bool)
        requires
            self@.last_keepalive_sent + self@.keepalive_interval <= u128::MAX,
        ensures
            due == (timestamp_now > self@.last_keepalive_sent + self@.keepalive_interval),
    {
        timestamp_now > self._last_keepalive_sent + self._keepalive_interval
    }

    /// If a timestamp of the peer is waiting to be echoed, hands back the
    /// echo (the peer's timestamp shifted by the time it was held back) when it
    /// was held back less than a second, and forgets the timestamp either way.
    pub fn get_rtt_calculation_due(&mut self, timestamp_now: u128) -> (r: Option<u16>)
        ensures
            (r, final(self)@) == rtt_echo(old(self)@, timestamp_now),
    {
        let mut response = None;
        match (self._saved_timestamp, self._saved_timestamp_received_at) {
            (Some(saved), Some(at)) => {
                let now16 = (timestamp_now % 65536) as u16;
                let time_since_received = wrapping_sub_u16(now16, at);
                if time_since_received < 1000 {
                    response = Some(wrapping_add_u16(saved, time_since_received));
                }
                self._saved_timestamp_received_at = None;
                self._saved_timestamp = None;
            },
            _ => {},
        }
        response
    }

    /// Whether the link timed out at time `now`: a keepalive was received
    /// once and none since the timeout tolerance. A timed out link goes down;
    /// a down link that did not time out comes back as healthy.
    pub fn get_link_timeout(&mut self, timestamp_now: u128) -> (timed_out: bool)
        requires
            old(self)@.last_keepalive_received + old(self)@.timeout_tolerance <= u128::MAX,
        ensures
            ({
                let o = old(self)@;
                &&& timed_out == (o.last_keepalive_received != 0 && o.last_keepalive_received
                    + o.timeout_tolerance < timestamp_now)
                &&& final(self)@ == LinkView {
                    state: if timed_out {
                        LinkState::Down
                    } else if o.state == LinkState::Down {
                        LinkState::Healthy
                    } else {
                        o.state
                    },
                    ..o
                }
            }),
    {
        if self._last_keepalive_received != 0 && self._last_keepalive_received
            + self._timeout_tolerance < timestamp_now {
            self._update_link_state(LinkState::Down);
            return true;
        }
        if self._state == LinkState::Down {
            self._update_link_state(LinkState::Healthy);
        }
        false
    }

    pub fn increment_bytes_sent(&mut self, number_of_bytes: u32)
        requires
            old(self)@.bytes_sent + number_of_bytes <= u128::MAX,
        ensures
            final(self)@ == (LinkView {
                bytes_sent: (old(self)@.bytes_sent + number_of_bytes) as u128,
                ..old(self)@
            }),
    {
        self._bytes_sent = self._bytes_sent + number_of_bytes as u128;
    }

    pub fn increment_bytes_received(&mut self, number_of_bytes: u32)
        requires
            old(self)@.bytes_received + number_of_bytes <= u128::MAX,
        ensures
            final(self)@ == (LinkView {
                bytes_received: (old(self)@.bytes_received + number_of_bytes) as u128,
                ..old(self)@
            }),
    {
        self._bytes_received = self._bytes_received + number_of_bytes as u128;
    }

    /// Readies a header for sending on this link: stamps the link's id into
    /// it and counts the header and the `payload_len` bytes of payload as
    /// sent.
    pub fn prepare_outgoing(&mut self, header: MultiLinkHeader, payload_len: u32) -> (h: MultiLinkHeader)
        requires
            payload_len + MULTILINK_HEADER_SIZE <= u32::MAX,
            old(self)@.bytes_sent + payload_len + MULTILINK_HEADER_SIZE <= u128::MAX,
        ensures
            h == (MultiLinkHeader { link_id: old(self)@.link_id, ..header }),
            final(self)@ == (LinkView {
                bytes_sent: (old(self)@.bytes_sent + payload_len + MULTILINK_HEADER_SIZE) as u128,
                ..old(self)@
            }),
    {
        self.increment_bytes_sent(MULTILINK_HEADER_SIZE as u32 + payload_len);
        let mut h = header;
        h.link_id = self._link_id;
        h
    }

    pub fn get_bytes_sent(&self) -> (n: u128)
        ensures
            n == self@.bytes_sent,
    {
        self._bytes_sent
    }

    pub fn get_bytes_received(&self) -> (n: u128)
        ensures
            n == self@.bytes_received,
    {
        self._bytes_received
    }

    pub fn get_bytes_sent_total(&self) -> (n: u128)
        ensures
            n == self@.bytes_sent_total,
    {
        self._bytes_sent_total
    }

    pub fn get_bytes_received_total(&self) -> (n: u128)
        ensures
            n == self@.bytes_received_total,
    {
        self._bytes_received_total
    }
}

/// The distance from `from` forward to `to` on a 16 bit clock.
pub open spec fn seq16_distance(from: u16, to: u16) -> u16 {
    if to >= from {
        (to - from) as u16
    } else {
        (to - from + 65536) as u16
    }
}

fn wrapping_sub_u16(a: u16, b: u16) -> (r: u16)
    ensures
        r == seq16_distance(b, a),
{
    if a >= b {
        a - b
    } else {
        ((a as u32 + 65536) - b as u32) as u16
    }
}

fn wrapping_add_u16(a: u16, b: u16) -> (r: u16)
    ensures
        r == ((a + b) % 65536) as u16,
{
    ((a as u32 + b as u32) % 65536) as u16
}


/// The latency check and the loss check act on separate parts of the state:
/// their order does not matter.
pub proof fn lemma_checks_commute(s: LinkState, latency_ok: bool, loss_ok: bool)
    ensures
        latency_transition(loss_transition(s, loss_ok), latency_ok) == loss_transition(
            latency_transition(s, latency_ok),
            loss_ok,
        ),
{
}

/// A latency check decides the latency part of the state and leaves the
/// loss part alone; a loss check the other way round. Neither brings a down
/// link up or takes a link down.
pub proof fn lemma_checks_set_their_flag(s: LinkState, within: bool)
    ensures
        (latency_transition(s, within) == LinkState::Down) == (s == LinkState::Down),
        (loss_transition(s, within) == LinkState::Down) == (s == LinkState::Down),
        s != LinkState::Down ==> has_high_latency(latency_transition(s, within)) == !within,
        has_high_loss(latency_transition(s, within)) == has_high_loss(s),
        s != LinkState::Down ==> has_high_loss(loss_transition(s, within)) == !within,
        has_high_latency(loss_transition(s, within)) == has_high_latency(s),
{
}

/// Repeating a check with the same outcome changes nothing more.
pub proof fn lemma_checks_idempotent(s: LinkState, within: bool)
    ensures
        latency_transition(latency_transition(s, within), within) == latency_transition(s, within),
        loss_transition(loss_transition(s, within), within) == loss_transition(s, within),
{
}

/// The lost count of a window is at most its size, and it is zero exactly
/// when every sequence number of the window was received.
pub proof fn lemma_lost_in_window_bounds(buffer: u128, n: int)
    requires
        0 <= n <= 128,
    ensures
        0 <= lost_in_window(buffer, n) <= n,
        lost_in_window(buffer, n) == 0 <==> forall|k: int| 0 <= k < n ==> #[trigger] window_bit(buffer, k),
    decreases n,
{
    if n > 0 {
        lemma_lost_in_window_bounds(buffer, n - 1);
        if lost_in_window(buffer, n) == 0 {
            assert forall|k: int| 0 <= k < n implies #[trigger] window_bit(buffer, k) by {
                if k < n - 1 {
                    assert(window_bit(buffer, k));
                }
            }
        }
    }
}

/// A timestamp of the peer is echoed at most once: right after it was
/// handed out (or dropped as too old) there is none left to echo.
pub proof fn lemma_echo_consumed(l: LinkView, now1: u128, now2: u128)
    ensures
        rtt_echo(rtt_echo(l, now1).1, now2).0 is None,
        rtt_echo(rtt_echo(l, now1).1, now2).1 == rtt_echo(l, now1).1,
{
}

/// The echo of a saved peer timestamp at time `now` (milliseconds) and the
/// link afterwards: the timestamp is answered shifted by the time it was held
/// back, if that was less than a second, and forgotten either way.
pub open spec fn rtt_echo(o: LinkView, now: u128) -> (Option<u16>, LinkView) {
    if o.saved_timestamp is Some && o.saved_timestamp_received_at is Some {
        let held = seq16_distance(o.saved_timestamp_received_at->0, (now % 65536) as u16);
        (
            if held < 1000 {
                Some(((o.saved_timestamp->0 + held) % 65536) as u16)
            } else {
                None
            },
            LinkView { saved_timestamp: None, saved_timestamp_received_at: None, ..o },
        )
    } else {
        (None, o)
    }
}

/// Entering a sequence number in the loss window marks it as received: the
/// bit for its distance from the newest number is set, as long as that
/// distance lies in the watched window.
pub proof fn lemma_loss_update_marks(o: LinkView, seq: u32, horizon: u32)
    requires
        loss_update_defined(o.seq_received, seq, horizon),
    ensures
        ({
            let f = loss_update(o, seq, horizon);
            seq_distance(seq, f.seq_received) < horizon ==> window_bit(
                f.seq_buffer,
                seq_distance(seq, f.seq_received),
            )
        }),
{
    let f = loss_update(o, seq, horizon);
    if is_advance(o.seq_received, seq, horizon) {
        let d = seq_distance(o.seq_received, seq);
        assert(seq_distance(seq, seq) == 0);
        if d < 128 {
            lemma_shift_in_bit(o.seq_buffer, d as u128, 0);
        } else {
            lemma_only_first_bit(0);
        }
    } else {
        let d = seq_distance(seq, o.seq_received);
        if d < horizon {
            lemma_mark_bit(o.seq_buffer, d as u128, d as u128);
        }
    }
}

proof fn lemma_shift_lost(b: u128, n: int)
    requires
        1 <= n <= 128,
    ensures
        lost_in_window((b << 1u128) | 1, n) == lost_in_window(b, n - 1),
    decreases n,
{
    let nb = (b << 1u128) | 1;
    lemma_shift_in_bit(b, 1, (n - 1) as u128);
    assert(lost_in_window(nb, n) == lost_in_window(nb, n - 1) + (if window_bit(nb, n - 1) {
        0int
    } else {
        1int
    }));
    if n == 1 {
        assert(window_bit(nb, 0));
        assert(lost_in_window(nb, 0) == 0);
        assert(lost_in_window(b, 0) == 0);
    } else {
        lemma_shift_lost(b, n - 1);
        assert(window_bit(nb, n - 1) == window_bit(b, n - 2));
        assert(lost_in_window(b, n - 1) == lost_in_window(b, n - 2) + (if window_bit(b, n - 2) {
            0int
        } else {
            1int
        }));
    }
}

/// The next packet in order never raises the loss count of the window.
pub proof fn lemma_in_order_never_adds_loss(o: LinkView)
    requires
        o.seq_received < u32::MAX,
    ensures
        lost_in_window(loss_update(o, (o.seq_received + 1) as u32, 128).seq_buffer, 128) <= lost_in_window(
            o.seq_buffer,
            128,
        ),
{
    let f = loss_update(o, (o.seq_received + 1) as u32, 128);
    assert(seq_distance(o.seq_received, (o.seq_received + 1) as u32) == 1);
    assert(f.seq_buffer == (o.seq_buffer << 1u128) | 1);
    lemma_shift_lost(o.seq_buffer, 128);
}

/// The link after `j` more packets arrived in order on it.
pub open spec fn in_order_run(o: LinkView, j: nat) -> LinkView
    decreases j,
{
    if j == 0 {
        o
    } else {
        let p = in_order_run(o, (j - 1) as nat);
        loss_update(p, (p.seq_received + 1) as u32, 128)
    }
}

proof fn lemma_in_order_run_prefix(o: LinkView, j: nat)
    requires
        o.seq_received + j < u32::MAX,
        j <= 128,
    ensures
        in_order_run(o, j).seq_received == o.seq_received + j,
        forall|k: int| 0 <= k < j ==> #[trigger] window_bit(in_order_run(o, j).seq_buffer, k),
    decreases j,
{
    if j > 0 {
        let p = in_order_run(o, (j - 1) as nat);
        lemma_in_order_run_prefix(o, (j - 1) as nat);
        assert(seq_distance(p.seq_received, (p.seq_received + 1) as u32) == 1);
        let nb = in_order_run(o, j).seq_buffer;
        assert(nb == (p.seq_buffer << 1u128) | 1);
        assert forall|k: int| 0 <= k < j implies #[trigger] window_bit(nb, k) by {
            lemma_shift_in_bit(p.seq_buffer, 1, k as u128);
            if k > 0 {
                assert(window_bit(p.seq_buffer, k - 1));
            }
        }
    }
}

/// After a full window of packets in order, nothing in the window is lost.
pub proof fn lemma_full_window_in_order_loses_nothing(o: LinkView)
    requires
        o.seq_received + 128 < u32::MAX,
    ensures
        lost_in_window(in_order_run(o, 128).seq_buffer, 128) == 0,
{
    lemma_in_order_run_prefix(o, 128);
    lemma_lost_in_window_bounds(in_order_run(o, 128).seq_buffer, 128);
}

} // verus!
