//! The decisions of the multilink tasks: what a received packet does to its
//! link and stream, what the periodic link check does, how an outgoing
//! packet is framed per link, and how packets are encoded on the wire. The
//! tasks themselves (channels, sockets, timers) run around these functions.

use vstd::prelude::*;
use crate::float_bits::{f32_gt, f32_gt_spec};
use crate::link::{
    Link, LinkState, LinkView, loss_update, loss_update_defined, rtt_echo, seq16_distance,
    latency_transition, loss_transition,
};
use crate::packet::{
    MultiLinkHeader, PacketType, MULTILINK_HEADER_SIZE, spec_base_header, spec_header_bytes,
    spec_header_from_bytes, build_keepalive_multilink_header, build_multilink_header,
    build_initiate_multilink_header, lemma_header_bytes_roundtrip,
};
use crate::scheduler::time_to_trigger::NANOS_PER_MILLI;
use crate::scheduler::{Scheduler, LinkSnapshot, schedule_outcome, snapshots_cover};
use crate::scheduler::scheduler_priority_quality::kpis_distinct;
use crate::application::Dispatch;
use crate::link_set::{names, name_set};

verus! {

/// A millisecond clock reading as it travels in a header: its low 16 bits.
pub open spec fn clock16(now: u128) -> u16 {
    (now % 65536) as u16
}

/// The keepalive a link sends at time `now`, ready to go (the link's id
/// stamped in), and the link afterwards: the peer's timestamp is echoed if
/// one is due, the keepalive is counted as sent and its time noted.
pub open spec fn keepalive_sent(o: LinkView, now: u128) -> (MultiLinkHeader, LinkView) {
    let (echo, v) = rtt_echo(o, now);
    (
        MultiLinkHeader {
            len: MULTILINK_HEADER_SIZE as u16,
            pkt_type: PacketType::Keepalive,
            srrt_calculation: echo is Some,
            timestamp: clock16(now),
            timestamp_reply: match echo {
                Some(t) => t,
                None => 0,
            },
            link_id: v.link_id,
            ..spec_base_header()
        },
        LinkView {
            last_keepalive_sent: now,
            bytes_sent: (v.bytes_sent + MULTILINK_HEADER_SIZE) as u128,
            ..v
        },
    )
}

/// Whether a keepalive is due at `now`.
pub open spec fn keepalive_due(o: LinkView, now: u128) -> bool {
    now > o.last_keepalive_sent + o.keepalive_interval
}

fn send_keepalive(link: &mut Link, now: u128) -> (h: MultiLinkHeader)
    requires
        old(link)@.bytes_sent + MULTILINK_HEADER_SIZE <= u128::MAX,
    ensures
        (h, final(link)@) == keepalive_sent(old(link)@, now),
{
    let echo = link.get_rtt_calculation_due(now);
    let (calc, reply) = match echo {
        Some(t) => (true, t),
        None => (false, 0u16),
    };
    let header = build_keepalive_multilink_header((now % 65536) as u16, calc, reply, 0);
    let header = link.prepare_outgoing(header, 0);
    link.update_last_keepalive_sent(now);
    header
}

/// What receiving a packet does to its link: the round trip time sample it
/// carries, the keepalive to answer with, and the link afterwards.
pub open spec fn received_on_link(o: LinkView, h: MultiLinkHeader, payload_len: u32, now: u128) -> (
    Option<u16>,
    Option<MultiLinkHeader>,
    LinkView,
) {
    let v1 = LinkView {
        saved_timestamp: Some(h.timestamp),
        saved_timestamp_received_at: Some(clock16(now)),
        remote_link_id: Some(h.link_id),
        ..o
    };
    let rtt = if h.srrt_calculation {
        Some(seq16_distance(h.timestamp_reply, clock16(now)))
    } else {
        None
    };
    let v2 = loss_update(v1, h.link_seq, 128);
    let v3 = LinkView { bytes_received: (v2.bytes_received + payload_len) as u128, ..v2 };
    if h.pkt_type == PacketType::Keepalive {
        let v4 = LinkView { last_keepalive_received: now, ..v3 };
        if keepalive_due(v4, now) {
            let (reply, v5) = keepalive_sent(v4, now);
            (rtt, Some(reply), v5)
        } else {
            (rtt, None, v4)
        }
    } else {
        (rtt, None, v3)
    }
}

/// The counters and clocks of a link leave room for one more packet.
pub open spec fn room_for_packet(o: LinkView, h: MultiLinkHeader, payload_len: u32) -> bool {
    &&& loss_update_defined(o.seq_received, h.link_seq, 128)
    &&& o.bytes_received + payload_len <= u128::MAX
    &&& o.bytes_sent + MULTILINK_HEADER_SIZE <= u128::MAX
    &&& o.last_keepalive_sent + o.keepalive_interval <= u128::MAX
}

/// What a received packet other than an initiation does to its link.
pub struct LinkReceipt {
    /// The round trip time sample the packet carried, in milliseconds.
    pub rtt_sample: Option<u16>,
    /// The keepalive to send back, ready to go.
    pub reply: Option<MultiLinkHeader>,
}

/// Takes a packet with header `header` and `payload_len` bytes of payload
/// that arrived on `link` at `now` (milliseconds): notes the peer's
/// timestamp and link id, the round trip time measurement it carries, its
/// link sequence number and its bytes; a keepalive is noted as received and
/// answered if one is due.
pub fn receive_on_link(link: &mut Link, header: &MultiLinkHeader, payload_len: u32, now: u128) -> (r: LinkReceipt)
    requires
        room_for_packet(old(link)@, *header, payload_len),
    ensures
        (r.rtt_sample, r.reply, final(link)@) == received_on_link(old(link)@, *header, payload_len, now),
{
    let now16 = (now % 65536) as u16;
    link.update_timestamps(header.timestamp, now16);
    link.update_remote_link_id(header.link_id);
    let rtt_sample = if header.srrt_calculation {
        Some(link.rtt_sample(header.timestamp_reply))
    } else {
        None
    };
    link.update_loss(header.link_seq, 128);
    link.increment_bytes_received(payload_len);
    let mut reply = None;
    if header.pkt_type == PacketType::Keepalive {
        link.update_last_keepalive_received(now);
        if link.get_next_keepalive_due(now) {
            reply = Some(send_keepalive(link, now));
        }
    }
    LinkReceipt { rtt_sample, reply }
}

/// Where the payload of a received packet goes.
#[derive(Debug, Clone, Copy, PartialEq, Eq, Structural)]
pub enum Delivery {
    /// Nowhere: the packet carries no data.
    Nothing,
    /// To the packet's stream, to be reordered, and de-duplicated if set.
    Stream { dedup: bool },
    /// Straight to the tunnel, without reordering.
    Tunnel,
}

/// What a received packet is, for the receiving task.
#[derive(Debug, Clone, Copy, PartialEq, Eq, Structural)]
pub struct ReceivePlan {
    /// The peer (re)started: reset the link and do nothing else.
    pub reset_link: bool,
    /// Open the packet's stream if it has none yet.
    pub open_stream: bool,
    /// Where the payload goes.
    pub deliver: Delivery,
}

/// The plan for a packet of header `h`: an initiation resets its link; a
/// packet to reorder opens its stream; data to reorder is delivered to its
/// stream, de-duplicated when it was sent on several links, and data not to
/// reorder goes straight to the tunnel.
pub open spec fn receive_plan(h: MultiLinkHeader) -> ReceivePlan {
    if h.pkt_type == PacketType::Initiate {
        ReceivePlan { reset_link: true, open_stream: false, deliver: Delivery::Nothing }
    } else {
        ReceivePlan {
            reset_link: false,
            open_stream: h.reorder,
            deliver: if h.pkt_type == PacketType::Keepalive {
                Delivery::Nothing
            } else if !h.reorder {
                Delivery::Tunnel
            } else {
                Delivery::Stream { dedup: h.pkt_type == PacketType::DataDup }
            },
        }
    }
}

/// The plan for a received packet.
pub fn plan_receive(header: &MultiLinkHeader) -> (p: ReceivePlan)
    ensures
        p == receive_plan(*header),
{
    let reorder = header.reorder;
    match header.pkt_type {
        PacketType::Initiate => ReceivePlan { reset_link: true, open_stream: false, deliver: Delivery::Nothing },
        PacketType::Keepalive => ReceivePlan { reset_link: false, open_stream: reorder, deliver: Delivery::Nothing },
        PacketType::Data => ReceivePlan {
            reset_link: false,
            open_stream: reorder,
            deliver: if reorder {
                Delivery::Stream { dedup: false }
            } else {
                Delivery::Tunnel
            },
        },
        PacketType::DataDup => ReceivePlan {
            reset_link: false,
            open_stream: reorder,
            deliver: if reorder {
                Delivery::Stream { dedup: true }
            } else {
                Delivery::Tunnel
            },
        },
    }
}

/// Bit pattern of `f32::MAX`, which stands for a round trip time that was
/// never measured.
pub const F32_MAX_BITS: u32 = 0x7f7f_ffff;

/// The highest of the round trip times `rtts` (`f32` bit patterns) that are
/// above zero, leaving out `f32::MAX`: zero if there is none.
pub open spec fn highest_rtt(rtts: Seq<u32>) -> u32
    decreases rtts.len(),
{
    if rtts.len() == 0 {
        0
    } else {
        let h = highest_rtt(rtts.drop_last());
        if f32_gt_spec(rtts.last(), h) && rtts.last() != F32_MAX_BITS {
            rtts.last()
        } else {
            h
        }
    }
}

/// The highest round trip time among those of the links a stream is
/// received on, as the stream's reorder timeout is set from it.
pub fn highest_round_trip_time(rtts: &Vec<u32>) -> (r: u32)
    ensures
        r == highest_rtt(rtts@),
{
    let mut highest: u32 = 0;
    let mut i: usize = 0;
    while i < rtts.len()
        invariant
            i <= rtts.len(),
            highest == highest_rtt(rtts@.subrange(0, i as int)),
        decreases rtts.len() - i,
    {
        proof {
            let sub = rtts@.subrange(0, i + 1);
            assert(sub.drop_last() =~= rtts@.subrange(0, i as int));
        }
        if f32_gt(rtts[i], highest) && rtts[i] != F32_MAX_BITS {
            highest = rtts[i];
        }
        i = i + 1;
    }
    assert(rtts@.subrange(0, rtts.len() as int) =~= rtts@);
    highest
}

/// What the periodic check does to a link at `now`: a keepalive if one is
/// due, then the timeout check, then the latency and loss checks with their
/// verdicts.
pub open spec fn monitored(o: LinkView, now: u128, latency_ok: bool, loss_ok: bool) -> (
    Option<MultiLinkHeader>,
    LinkView,
) {
    let (reply, v1) = if keepalive_due(o, now) {
        let (h, v) = keepalive_sent(o, now);
        (Some(h), v)
    } else {
        (None, o)
    };
    let timed_out = v1.last_keepalive_received != 0 && v1.last_keepalive_received + v1.timeout_tolerance
        < now;
    let s1 = if timed_out {
        LinkState::Down
    } else if v1.state == LinkState::Down {
        LinkState::Healthy
    } else {
        v1.state
    };
    (reply, LinkView { state: loss_transition(latency_transition(s1, latency_ok), loss_ok), ..v1 })
}

/// One round of the periodic link check at `now` (milliseconds):
/// `latency_ok` and `loss_ok` tell whether the link's round trip time and
/// loss are within its tolerances. Hands back the keepalive to send, if
/// one is due.
pub fn monitor_link(link: &mut Link, now: u128, latency_ok: bool, loss_ok: bool) -> (r: Option<MultiLinkHeader>)
    requires
        old(link)@.last_keepalive_sent + old(link)@.keepalive_interval <= u128::MAX,
        old(link)@.bytes_sent + MULTILINK_HEADER_SIZE <= u128::MAX,
        old(link)@.last_keepalive_received + old(link)@.timeout_tolerance <= u128::MAX,
    ensures
        (r, final(link)@) == monitored(old(link)@, now, latency_ok, loss_ok),
{
    let mut reply = None;
    if link.get_next_keepalive_due(now) {
        reply = Some(send_keepalive(link, now));
    }
    link.get_link_timeout(now);
    link.check_high_latency(latency_ok);
    link.check_high_loss(loss_ok);
    reply
}

/// The kind of a data packet: duplicated when it goes out on several links.
pub open spec fn data_packet_type(number_of_links: nat) -> PacketType {
    if number_of_links > 1 {
        PacketType::DataDup
    } else {
        PacketType::Data
    }
}

/// The kind of a data packet sent on `number_of_links` links.
pub fn packet_type_for(number_of_links: usize) -> (t: PacketType)
    ensures
        t == data_packet_type(number_of_links as nat),
{
    if number_of_links > 1 {
        PacketType::DataDup
    } else {
        PacketType::Data
    }
}

/// The header a data packet goes out with on a link at `now`, and the link
/// afterwards: a pending peer timestamp is echoed, the link's id stamped
/// in and the packet counted as sent.
pub open spec fn data_framed(
    o: LinkView,
    pkt_type: PacketType,
    stream_id: u8,
    sequence: u32,
    reorder: bool,
    payload_len: u16,
    now: u128,
) -> (MultiLinkHeader, LinkView) {
    let (echo, v) = rtt_echo(o, now);
    (
        MultiLinkHeader {
            len: (payload_len + MULTILINK_HEADER_SIZE) as u16,
            pkt_type,
            stream_id,
            stream_seq: sequence,
            reorder,
            srrt_calculation: echo is Some,
            timestamp: clock16(now),
            timestamp_reply: match echo {
                Some(t) => t,
                None => 0,
            },
            link_id: v.link_id,
            ..spec_base_header()
        },
        LinkView { bytes_sent: (v.bytes_sent + payload_len + MULTILINK_HEADER_SIZE) as u128, ..v },
    )
}

/// Frames a data packet of `payload_len` bytes for sending on `link` at
/// `now` (milliseconds).
pub fn frame_data_packet(
    link: &mut Link,
    pkt_type: PacketType,
    stream_id: u8,
    sequence: u32,
    reorder: bool,
    payload_len: u16,
    now: u128,
) -> (h: MultiLinkHeader)
    requires
        payload_len + MULTILINK_HEADER_SIZE <= u16::MAX,
        old(link)@.bytes_sent + payload_len + MULTILINK_HEADER_SIZE <= u128::MAX,
    ensures
        (h, final(link)@) == data_framed(old(link)@, pkt_type, stream_id, sequence, reorder, payload_len, now),
{
    let echo = link.get_rtt_calculation_due(now);
    let (calc, reply) = match echo {
        Some(t) => (true, t),
        None => (false, 0u16),
    };
    let header = build_multilink_header(
        pkt_type,
        stream_id,
        sequence,
        reorder,
        payload_len,
        (now % 65536) as u16,
        calc,
        reply,
    );
    link.prepare_outgoing(header, payload_len as u32)
}

/// The initiation a link sends when the multilink starts, ready to go, and
/// the link afterwards.
pub fn announce_start(link: &mut Link) -> (h: MultiLinkHeader)
    requires
        old(link)@.bytes_sent + MULTILINK_HEADER_SIZE <= u128::MAX,
    ensures
        h == (MultiLinkHeader {
            len: MULTILINK_HEADER_SIZE as u16,
            pkt_type: PacketType::Initiate,
            link_id: old(link)@.link_id,
            ..spec_base_header()
        }),
        final(link)@ == (LinkView {
            bytes_sent: (old(link)@.bytes_sent + MULTILINK_HEADER_SIZE) as u128,
            ..old(link)@
        }),
{
    let header = build_initiate_multilink_header();
    link.prepare_outgoing(header, 0)
}

/// The interval of the periodic link check, in nanoseconds: 200 ms unless
/// configured.
pub fn monitoring_interval_or_default(configured: Option<u128>) -> (t: u128)
    ensures
        t == match configured {
            Some(c) => c,
            None => (200 * NANOS_PER_MILLI) as u128,
        },
{
    match configured {
        Some(c) => c,
        None => 200 * NANOS_PER_MILLI,
    }
}

/// The ids of `n` links, in configuration order: 1, 2, ..., n.
pub fn link_ids(n: usize) -> (ids: Vec<u8>)
    requires
        n <= 255,
    ensures
        ids@.len() == n,
        forall|i: int| 0 <= i < n ==> #[trigger] ids@[i] == i + 1,
{
    let mut ids: Vec<u8> = Vec::new();
    let mut i: usize = 0;
    while i < n
        invariant
            i <= n <= 255,
            ids@.len() == i,
            forall|k: int| 0 <= k < i ==> #[trigger] ids@[k] == k + 1,
        decreases n - i,
    {
        ids.push((i + 1) as u8);
        i = i + 1;
    }
    ids
}

/// The per-link sequence numbers of outgoing packets: 1, 2, ..., wrapping
/// around after `u32::MAX`.
#[derive(Debug)]
pub struct LinkSequencer {
    last: u32,
}

impl LinkSequencer {
    /// The last number handed out, 0 at first.
    pub closed spec fn last(&self) -> u32 {
        self.last
    }

    pub fn new() -> (s: Self)
        ensures
            s.last() == 0,
    {
        LinkSequencer { last: 0 }
    }

    /// The next link sequence number.
    pub fn next(&mut self) -> (n: u32)
        ensures
            n == (if old(self).last() == u32::MAX {
                0
            } else {
                (old(self).last() + 1) as u32
            }),
            final(self).last() == n,
    {
        self.last = if self.last == u32::MAX {
            0
        } else {
            self.last + 1
        };
        self.last
    }
}

/// The bytes of a packet on the wire: its header, with link sequence number
/// `link_seq`, followed by the payload.
pub fn encode_packet(header: &MultiLinkHeader, link_seq: u32, payload: &Vec<u8>) -> (b: Vec<u8>)
    requires
        header.wf(),
    ensures
        b@ == spec_header_bytes(MultiLinkHeader { link_seq, ..*header }) + payload@,
{
    let mut h = *header;
    h.link_seq = link_seq;
    let head = h.into_bytes();
    let mut out: Vec<u8> = Vec::new();
    let mut i: usize = 0;
    while i < 20
        invariant
            i <= 20,
            head@.len() == 20,
            out@ == head@.subrange(0, i as int),
        decreases 20 - i,
    {
        out.push(head[i]);
        assert(out@ =~= head@.subrange(0, i + 1));
        i = i + 1;
    }
    let mut j: usize = 0;
    while j < payload.len()
        invariant
            j <= payload.len(),
            head@.len() == 20,
            out@ == head@ + payload@.subrange(0, j as int),
        decreases payload.len() - j,
    {
        out.push(payload[j]);
        assert(out@ =~= head@ + payload@.subrange(0, j + 1));
        j = j + 1;
    }
    assert(payload@.subrange(0, payload.len() as int) =~= payload@);
    out
}

/// A received datagram taken apart into its header and its payload.
pub fn decode_packet(bytes: &Vec<u8>) -> (r: (MultiLinkHeader, Vec<u8>))
    requires
        bytes.len() >= MULTILINK_HEADER_SIZE,
    ensures
        r.0 == spec_header_from_bytes(bytes@.subrange(0, 20)),
        r.0.wf(),
        r.1@ == bytes@.subrange(20, bytes.len() as int),
{
    let head: [u8; 20] = [
        bytes[0],
        bytes[1],
        bytes[2],
        bytes[3],
        bytes[4],
        bytes[5],
        bytes[6],
        bytes[7],
        bytes[8],
        bytes[9],
        bytes[10],
        bytes[11],
        bytes[12],
        bytes[13],
        bytes[14],
        bytes[15],
        bytes[16],
        bytes[17],
        bytes[18],
        bytes[19],
    ];
    assert(head@ =~= bytes@.subrange(0, 20));
    let header = MultiLinkHeader::from_bytes(head);
    let mut payload: Vec<u8> = Vec::new();
    let mut i: usize = 20;
    while i < bytes.len()
        invariant
            20 <= i <= bytes.len(),
            payload@ == bytes@.subrange(20, i as int),
        decreases bytes.len() - i,
    {
        payload.push(bytes[i]);
        assert(payload@ =~= bytes@.subrange(20, i + 1));
        i = i + 1;
    }
    (header, payload)
}

/// Schedules a packet that belongs to no application on the global
/// scheduler (`now` in nanoseconds): it goes out on stream 0, reordered,
/// with the sequence number after `last_sequence`. Gives `None` when a round
/// robin scheduler finds no usable link; the caller asks again with fresh
/// link states.
pub fn dispatch_default(
    scheduler: &mut Scheduler,
    last_sequence: u32,
    links: &Vec<LinkSnapshot>,
    now: u128,
) -> (r: Option<Dispatch>)
    requires
        old(scheduler).wf(),
        snapshots_cover(links@, old(scheduler).links()),
        *old(scheduler) is PriorityQuality ==> kpis_distinct(links@),
        last_sequence < u32::MAX,
    ensures
        final(scheduler).wf(),
        final(scheduler).links() == old(scheduler).links(),
        schedule_outcome(
            *old(scheduler),
            links@,
            now,
            *final(scheduler),
            match r {
                Some(d) => Some(names(d.links@)),
                None => None,
            },
        ),
        r matches Some(d) ==> d.sequence == last_sequence + 1 && d.stream_id == 0 && d.reorder
            && final(scheduler).last_chosen() == name_set(d.links@),
{
    match scheduler.schedule(links, now) {
        Some(chosen) => Some(Dispatch { links: chosen, sequence: last_sequence + 1, stream_id: 0, reorder: true }),
        None => None,
    }
}

/// What goes on the wire comes back: the bytes of a packet decode to its
/// header, with the link sequence number it was sent with, and its payload.
pub proof fn lemma_wire_roundtrip(header: MultiLinkHeader, link_seq: u32, payload: Seq<u8>)
    requires
        header.wf(),
    ensures
        ({
            let sent = MultiLinkHeader { link_seq, ..header };
            let bytes = spec_header_bytes(sent) + payload;
            &&& spec_header_from_bytes(bytes.subrange(0, 20)) == sent
            &&& bytes.subrange(20, bytes.len() as int) == payload
        }),
{
    let sent = MultiLinkHeader { link_seq, ..header };
    lemma_header_bytes_roundtrip(sent);
    let bytes = spec_header_bytes(sent) + payload;
    assert(bytes.subrange(0, 20) =~= spec_header_bytes(sent));
    assert(bytes.subrange(20, bytes.len() as int) =~= payload);
}

/// A link whose peer fell silent for longer than the timeout tolerance is
/// down after the periodic check, whatever its latency and loss.
pub proof fn lemma_silent_link_goes_down(o: LinkView, now: u128, latency_ok: bool, loss_ok: bool)
    requires
        o.last_keepalive_received != 0,
        o.last_keepalive_received + o.timeout_tolerance < now,
    ensures
        monitored(o, now, latency_ok, loss_ok).1.state == LinkState::Down,
{
}

/// A link that hears from its peer within the timeout tolerance is not down
/// after the periodic check.
pub proof fn lemma_live_link_stays_up(o: LinkView, now: u128, latency_ok: bool, loss_ok: bool)
    requires
        o.last_keepalive_received == 0 || o.last_keepalive_received + o.timeout_tolerance >= now,
    ensures
        monitored(o, now, latency_ok, loss_ok).1.state != LinkState::Down,
{
}

/// The packet a link just received is never counted as lost: its bit in the
/// loss window is set, unless it is too old for the window.
pub proof fn lemma_received_packet_counted(o: LinkView, h: MultiLinkHeader, payload_len: u32, now: u128)
    requires
        room_for_packet(o, h, payload_len),
    ensures
        ({
            let f = received_on_link(o, h, payload_len, now).2;
            let d = crate::link::seq_distance(h.link_seq, f.seq_received);
            d < 128 ==> crate::link::window_bit(f.seq_buffer, d)
        }),
{
    let v1 = LinkView {
        saved_timestamp: Some(h.timestamp),
        saved_timestamp_received_at: Some(clock16(now)),
        remote_link_id: Some(h.link_id),
        ..o
    };
    crate::link::lemma_loss_update_marks(v1, h.link_seq, 128);
}

/// The receiver treats a data packet as its sender meant it: a packet to
/// reorder opens its stream and is delivered to it, de-duplicated when it was
/// sent on several links; a packet not to reorder goes straight to the
/// tunnel.
pub proof fn lemma_data_plan_matches_sending(
    o: LinkView,
    number_of_links: nat,
    stream_id: u8,
    sequence: u32,
    reorder: bool,
    payload_len: u16,
    now: u128,
)
    ensures
        receive_plan(
            data_framed(o, data_packet_type(number_of_links), stream_id, sequence, reorder, payload_len, now).0,
        ) == (ReceivePlan {
            reset_link: false,
            open_stream: reorder,
            deliver: if reorder {
                Delivery::Stream { dedup: number_of_links > 1 }
            } else {
                Delivery::Tunnel
            },
        }),
{
}

} // verus!
