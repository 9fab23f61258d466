use vstd::prelude::*;
use priority_queue::PriorityQueue;
use std::cmp::Reverse;

verus! {

#[verifier::external_type_specification]
#[verifier::external_body]
#[verifier::reject_recursive_types(I)]
#[verifier::reject_recursive_types(P)]
#[verifier::reject_recursive_types(H)]
pub struct ExPriorityQueue<I, P, H>(PriorityQueue<I, P, H>);

#[verifier::external_type_specification]
#[verifier::external_body]
#[verifier::reject_recursive_types(T)]
pub struct ExReverse<T>(Reverse<T>);

/// A queue of packets, ordered by smallest stream sequence number first.
pub type PacketQueue = PriorityQueue<Vec<u8>, Reverse<u32>>;

/// The packets held by a reorder queue, each with its stream sequence number.
pub uninterp spec fn queue_entries(q: PacketQueue) -> Map<Seq<u8>, u32>;

/// `PriorityQueue::with_capacity`: a new queue holds nothing.
#[verifier::external_body]
fn queue_with_capacity(capacity: usize) -> (q: PacketQueue)
    ensures
        queue_entries(q).is_empty(),
{
    PriorityQueue::with_capacity(capacity)
}

/// `PriorityQueue::push`: stores the packet with its sequence number; a packet
/// equal to one already held replaces that one's sequence number, and the
/// replaced number is handed back.
#[verifier::external_body]
fn queue_push(q: &mut PacketQueue, item: Vec<u8>, sequence: u32) -> (replaced: Option<u32>)
    ensures
        queue_entries(*final(q)) == queue_entries(*old(q)).insert(item@, sequence),
        replaced == (if queue_entries(*old(q)).contains_key(item@) {
            Some(queue_entries(*old(q))[item@])
        } else {
            None
        }),
{
    match q.push(item, Reverse(sequence)) {
        Some(Reverse(s)) => Some(s),
        None => None,
    }
}

/// `PriorityQueue::peek`: the greatest priority, that is the smallest
/// sequence number held, or `None` for an empty queue.
#[verifier::external_body]
fn queue_peek_sequence(q: &PacketQueue) -> (r: Option<u32>)
    ensures
        r is None <==> queue_entries(*q).is_empty(),
        r matches Some(s) ==> is_min_sequence(queue_entries(*q), s),
{
    q.peek().map(|(_, p)| p.0)
}

/// `PriorityQueue::pop`: removes and hands back a packet with the greatest
/// priority, that is the smallest sequence number held.
#[verifier::external_body]
fn queue_pop(q: &mut PacketQueue) -> (r: Option<(Vec<u8>, u32)>)
    ensures
        r is None <==> queue_entries(*old(q)).is_empty(),
        r is None ==> queue_entries(*final(q)) == queue_entries(*old(q)),
        r matches Some(pair) ==> {
            &&& queue_entries(*old(q)).contains_key(pair.0@)
            &&& queue_entries(*old(q))[pair.0@] == pair.1
            &&& is_min_sequence(queue_entries(*old(q)), pair.1)
            &&& queue_entries(*final(q)) == queue_entries(*old(q)).remove(pair.0@)
        },
{
    q.pop().map(|(item, p)| (item, p.0))
}

/// `PriorityQueue::is_empty`.
#[verifier::external_body]
fn queue_is_empty(q: &PacketQueue) -> (r: bool)
    ensures
        r == queue_entries(*q).is_empty(),
{
    q.is_empty()
}

/// `PriorityQueue::len`.
#[verifier::external_body]
fn queue_len(q: &PacketQueue) -> (r: usize)
    ensures
        r == queue_entries(*q).dom().len(),
{
    q.len()
}

/// `s` is the smallest sequence number in `e`.
pub open spec fn is_min_sequence(e: Map<Seq<u8>, u32>, s: u32) -> bool {
    &&& exists|k: Seq<u8>| e.contains_key(k) && e[k] == s
    &&& forall|k: Seq<u8>| e.contains_key(k) ==> s <= #[trigger] e[k]
}

/// What happened to a packet handed to the reorder buffer.
#[derive(Debug, Clone, Copy, PartialEq, Eq, Structural)]
pub enum ReorderResults {
    Initialized,
    InOrderPassthrough,
    OutofOrderPassthrough,
    Inserted,
    ArrivalDrain,
    TimeoutDrain,
    CapacityDrain,
}

/// The state of a reorder buffer: the packets it holds, by sequence number,
/// its size limit and the last sequence number it forwarded.
pub struct ReorderView {
    pub entries: Map<Seq<u8>, u32>,
    pub max_size: usize,
    pub sequence: u32,
}

/// Holds back packets of a stream that arrive ahead of their turn and
/// forwards them once the gap before them is closed.
pub struct ReorderBuffer {
    _buffer: PacketQueue,
    _max_size: usize,
    pub _sequence: u32,
}

/// The views of a list of packets.
pub open spec fn packet_views(v: Seq<Vec<u8>>) -> Seq<Seq<u8>> {
    v.map_values(|p: Vec<u8>| p@)
}

/// `out` is a chain drained from `e`: packets of consecutive sequence numbers
/// starting at the smallest one held, removed from `e` to leave `rest`, and
/// the chain stops where the smallest remaining number does not continue it.
pub open spec fn chunk_drained(e: Map<Seq<u8>, u32>, out: Seq<Seq<u8>>, rest: Map<Seq<u8>, u32>) -> bool {
    &&& out.len() >= 1
    &&& is_min_sequence(e, e[out[0]])
    &&& forall|i: int|
        0 <= i < out.len() ==> e.contains_key(#[trigger] out[i]) && e[out[i]] == e[out[0]] + i
    &&& rest == e.remove_keys(out.to_set())
    &&& rest.is_empty() || !is_min_sequence(rest, (e[out[0]] + out.len()) as u32)
}

/// `out` holds every packet of `e` exactly once, in order of sequence number.
pub open spec fn all_drained_in_order(e: Map<Seq<u8>, u32>, out: Seq<Seq<u8>>) -> bool {
    &&& out.no_duplicates()
    &&& out.to_set() == e.dom()
    &&& forall|i: int, j: int| 0 <= i < j < out.len() ==> e[out[i]] <= e[out[j]]
}

impl ReorderBuffer {
    pub closed spec fn view(&self) -> ReorderView {
        ReorderView {
            entries: queue_entries(self._buffer),
            max_size: self._max_size,
            sequence: self._sequence,
        }
    }

    /// The buffer holds finitely many packets, none with the last sequence
    /// number, and it has not forwarded the last sequence number.
    pub closed spec fn wf(&self) -> bool {
        &&& queue_entries(self._buffer).dom().finite()
        &&& forall|k: Seq<u8>| #[trigger] queue_entries(self._buffer).contains_key(k)
            ==> queue_entries(self._buffer)[k] < u32::MAX
        &&& self._sequence < u32::MAX
    }

    /// An empty buffer that holds at most `size` packets.
    pub fn new(size: u32) -> (b: ReorderBuffer)
        ensures
            b.wf(),
            b.view() == (ReorderView { entries: Map::empty(), max_size: size as usize, sequence: 0 }),
    {
        let b = ReorderBuffer {
            _buffer: queue_with_capacity(size as usize),
            _max_size: size as usize,
            _sequence: 0,
        };
        assert(queue_entries(b._buffer) =~= Map::empty());
        b
    }

    /// The last sequence number forwarded in order.
    pub fn last_sequence(&self) -> (n: u32)
        ensures
            n == self.view().sequence,
    {
        self._sequence
    }

    /// The most packets the buffer holds.
    pub fn max_size(&self) -> (n: usize)
        ensures
            n == self.view().max_size,
    {
        self._max_size
    }

    pub fn buffer_is_empty(&self) -> (r: bool)
        ensures
            r == self.view().entries.is_empty(),
    {
        queue_is_empty(&self._buffer)
    }

    /// The smallest sequence number held, if any.
    pub fn min_sequence(&self) -> (r: Option<u32>)
        ensures
            r is None <==> self.view().entries.is_empty(),
            r matches Some(s) ==> is_min_sequence(self.view().entries, s),
    {
        queue_peek_sequence(&self._buffer)
    }

    /// Forwards every packet held, smallest sequence number first, and
    /// takes the last forwarded number (zero if none) as the current one.
    pub fn drain_complete_buffer(&mut self) -> (out: Vec<Vec<u8>>)
        requires
            old(self).wf(),
        ensures
            final(self).wf(),
            all_drained_in_order(old(self).view().entries, packet_views(out@)),
            final(self).view() == (ReorderView {
                entries: Map::empty(),
                sequence: if out.len() == 0 {
                    0
                } else {
                    old(self).view().entries[out@.last()@]
                },
                ..old(self).view()
            }),
    {
        let ghost e0 = queue_entries(self._buffer);
        let mut sequence: u32 = 0;
        let mut out: Vec<Vec<u8>> = Vec::new();
        while !queue_is_empty(&self._buffer)
            invariant
                self.wf(),
                self._max_size == old(self)._max_size,
                self._sequence == old(self)._sequence,
                e0 == queue_entries(old(self)._buffer),
                e0.dom().finite(),
                queue_entries(self._buffer) == e0.remove_keys(packet_views(out@).to_set()),
                packet_views(out@).no_duplicates(),
                forall|i: int| 0 <= i < out.len() ==> e0.contains_key(#[trigger] out@[i]@),
                forall|i: int, j: int| 0 <= i < j < out.len() ==> e0[out@[i]@] <= e0[out@[j]@],
                forall|i: int, k: Seq<u8>|
                    #![trigger out@[i], queue_entries(self._buffer)[k]]
                    0 <= i < out.len() && queue_entries(self._buffer).contains_key(k) ==> e0[out@[i]@]
                        <= queue_entries(self._buffer)[k],
                sequence == (if out.len() == 0 {
                    0
                } else {
                    e0[out@.last()@]
                }),
            decreases queue_entries(self._buffer).dom().len(),
        {
            let ghost r = queue_entries(self._buffer);
            let ghost views = packet_views(out@);
            match queue_pop(&mut self._buffer) {
                Some((packet, seq)) => {
                    let ghost pv = packet@;
                    out.push(packet);
                    sequence = seq;
                    proof {
                        assert(packet_views(out@) =~= views.push(pv));
                        assert(!views.contains(pv)) by {
                            if views.contains(pv) {
                                let j = choose|j: int| 0 <= j < views.len() && views[j] == pv;
                                assert(views.to_set().contains(pv));
                            }
                        }
                        views.lemma_push_to_set_commute(pv);
                        assert(queue_entries(self._buffer) =~= e0.remove_keys(
                            packet_views(out@).to_set(),
                        ));
                        assert(out@.last()@ == pv);
                        assert forall|i: int| 0 <= i < out.len() implies e0.contains_key(
                            #[trigger] out@[i]@,
                        ) by {
                            if i < out.len() - 1 {
                                assert(views[i] == out@[i]@);
                            }
                        }
                        assert forall|i: int, j: int| 0 <= i < j < out.len() implies e0[out@[i]@]
                            <= e0[out@[j]@] by {
                            if j == out.len() - 1 {
                                assert(r.contains_key(pv));
                            }
                        }
                        assert forall|i: int, k: Seq<u8>|
                            #![trigger out@[i], queue_entries(self._buffer)[k]]
                            0 <= i < out.len() && queue_entries(self._buffer).contains_key(
                                k,
                            ) implies e0[out@[i]@] <= queue_entries(self._buffer)[k] by {
                            assert(r.contains_key(k));
                        }
                        assert(views.push(pv).no_duplicates());
                    }
                },
                None => {},
            }
        }
        proof {
            let views = packet_views(out@);
            assert forall|k: Seq<u8>| e0.contains_key(k) implies views.to_set().contains(k) by {
                if !views.to_set().contains(k) {
                    assert(queue_entries(self._buffer).contains_key(k));
                }
            }
            assert forall|k: Seq<u8>| views.to_set().contains(k) implies e0.contains_key(k) by {
                let j = choose|j: int| 0 <= j < views.len() && views[j] == k;
                assert(e0.contains_key(out@[j]@));
            }
            assert(views.to_set() =~= e0.dom());
            assert(queue_entries(self._buffer) =~= Map::empty());
        }
        self._sequence = sequence;
        out
    }

    /// Forwards the packets of consecutive sequence numbers that start at the
    /// smallest one held; the current sequence number becomes the last one
    /// forwarded. Tells whether anything was held.
    pub fn drain_next_continous_packet_chunk(&mut self) -> (r: (bool, Vec<Vec<u8>>))
        requires
            old(self).wf(),
        ensures
            final(self).wf(),
            final(self).view().max_size == old(self).view().max_size,
            if old(self).view().entries.is_empty() {
                &&& !r.0
                &&& r.1.len() == 0
                &&& final(self).view() == old(self).view()
            } else {
                let e = old(self).view().entries;
                let out = packet_views(r.1@);
                &&& r.0
                &&& chunk_drained(e, out, final(self).view().entries)
                &&& final(self).view().sequence == e[out[0]] + out.len() - 1
            },
    {
        if self.buffer_is_empty() {
            return (false, Vec::new());
        }
        let ghost e0 = queue_entries(self._buffer);
        let first = queue_peek_sequence(&self._buffer);
        let mut sequence: u32 = match first {
            Some(s) => s,
            None => 0,
        };
        let ghost m = sequence;
        let mut out: Vec<Vec<u8>> = Vec::new();
        loop
            invariant_except_break
                !queue_entries(self._buffer).is_empty(),
                is_min_sequence(queue_entries(self._buffer), sequence),
                sequence == m + out.len(),
            invariant
                self._max_size == old(self)._max_size,
                self._sequence == old(self)._sequence,
                e0 == queue_entries(old(self)._buffer),
                old(self).wf(),
                is_min_sequence(e0, m),
                queue_entries(self._buffer) == e0.remove_keys(packet_views(out@).to_set()),
                packet_views(out@).no_duplicates(),
                forall|i: int|
                    0 <= i < out.len() ==> e0.contains_key(#[trigger] out@[i]@) && e0[out@[i]@] == m
                        + i,
            ensures
                out.len() >= 1,
                sequence == m + out.len() - 1,
                queue_entries(self._buffer).is_empty() || !is_min_sequence(
                    queue_entries(self._buffer),
                    (sequence + 1) as u32,
                ),
            decreases queue_entries(self._buffer).dom().len(),
        {
            let ghost r = queue_entries(self._buffer);
            let ghost views = packet_views(out@);
            proof {
                assert(r.dom().finite()) by {
                    assert(r.dom() =~= e0.dom().difference(views.to_set()));
                }
            }
            let popped = queue_pop(&mut self._buffer);
            match popped {
                None => {
                    proof {
                        assert(false);
                    }
                    break ;
                },
                Some((packet, _s)) => {
                    let ghost pv = packet@;
                    out.push(packet);
                    proof {
                        let k = choose|k: Seq<u8>| r.contains_key(k) && r[k] == sequence;
                        assert(r[pv] <= sequence);
                        assert(packet_views(out@) =~= views.push(pv));
                        assert(!views.contains(pv)) by {
                            if views.contains(pv) {
                                let j = choose|j: int| 0 <= j < views.len() && views[j] == pv;
                                assert(views.to_set().contains(pv));
                            }
                        }
                        views.lemma_push_to_set_commute(pv);
                        assert(queue_entries(self._buffer) =~= e0.remove_keys(
                            packet_views(out@).to_set(),
                        ));
                        assert forall|i: int| 0 <= i < out.len() implies e0.contains_key(
                            #[trigger] out@[i]@,
                        ) && e0[out@[i]@] == m + i by {
                            if i < out.len() - 1 {
                                assert(views[i] == out@[i]@);
                            }
                        }
                        assert(views.push(pv).no_duplicates());
                        assert(sequence < u32::MAX) by {
                            assert(e0.contains_key(pv));
                        }
                    }
                },
            }
            match queue_peek_sequence(&self._buffer) {
                Some(value) => {
                    if value == sequence + 1 {
                        sequence = value;
                    } else {
                        proof {
                            let k = choose|k: Seq<u8>|
                                queue_entries(self._buffer).contains_key(k)
                                    && queue_entries(self._buffer)[k] == value;
                            if is_min_sequence(queue_entries(self._buffer), (sequence + 1) as u32) {
                                let k2 = choose|k2: Seq<u8>|
                                    queue_entries(self._buffer).contains_key(k2)
                                        && queue_entries(self._buffer)[k2] == (sequence + 1) as u32;
                                assert(queue_entries(self._buffer)[k2] >= value);
                            }
                        }
                        break ;
                    }
                },
                None => {
                    break ;
                },
            }
        }
        self._sequence = sequence;
        proof {
            let out_v = packet_views(out@);
            assert(out_v[0] == out@[0]@);
            assert(e0[out_v[0]] == m);
            assert forall|i: int|
                0 <= i < out_v.len() implies e0.contains_key(#[trigger] out_v[i]) && e0[out_v[i]]
                == e0[out_v[0]] + i by {
                assert(out_v[i] == out@[i]@);
            }
            let last = out_v[out_v.len() - 1];
            assert(out_v[out_v.len() - 1] == out@[out@.len() - 1]@);
            assert(e0.contains_key(last));
            assert(queue_entries(self._buffer).dom() =~= e0.dom().difference(out_v.to_set()));
        }
        (true, out)
    }

    /// Holds back a packet that arrived ahead of its turn. When the buffer is
    /// full, every packet held, the new one included, is forwarded instead.
    /// Tells whether the packet is held.
    pub fn insert_packet(&mut self, packet: Vec<u8>, sequence: u32) -> (r: (bool, Vec<Vec<u8>>))
        requires
            old(self).wf(),
            old(self).view().max_size >= 1,
            sequence < u32::MAX,
        ensures
            final(self).wf(),
            final(self).view().max_size == old(self).view().max_size,
            ({
                let e = old(self).view().entries.insert(packet@, sequence);
                if old(self).view().entries.dom().len() < old(self).view().max_size - 1 {
                    &&& r.0
                    &&& r.1.len() == 0
                    &&& final(self).view() == ReorderView { entries: e, ..old(self).view() }
                } else {
                    &&& !r.0
                    &&& all_drained_in_order(e, packet_views(r.1@))
                    &&& final(self).view().entries.is_empty()
                    &&& final(self).view().sequence == e[r.1@.last()@]
                    &&& r.1.len() >= 1
                }
            }),
    {
        let ghost pv = packet@;
        if queue_len(&self._buffer) < self._max_size - 1 {
            queue_push(&mut self._buffer, packet, sequence);
            (true, Vec::new())
        } else {
            queue_push(&mut self._buffer, packet, sequence);
            let out = self.drain_complete_buffer();
            proof {
                let e = queue_entries(old(self)._buffer).insert(pv, sequence);
                assert(e.contains_key(pv));
                let views = packet_views(out@);
                assert(views.to_set().contains(pv));
                assert(out.len() != 0);
            }
            (false, out)
        }
    }

    /// Takes a packet of the stream: forwards it when it is the first packet,
    /// the next one in order (together with the held packets that follow it)
    /// or an old one, and holds it back when it arrived ahead of its turn.
    pub fn handle_packet(&mut self, packet: Vec<u8>, packet_sequence: u32) -> (r: (
        ReorderResults,
        Vec<Vec<u8>>,
    ))
        requires
            old(self).wf(),
            packet_sequence < u32::MAX,
            packet_sequence > old(self).view().sequence + 1 ==> old(self).view().max_size >= 1,
        ensures
            final(self).wf(),
            final(self).view().max_size == old(self).view().max_size,
            handled(old(self).view(), packet@, packet_sequence, r.0, packet_views(r.1@), final(self).view()),
    {
        let ghost pv = packet@;
        if packet_sequence == 0 {
            self._sequence = 0;
            let mut out = Vec::new();
            out.push(packet);
            proof {
                assert(packet_views(out@) =~= seq![pv]);
            }
            (ReorderResults::Initialized, out)
        } else if packet_sequence == self._sequence + 1 {
            self._sequence = packet_sequence;
            let mut out = Vec::new();
            out.push(packet);
            let min = self.min_sequence();
            let next = match min {
                Some(s) => s,
                None => 0,
            };
            if next == packet_sequence + 1 {
                let (drained, mut chunk) = self.drain_next_continous_packet_chunk();
                let ghost chunk_v = packet_views(chunk@);
                out.append(&mut chunk);
                proof {
                    assert(packet_views(out@) =~= seq![pv] + chunk_v);
                    assert(packet_views(out@).drop_first() =~= chunk_v);
                    let e = queue_entries(old(self)._buffer);
                    let k = choose|k: Seq<u8>| e.contains_key(k) && e[k] == next;
                    assert(e[chunk_v[0]] <= next);
                    let k2 = choose|k2: Seq<u8>| e.contains_key(k2) && e[k2] == e[chunk_v[0]];
                    assert(e[k2] >= next);
                }
                if drained {
                    return (ReorderResults::ArrivalDrain, out);
                }
            }
            proof {
                assert(packet_views(out@) =~= seq![pv]);
                let e = queue_entries(old(self)._buffer);
                if !e.is_empty() && is_min_sequence(e, (packet_sequence + 1) as u32) {
                    let k = choose|k: Seq<u8>| e.contains_key(k) && e[k] == next;
                    let k2 = choose|k2: Seq<u8>| e.contains_key(k2) && e[k2] == (packet_sequence + 1) as u32;
                    assert(e[k2] >= next);
                    assert(e[k] >= (packet_sequence + 1) as u32);
                }
            }
            (ReorderResults::InOrderPassthrough, out)
        } else if packet_sequence < self._sequence + 1 {
            let mut out = Vec::new();
            out.push(packet);
            proof {
                assert(packet_views(out@) =~= seq![pv]);
            }
            (ReorderResults::OutofOrderPassthrough, out)
        } else {
            let (held, out) = self.insert_packet(packet, packet_sequence);
            if held {
                (ReorderResults::Inserted, out)
            } else {
                (ReorderResults::CapacityDrain, out)
            }
        }
    }
}

/// What the buffer does with a packet `p` of sequence number `s`, from state
/// `o`: the result it reports, the packets it forwards (`out`) and its state
/// afterwards (`f`).
pub open spec fn handled(
    o: ReorderView,
    p: Seq<u8>,
    s: u32,
    result: ReorderResults,
    out: Seq<Seq<u8>>,
    f: ReorderView,
) -> bool {
    if s == 0 {
        &&& result == ReorderResults::Initialized
        &&& out == seq![p]
        &&& f == ReorderView { sequence: 0, ..o }
    } else if s == o.sequence + 1 {
        &&& out.len() >= 1
        &&& out[0] == p
        &&& if !o.entries.is_empty() && is_min_sequence(o.entries, (s + 1) as u32) {
            &&& result == ReorderResults::ArrivalDrain
            &&& chunk_drained(o.entries, out.drop_first(), f.entries)
            &&& f.sequence == s + out.len() - 1
            &&& f.max_size == o.max_size
        } else {
            &&& result == ReorderResults::InOrderPassthrough
            &&& out == seq![p]
            &&& f == ReorderView { sequence: s, ..o }
        }
    } else if s < o.sequence + 1 {
        &&& result == ReorderResults::OutofOrderPassthrough
        &&& out == seq![p]
        &&& f == o
    } else {
        let e = o.entries.insert(p, s);
        if o.entries.dom().len() < o.max_size - 1 {
            &&& result == ReorderResults::Inserted
            &&& out.len() == 0
            &&& f == ReorderView { entries: e, ..o }
        } else {
            &&& result == ReorderResults::CapacityDrain
            &&& all_drained_in_order(e, out)
            &&& f.entries.is_empty()
            &&& out.len() >= 1
            &&& f.sequence == e[out.last()]
            &&& f.max_size == o.max_size
        }
    }
}


/// No packet is lost or made up: after a packet was handled, every packet
/// that was held or just arrived is either still held or forwarded, and
/// nothing else is.
pub proof fn lemma_handled_conserves_packets(
    o: ReorderView,
    p: Seq<u8>,
    s: u32,
    result: ReorderResults,
    out: Seq<Seq<u8>>,
    f: ReorderView,
)
    requires
        handled(o, p, s, result, out, f),
    ensures
        f.entries.dom() + out.to_set() == o.entries.dom().insert(p),
{
    if s == 0 || s < o.sequence + 1 {
        assert(out.to_set() =~= set![p]) by {
            assert(out[0] == p);
        }
        assert(f.entries.dom() + out.to_set() =~= o.entries.dom().insert(p));
    } else if s == o.sequence + 1 {
        if result == ReorderResults::ArrivalDrain {
            let chunk = out.drop_first();
            assert(out =~= seq![p] + chunk);
            assert forall|k: Seq<u8>| out.to_set().contains(k) <==> (k == p || chunk.to_set().contains(k)) by {
                if out.to_set().contains(k) {
                    let j = choose|j: int| 0 <= j < out.len() && out[j] == k;
                    if j > 0 {
                        assert(chunk[j - 1] == k);
                    }
                }
                if chunk.to_set().contains(k) {
                    let j = choose|j: int| 0 <= j < chunk.len() && chunk[j] == k;
                    assert(out[j + 1] == k);
                }
                if k == p {
                    assert(out[0] == p);
                }
            }
            assert forall|k: Seq<u8>| chunk.to_set().contains(k) implies o.entries.contains_key(k) by {
                let j = choose|j: int| 0 <= j < chunk.len() && chunk[j] == k;
            }
            assert(f.entries.dom() + out.to_set() =~= o.entries.dom().insert(p));
        } else {
            assert(out.to_set() =~= set![p]) by {
                assert(out[0] == p);
            }
            assert(f.entries.dom() + out.to_set() =~= o.entries.dom().insert(p));
        }
    } else {
        if o.entries.dom().len() < o.max_size - 1 {
            assert(out.to_set() =~= Set::empty());
            assert(f.entries.dom() + out.to_set() =~= o.entries.dom().insert(p));
        } else {
            assert(f.entries.dom() + out.to_set() =~= o.entries.dom().insert(p));
        }
    }
}

/// A chunk that is drained on arrival leaves in strictly increasing,
/// consecutive sequence numbers; a complete drain in non-decreasing order.
pub proof fn lemma_drains_are_ordered(e: Map<Seq<u8>, u32>, out: Seq<Seq<u8>>, rest: Map<Seq<u8>, u32>)
    ensures
        chunk_drained(e, out, rest) ==> forall|i: int, j: int|
            0 <= i < j < out.len() ==> e[out[i]] + (j - i) == e[out[j]],
        all_drained_in_order(e, out) ==> forall|i: int, j: int|
            0 <= i <= j < out.len() ==> e[out[i]] <= e[out[j]],
{
}

} // verus!
