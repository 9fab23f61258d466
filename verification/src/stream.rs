use vstd::prelude::*;
use std::collections::HashSet;
use std::collections::VecDeque;
use crate::reorder::{ReorderBuffer, ReorderResults, ReorderView, handled, packet_views, all_drained_in_order};

verus! {

/// `HashSet::capacity`: the number of elements the set can hold without
/// reallocating, which is at least the number it holds. How it relates to
/// the size the set was made with is left unsaid here; the window below
/// keeps that size itself.
#[verifier::external_body]
fn set_capacity(set: &HashSet<u32>) -> (cap: usize)
    ensures
        cap >= set@.len(),
{
    set.capacity()
}

/// Remembers the most recent packet ids of a stream to recognise packets
/// that arrive twice; when the set is full the oldest id is forgotten. It
/// holds at least as many ids as it was made for before it forgets one.
#[derive(Debug)]
pub struct Deduplication {
    _set: HashSet<u32>,
    _order: VecDeque<u32>,
    _size: usize,
}

/// What checking `id` does to the remembered ids `o` of a window made for
/// `size` ids: it reports whether `id` was remembered (`dup`), and an id
/// seen for the first time is remembered (`f`); the oldest id may be
/// forgotten to make room, but only once the window holds `size` ids.
pub open spec fn dedup_checked(o: Seq<u32>, size: nat, id: u32, dup: bool, f: Seq<u32>) -> bool {
    &&& dup == o.contains(id)
    &&& dup ==> f == o
    &&& !dup ==> (f == o.push(id) || (o.len() > 0 && f == o.drop_first().push(id)))
    &&& !dup && o.len() < size ==> f == o.push(id)
}

/// An id that was checked is remembered afterwards, so checking it again
/// right away reports a duplicate.
pub proof fn lemma_checked_id_remembered(o: Seq<u32>, size: nat, id: u32, dup: bool, f: Seq<u32>)
    requires
        dedup_checked(o, size, id, dup, f),
    ensures
        f.contains(id),
        dedup_checked(f, size, id, true, f),
{
    if dup {
    } else if f == o.push(id) {
        assert(f[f.len() - 1] == id);
    } else {
        assert(f[f.len() - 1] == id);
    }
}

/// `order` with `id` appended unless it already occurs.
pub open spec fn push_new(order: Seq<u32>, id: u32) -> Seq<u32> {
    if order.contains(id) {
        order
    } else {
        order.push(id)
    }
}

impl Deduplication {
    /// The remembered ids, oldest first.
    pub closed spec fn view(&self) -> Seq<u32> {
        self._order@
    }

    /// The number of ids the window was made for.
    pub closed spec fn size(&self) -> nat {
        self._size as nat
    }

    pub closed spec fn wf(&self) -> bool {
        &&& self._order@.no_duplicates()
        &&& self._order@.to_set() == self._set@
    }

    /// An empty set that makes room for `size` ids.
    pub fn new(size: usize) -> (d: Self)
        ensures
            d.wf(),
            d.view() == Seq::<u32>::empty(),
            d.size() == size,
    {
        let set = HashSet::with_capacity(size);
        let order = VecDeque::with_capacity(size);
        let d = Deduplication { _set: set, _order: order, _size: size };
        assert(d._order@.to_set() =~= d._set@);
        d
    }

    /// Remembers `id`, after forgetting the oldest id if the set held
    /// `capacity` ids.
    pub fn push_bounded(&mut self, id: u32, capacity: usize)
        requires
            old(self).wf(),
        ensures
            final(self).wf(),
            final(self).size() == old(self).size(),
            final(self).view() == push_new(
                if old(self).view().len() == capacity && old(self).view().len() > 0 {
                    old(self).view().drop_first()
                } else {
                    old(self).view()
                },
                id,
            ),
    {
        if self._len() == capacity {
            self._pop();
        }
        let ghost mid = self._order@;
        if self._set.insert(id) {
            self._order.push_back(id);
            proof {
                mid.lemma_push_to_set_commute(id);
                assert(!mid.contains(id)) by {
                    if mid.contains(id) {
                        assert(mid.to_set().contains(id));
                    }
                }
                assert(self._order@ == mid.push(id));
                assert(self._order@.to_set() =~= self._set@);
                assert(mid.push(id).no_duplicates());
            }
        } else {
            assert(mid.to_set().contains(id));
            assert(self._set@ =~= mid.to_set());
            assert(mid.contains(id));
        }
    }

    /// Remembers `id`; when the set is full (its capacity reached), the
    /// oldest id is forgotten first.
    pub fn _push(&mut self, id: u32)
        requires
            old(self).wf(),
        ensures
            final(self).wf(),
            final(self).size() == old(self).size(),
            final(self).view() == push_new(old(self).view(), id) || (old(self).view().len() > 0
                && final(self).view() == push_new(old(self).view().drop_first(), id)),
            old(self).view().len() < old(self).size() ==> final(self).view() == push_new(
                old(self).view(),
                id,
            ),
    {
        let capacity = self._capacity();
        self.push_bounded(id, capacity);
    }

    /// Forgets the oldest id; tells whether there was one.
    pub fn _pop(&mut self) -> (r: bool)
        requires
            old(self).wf(),
        ensures
            final(self).wf(),
            final(self).size() == old(self).size(),
            r == (old(self).view().len() > 0),
            final(self).view() == (if r {
                old(self).view().drop_first()
            } else {
                old(self).view()
            }),
    {
        let ghost o = self._order@;
        match self._order.pop_front() {
            Some(id) => {
                let r = self._set.remove(&id);
                proof {
                    assert(o.to_set().contains(o[0]));
                    assert(self._order@ =~= o.drop_first());
                    assert forall|x: u32| self._order@.to_set().contains(x) <==> self._set@.contains(x) by {
                        if self._order@.to_set().contains(x) {
                            let j = choose|j: int| 0 <= j < self._order@.len() && self._order@[j] == x;
                            assert(o[j + 1] == x);
                            assert(o.to_set().contains(x));
                        }
                        if self._set@.contains(x) {
                            assert(o.to_set().contains(x));
                            let j = choose|j: int| 0 <= j < o.len() && o[j] == x;
                            assert(j != 0);
                            assert(self._order@[j - 1] == x);
                        }
                    }
                    assert(self._order@.to_set() =~= self._set@);
                }
                r
            },
            None => false,
        }
    }

    pub fn _contains(&self, id: u32) -> (r: bool)
        requires
            self.wf(),
        ensures
            r == self.view().contains(id),
    {
        self._set.contains(&id)
    }

    pub fn _len(&self) -> (n: usize)
        requires
            self.wf(),
        ensures
            n == self.view().len(),
    {
        proof {
            self._order@.unique_seq_to_set();
        }
        self._set.len()
    }

    /// The number of ids the window holds before it forgets one: what the
    /// set can hold without reallocating, and never less than the size the
    /// window was made for (a set made with a capacity holds at least that
    /// many ids without reallocating).
    pub fn _capacity(&self) -> (n: usize)
        requires
            self.wf(),
        ensures
            n >= self.view().len(),
            n >= self.size(),
    {
        proof {
            self._order@.unique_seq_to_set();
        }
        let held = set_capacity(&self._set);
        if held < self._size {
            self._size
        } else {
            held
        }
    }

    /// Whether `id` was seen already; an id seen for the first time is
    /// remembered.
    pub fn is_duplicate(&mut self, id: u32) -> (r: bool)
        requires
            old(self).wf(),
        ensures
            final(self).wf(),
            final(self).size() == old(self).size(),
            dedup_checked(old(self).view(), old(self).size(), id, r, final(self).view()),
    {
        if self._contains(id) {
            true
        } else {
            self._push(id);
            proof {
                let o = old(self).view();
                if o.len() > 0 && !o.drop_first().contains(id) {
                } else if o.len() > 0 && o.drop_first().contains(id) {
                    let j = choose|j: int| 0 <= j < o.len() - 1 && o.drop_first()[j] == id;
                    assert(o[j + 1] == id);
                }
            }
            false
        }
    }
}


/// What to do with the timer that drains a stream's reorder buffer after
/// the reorder timeout.
#[derive(Debug, Clone, Copy, PartialEq, Eq, Structural)]
pub enum DrainTimerAction {
    /// Leave the timer as it is.
    Keep,
    /// The timer has run out; drop its handle.
    Forget,
    /// Start a timer of this many nanoseconds, replacing any handle kept.
    Start(u128),
    /// Cancel the running timer.
    Abort,
}

/// The state of a stream.
pub struct StreamView {
    pub reorder: ReorderView,
    pub drain_pending: bool,
    pub used_links: Seq<Seq<char>>,
    pub reorder_timeout: u128,
    pub dedup: Seq<u32>,
    /// The number of ids the de-duplication window was made for.
    pub dedup_size: nat,
}

/// The receiving side of one data stream: its reorder buffer, the links it
/// was received on and its de-duplication.
pub struct Stream {
    _reorder: ReorderBuffer,
    _reorder_drain_pending: bool,
    _used_links: Vec<String>,
    _reorder_timeout: u128,
    _deduplication: Deduplication,
}

/// Nanoseconds in a millisecond.
pub const NANOS_PER_MILLI: u128 = 1_000_000;

impl Stream {
    pub closed spec fn view(&self) -> StreamView {
        StreamView {
            reorder: self._reorder.view(),
            drain_pending: self._reorder_drain_pending,
            used_links: self._used_links@.map_values(|l: String| l@),
            reorder_timeout: self._reorder_timeout,
            dedup: self._deduplication.view(),
            dedup_size: self._deduplication.size(),
        }
    }

    pub closed spec fn wf(&self) -> bool {
        &&& self._reorder.wf()
        &&& self._deduplication.wf()
    }

    /// A new stream whose reorder buffer holds `reorder_size` packets (128 if
    /// not given) and drains after `reorder_timeout` nanoseconds (100 ms if
    /// not given); it remembers the last 1000 packet ids.
    pub fn new(reorder_size: Option<u32>, reorder_timeout: Option<u128>) -> (s: Self)
        ensures
            s.wf(),
            s.view() == (StreamView {
                reorder: ReorderView {
                    entries: Map::empty(),
                    max_size: match reorder_size {
                        Some(n) => n as usize,
                        None => 128,
                    },
                    sequence: 0,
                },
                drain_pending: false,
                used_links: Seq::empty(),
                reorder_timeout: match reorder_timeout {
                    Some(t) => t,
                    None => (100 * NANOS_PER_MILLI) as u128,
                },
                dedup: Seq::empty(),
                dedup_size: 1000,
            }),
    {
        let size = match reorder_size {
            Some(n) => n,
            None => 128,
        };
        let timeout = match reorder_timeout {
            Some(t) => t,
            None => 100 * NANOS_PER_MILLI,
        };
        let s = Stream {
            _reorder: ReorderBuffer::new(size),
            _reorder_drain_pending: false,
            _used_links: Vec::new(),
            _reorder_timeout: timeout,
            _deduplication: Deduplication::new(1000),
        };
        assert(s._used_links@.map_values(|l: String| l@) =~= Seq::<Seq<char>>::empty());
        s
    }

    /// Notes that the stream was received on `link`.
    pub fn insert_used_link(&mut self, link: String)
        requires
            old(self).wf(),
        ensures
            final(self).wf(),
            final(self).view() == (StreamView {
                used_links: if old(self).view().used_links.contains(link@) {
                    old(self).view().used_links
                } else {
                    old(self).view().used_links.push(link@)
                },
                ..old(self).view()
            }),
    {
        let ghost links = self._used_links@.map_values(|l: String| l@);
        let mut i: usize = 0;
        let mut found = false;
        while i < self._used_links.len()
            invariant
                i <= self._used_links.len(),
                links == self._used_links@.map_values(|l: String| l@),
                found <==> exists|j: int| 0 <= j < i && links[j] == link@,
            decreases self._used_links.len() - i,
        {
            assert(links[i as int] == self._used_links@[i as int]@);
            if self._used_links[i] == link {
                found = true;
            }
            i = i + 1;
        }
        if !found {
            self._used_links.push(link);
            proof {
                assert(self._used_links@.map_values(|l: String| l@) =~= links.push(link@));
                if links.contains(link@) {
                    let j = choose|j: int| 0 <= j < links.len() && links[j] == link@;
                }
            }
        }
    }

    /// Sets the reorder timeout to twice the given round trip time, in
    /// milliseconds.
    pub fn set_reorder_timeout(&mut self, reorder_timeout: u64)
        requires
            reorder_timeout * 2 <= u64::MAX,
        ensures
            final(self).wf() == old(self).wf(),
            final(self).view() == (StreamView {
                reorder_timeout: ((reorder_timeout * 2) * NANOS_PER_MILLI) as u128,
                ..old(self).view()
            }),
    {
        let doubled: u64 = reorder_timeout * 2;
        self._reorder_timeout = doubled as u128 * NANOS_PER_MILLI;
    }

    /// The links the stream was received on, in the order they were first used.
    pub fn get_used_links(&self) -> (links: Vec<String>)
        ensures
            links@.map_values(|l: String| l@) == self.view().used_links,
    {
        let mut out: Vec<String> = Vec::new();
        let mut i: usize = 0;
        while i < self._used_links.len()
            invariant
                i <= self._used_links.len(),
                out.len() == i,
                forall|k: int| 0 <= k < i ==> #[trigger] out@[k]@ == self._used_links@[k]@,
            decreases self._used_links.len() - i,
        {
            let name = self._used_links[i].clone();
            out.push(name);
            i = i + 1;
        }
        proof {
            assert(out@.map_values(|l: String| l@) =~= self._used_links@.map_values(|l: String| l@));
        }
        out
    }

    /// Whether the stream can take the packet with stream sequence number
    /// `new_sequence`: a duplicate that is to be dropped always; any other
    /// packet if its number is not the last one and, arriving ahead of its
    /// turn, it finds room in the reorder buffer.
    pub fn accepts(&self, new_sequence: u32, dedup: bool) -> (r: bool)
        requires
            self.wf(),
        ensures
            r == (!(dedup && self.view().dedup.contains(new_sequence)) ==> new_sequence < u32::MAX && (
            new_sequence > self.view().reorder.sequence + 1 ==> self.view().reorder.max_size >= 1)),
    {
        if dedup && self._deduplication._contains(new_sequence) {
            return true;
        }
        let sequence = self._reorder.last_sequence();
        new_sequence < u32::MAX && (new_sequence as u64 <= sequence as u64 + 1 || self._reorder.max_size() >= 1)
    }

    /// The reorder timeout, in nanoseconds.
    pub fn reorder_timeout(&self) -> (t: u128)
        ensures
            t == self.view().reorder_timeout,
    {
        self._reorder_timeout
    }

    /// Takes a packet of the stream with its stream sequence number, dropping
    /// it if `dedup` is set and the number was seen already. Hands back the
    /// packets to forward and what to do with the drain timer;
    /// `drain_timer_finished` tells whether a timer that was started has run
    /// out.
    pub fn handle_rx(
        &mut self,
        new_sequence: u32,
        packet: Vec<u8>,
        dedup: bool,
        drain_timer_finished: bool,
    ) -> (r: (Vec<Vec<u8>>, DrainTimerAction))
        requires
            old(self).wf(),
            !(dedup && old(self).view().dedup.contains(new_sequence)) ==> new_sequence < u32::MAX && (
            new_sequence > old(self).view().reorder.sequence + 1 ==> old(self).view().reorder.max_size
                >= 1),
        ensures
            final(self).wf(),
            rx_handled(
                old(self).view(),
                packet@,
                new_sequence,
                dedup,
                drain_timer_finished,
                packet_views(r.0@),
                r.1,
                final(self).view(),
            ),
    {
        if dedup && self._deduplication.is_duplicate(new_sequence) {
            return (Vec::new(), DrainTimerAction::Keep);
        }
        let mut forgot = false;
        if self._reorder_drain_pending && drain_timer_finished {
            self._reorder_drain_pending = false;
            forgot = true;
        }
        let ghost pv = packet@;
        let ghost ro = self._reorder.view();
        let (result, out) = self._reorder.handle_packet(packet, new_sequence);
        let action = match result {
            ReorderResults::Initialized
            | ReorderResults::InOrderPassthrough
            | ReorderResults::OutofOrderPassthrough => {
                if forgot {
                    DrainTimerAction::Forget
                } else {
                    DrainTimerAction::Keep
                }
            },
            ReorderResults::Inserted => {
                if !self._reorder_drain_pending {
                    self._reorder_drain_pending = true;
                    DrainTimerAction::Start(self._reorder_timeout)
                } else {
                    DrainTimerAction::Keep
                }
            },
            ReorderResults::ArrivalDrain
            | ReorderResults::CapacityDrain
            | ReorderResults::TimeoutDrain => {
                if self._reorder_drain_pending {
                    self._reorder_drain_pending = false;
                    DrainTimerAction::Abort
                } else if forgot {
                    DrainTimerAction::Forget
                } else {
                    DrainTimerAction::Keep
                }
            },
        };
        assert(handled(ro, pv, new_sequence, result, packet_views(out@), self.view().reorder));
        (out, action)
    }

    /// Drains the whole reorder buffer, as the drain timer does when it runs
    /// out; hands back the packets to forward, in order.
    pub fn drain_on_timeout(&mut self) -> (out: Vec<Vec<u8>>)
        requires
            old(self).wf(),
        ensures
            final(self).wf(),
            all_drained_in_order(old(self).view().reorder.entries, packet_views(out@)),
            final(self).view() == (StreamView {
                reorder: ReorderView {
                    entries: Map::empty(),
                    sequence: if out.len() == 0 {
                        0
                    } else {
                        old(self).view().reorder.entries[out@.last()@]
                    },
                    ..old(self).view().reorder
                },
                ..old(self).view()
            }),
    {
        self._reorder.drain_complete_buffer()
    }
}

/// What a stream does with a packet `p` of sequence number `s` from state
/// `o`: the packets it forwards (`out`), the timer action and its state
/// afterwards (`f`).
pub open spec fn rx_handled(
    o: StreamView,
    p: Seq<u8>,
    s: u32,
    dedup: bool,
    timer_finished: bool,
    out: Seq<Seq<u8>>,
    action: DrainTimerAction,
    f: StreamView,
) -> bool {
    if dedup && o.dedup.contains(s) {
        &&& out.len() == 0
        &&& action == DrainTimerAction::Keep
        &&& f == o
    } else {
        let forgot = o.drain_pending && timer_finished;
        let pending = o.drain_pending && !timer_finished;
        &&& f.used_links == o.used_links
        &&& f.reorder_timeout == o.reorder_timeout
        &&& f.dedup_size == o.dedup_size
        &&& (dedup ==> dedup_checked(o.dedup, o.dedup_size, s, false, f.dedup))
        &&& (!dedup ==> f.dedup == o.dedup)
        &&& exists|result: ReorderResults|
            #![trigger handled(o.reorder, p, s, result, out, f.reorder)]
            handled(o.reorder, p, s, result, out, f.reorder) && timer_decision(
                pending,
                forgot,
                result,
                o.reorder_timeout,
            ) == (action, f.drain_pending)
    }
}

/// A packet handled with de-duplication leaves its number remembered, so the
/// same number handled again with de-duplication is dropped: nothing is
/// forwarded, the timer is kept and the stream is left as it was.
pub proof fn lemma_rx_duplicate_dropped(
    o: StreamView,
    p: Seq<u8>,
    s: u32,
    timer_finished: bool,
    out: Seq<Seq<u8>>,
    action: DrainTimerAction,
    f: StreamView,
    p2: Seq<u8>,
    timer_finished2: bool,
    out2: Seq<Seq<u8>>,
    action2: DrainTimerAction,
    f2: StreamView,
)
    requires
        rx_handled(o, p, s, true, timer_finished, out, action, f),
        rx_handled(f, p2, s, true, timer_finished2, out2, action2, f2),
    ensures
        f.dedup.contains(s),
        out2.len() == 0,
        action2 == DrainTimerAction::Keep,
        f2 == f,
{
    if !o.dedup.contains(s) {
        lemma_checked_id_remembered(o.dedup, o.dedup_size, s, false, f.dedup);
    }
}

/// A packet handled without de-duplication always goes to the reorder
/// buffer, and the de-duplication window is left as it was.
pub proof fn lemma_rx_without_dedup_reorders(
    o: StreamView,
    p: Seq<u8>,
    s: u32,
    timer_finished: bool,
    out: Seq<Seq<u8>>,
    action: DrainTimerAction,
    f: StreamView,
)
    requires
        rx_handled(o, p, s, false, timer_finished, out, action, f),
    ensures
        exists|result: ReorderResults| #[trigger] handled(o.reorder, p, s, result, out, f.reorder),
        f.dedup == o.dedup,
{
}

/// The timer action and whether a timer is pending afterwards, for a packet
/// whose reorder result is `result`: `pending` tells whether a timer is
/// running, `forgot` whether one ran out and is to be dropped.
pub open spec fn timer_decision(pending: bool, forgot: bool, result: ReorderResults, timeout: u128) -> (
    DrainTimerAction,
    bool,
) {
    match result {
        ReorderResults::Inserted => if pending {
            (DrainTimerAction::Keep, true)
        } else {
            (DrainTimerAction::Start(timeout), true)
        },
        ReorderResults::ArrivalDrain | ReorderResults::CapacityDrain | ReorderResults::TimeoutDrain => {
            if pending {
                (DrainTimerAction::Abort, false)
            } else if forgot {
                (DrainTimerAction::Forget, false)
            } else {
                (DrainTimerAction::Keep, false)
            }
        },
        _ => if forgot {
            (DrainTimerAction::Forget, pending)
        } else {
            (DrainTimerAction::Keep, pending)
        },
    }
}

} // verus!
