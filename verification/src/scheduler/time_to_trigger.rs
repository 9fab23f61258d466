use vstd::prelude::*;
use crate::float_bits::{f32_gt, f32_gt_spec};
use crate::link_set::names;

verus! {

/// Nanoseconds in a millisecond.
pub const NANOS_PER_MILLI: u128 = 1_000_000;

/// Keeps a serving link and switches to another link only after it has
/// been better than the serving one for longer than the time to trigger.
#[derive(Debug)]
pub struct SchedulerTimeToTrigger {
    _time_to_trigger: u128,
    _links: Vec<String>,
    _tracker: Vec<Option<u128>>,
    _serving_link: String,
}

/// The state of a time-to-trigger selection: the time to trigger in
/// nanoseconds, the links watched, for each the time since which it has been
/// better than the serving link, and the serving link.
pub struct TttView {
    pub ttt: u128,
    pub links: Seq<Seq<char>>,
    pub tracker: Seq<Option<u128>>,
    pub serving: Seq<char>,
}

/// The time to trigger a scheduler uses: the one configured, else 200 ms
/// (in nanoseconds).
pub open spec fn ttt_or_default(time_to_trigger: Option<u128>) -> u128 {
    match time_to_trigger {
        Some(d) => d,
        None => (200 * NANOS_PER_MILLI) as u128,
    }
}

/// The (name, value) pairs of a list of (link, value) pairs.
pub open spec fn value_pairs(values: Seq<(String, u32)>) -> Seq<(Seq<char>, u32)> {
    values.map_values(|e: (String, u32)| (e.0@, e.1))
}

/// The names of a list of (name, value) pairs.
pub open spec fn value_names(values: Seq<(Seq<char>, u32)>) -> Seq<Seq<char>> {
    values.map_values(|e: (Seq<char>, u32)| e.0)
}

/// The position of `name` in `ns`, or -1.
pub open spec fn position_of(ns: Seq<Seq<char>>, name: Seq<char>) -> int {
    if ns.contains(name) {
        choose|j: int| 0 <= j < ns.len() && ns[j] == name
    } else {
        -1
    }
}

/// Time passed from `since` to `now`, zero if `now` is earlier.
pub open spec fn elapsed(since: u128, now: u128) -> int {
    if now >= since {
        now - since
    } else {
        0
    }
}

/// The value recorded for the serving link, if it has one.
pub open spec fn serving_value(o: TttView, values: Seq<(Seq<char>, u32)>) -> u32 {
    values[position_of(value_names(values), o.serving)].1
}

/// Entry `k` is better than the serving link.
pub open spec fn challenges(o: TttView, values: Seq<(Seq<char>, u32)>, k: int) -> bool {
    &&& values[k].0 != o.serving
    &&& f32_gt_spec(values[k].1, serving_value(o, values))
}

/// Entry `k` has been better than the serving link for longer than the time
/// to trigger.
pub open spec fn ready(o: TttView, values: Seq<(Seq<char>, u32)>, k: int, now: u128) -> bool {
    &&& challenges(o, values, k)
    &&& o.tracker[position_of(o.links, values[k].0)] matches Some(since)
    &&& elapsed(since, now) > o.ttt
}

/// The tracker entry of link `i` after the entries of `values` before `k`
/// were looked at, without a switch.
pub open spec fn tracker_after(o: TttView, values: Seq<(Seq<char>, u32)>, k: int, i: int, now: u128) -> Option<u128> {
    let j = position_of(value_names(values), o.links[i]);
    if 0 <= j < k && o.links[i] != o.serving {
        if challenges(o, values, j) {
            if o.tracker[i] is Some {
                o.tracker[i]
            } else {
                Some(now)
            }
        } else {
            None
        }
    } else {
        o.tracker[i]
    }
}

/// The index of the entry chosen as best when the serving link has no
/// value: the first entry, replaced by every later entry that is greater
/// than the best so far.
pub open spec fn running_best(values: Seq<(Seq<char>, u32)>, n: int) -> int
    decreases n,
{
    if n <= 1 {
        0
    } else {
        let b = running_best(values, n - 1);
        if f32_gt_spec(values[n - 1].1, values[b].1) {
            n - 1
        } else {
            b
        }
    }
}

/// The state after an update with `values` at time `now`.
pub open spec fn ttt_updated(o: TttView, values: Seq<(Seq<char>, u32)>, now: u128, f: TttView) -> bool {
    &&& f.ttt == o.ttt
    &&& f.links == o.links
    &&& f.tracker.len() == o.tracker.len()
    &&& if value_names(values).contains(o.serving) {
        if exists|k: int| 0 <= k < values.len() && ready(o, values, k, now) {
            exists|k: int|
                #![trigger values[k]]
                0 <= k < values.len() && ready(o, values, k, now) && (forall|j: int|
                    0 <= j < k ==> !ready(o, values, j, now)) && f.serving == values[k].0 && (forall|
                    i: int,
                | 0 <= i < f.tracker.len() ==> #[trigger] f.tracker[i] is None)
        } else {
            &&& f.serving == o.serving
            &&& forall|i: int|
                0 <= i < f.tracker.len() ==> #[trigger] f.tracker[i] == tracker_after(
                    o,
                    values,
                    values.len() as int,
                    i,
                    now,
                )
        }
    } else if values.len() > 0 {
        &&& f.serving == values[running_best(values, values.len() as int)].0
        &&& f.tracker == o.tracker
    } else {
        f == o
    }
}

impl SchedulerTimeToTrigger {
    pub closed spec fn view(&self) -> TttView {
        TttView {
            ttt: self._time_to_trigger,
            links: names(self._links@),
            tracker: self._tracker@,
            serving: self._serving_link@,
        }
    }

    pub closed spec fn wf(&self) -> bool {
        &&& self._links.len() == self._tracker.len()
        &&& names(self._links@).no_duplicates()
    }

    /// Watches `links`, serving the first one; the time to trigger is 200 ms
    /// unless given (in nanoseconds).
    pub fn new(links: Vec<String>, time_to_trigger: Option<u128>) -> (t: Self)
        requires
            links.len() > 0,
        ensures
            t.wf(),
            t.view().serving == links@[0]@,
            t.view().links.to_set() == names(links@).to_set(),
            t.view().links.contains(t.view().serving),
            t.view().ttt == match time_to_trigger {
                Some(d) => d,
                None => (200 * NANOS_PER_MILLI) as u128,
            },
            forall|i: int| 0 <= i < t.view().tracker.len() ==> #[trigger] t.view().tracker[i] is None,
    {
        let mut watched: Vec<String> = Vec::new();
        let mut tracker: Vec<Option<u128>> = Vec::new();
        let mut i: usize = 0;
        while i < links.len()
            invariant
                i <= links.len(),
                watched.len() == tracker.len(),
                names(watched@).no_duplicates(),
                names(watched@).to_set() == names(links@).subrange(0, i as int).to_set(),
                forall|k: int| 0 <= k < tracker.len() ==> #[trigger] tracker@[k] is None,
            decreases links.len() - i,
        {
            let ghost before = names(watched@);
            let ghost lv = links@[i as int]@;
            proof {
                assert(names(links@).subrange(0, i + 1) =~= names(links@).subrange(0, i as int).push(lv));
                names(links@).subrange(0, i as int).lemma_push_to_set_commute(lv);
            }
            if !crate::link_set::contains_name(&watched, &links[i]) {
                watched.push(links[i].clone());
                tracker.push(None);
                proof {
                    assert(names(watched@) =~= before.push(lv));
                    before.lemma_push_to_set_commute(lv);
                }
            } else {
                proof {
                    assert(before.to_set().contains(lv));
                    assert(before.to_set().insert(lv) =~= before.to_set());
                }
            }
            i = i + 1;
        }
        proof {
            assert(names(links@).subrange(0, links.len() as int) =~= names(links@));
        }
        let serving = links[0].clone();
        proof {
            assert(names(links@)[0] == links@[0]@);
            assert(names(links@).to_set().contains(links@[0]@));
            assert(names(watched@).to_set().contains(links@[0]@));
        }
        let ttt = match time_to_trigger {
            Some(d) => d,
            None => 200 * NANOS_PER_MILLI,
        };
        SchedulerTimeToTrigger {
            _time_to_trigger: ttt,
            _links: watched,
            _tracker: tracker,
            _serving_link: serving,
        }
    }

    /// One tracker entry per watched link.
    pub proof fn lemma_tracker_per_link(&self)
        requires
            self.wf(),
        ensures
            self.view().tracker.len() == self.view().links.len(),
    {
    }

    /// The link currently served.
    pub fn get_serving_link(&self) -> (s: String)
        ensures
            s@ == self.view().serving,
    {
        self._serving_link.clone()
    }

    /// Forgets since when any link has been better than the serving one.
    pub fn _clear_tracker(&mut self)
        requires
            old(self).wf(),
        ensures
            final(self).wf(),
            final(self).view() == (TttView {
                tracker: Seq::new(old(self).view().tracker.len(), |i: int| None),
                ..old(self).view()
            }),
    {
        let mut i: usize = 0;
        while i < self._tracker.len()
            invariant
                self.wf(),
                self._links == old(self)._links,
                self._serving_link == old(self)._serving_link,
                self._time_to_trigger == old(self)._time_to_trigger,
                self._tracker.len() == old(self)._tracker.len(),
                i <= self._tracker.len(),
                forall|k: int| 0 <= k < i ==> #[trigger] self._tracker@[k] is None,
            decreases self._tracker.len() - i,
        {
            self._tracker.set(i, None);
            i = i + 1;
        }
        assert(self._tracker@ =~= Seq::new(old(self).view().tracker.len(), |i: int| None::<u128>));
    }

    /// Takes the latest value of each link (bit patterns of `f32`, higher is
    /// better) at time `now`. While the serving link has a value, a link that
    /// is better starts to be watched, one that is not stops to be, and the
    /// first link (in the order given) that has been better for longer than
    /// the time to trigger becomes the serving link. Without a value for the
    /// serving link the best link is served at once.
    pub fn update(&mut self, link_values: &Vec<(String, u32)>, now: u128)
        requires
            old(self).wf(),
            value_names(value_pairs(link_values@)).no_duplicates(),
            value_names(value_pairs(link_values@)).contains(old(self).view().serving) ==> forall|k: int|
                0 <= k < link_values.len() ==> old(self).view().links.contains(
                    #[trigger] value_names(value_pairs(link_values@))[k],
                ) || !challenges(old(self).view(), value_pairs(link_values@), k),
        ensures
            final(self).wf(),
            ttt_updated(old(self).view(), value_pairs(link_values@), now, final(self).view()),
    {
        let ghost o = self.view();
        let ghost vn = value_names(value_pairs(link_values@));
        match find_value(link_values, &self._serving_link) {
            Some(sidx) => {
                let sv = link_values[sidx].1;
                proof {
                    lemma_position_unique(vn, sidx as int);
                }
                let mut k: usize = 0;
                while k < link_values.len()
                    invariant
                        self.wf(),
                        o == old(self).view(),
                        vn == value_names(value_pairs(link_values@)),
                        vn.no_duplicates(),
                        o.links.no_duplicates(),
                        forall|j: int|
                            0 <= j < link_values.len() ==> o.links.contains(#[trigger] vn[j]) || !challenges(
                                o,
                                value_pairs(link_values@),
                                j,
                            ),
                        vn.contains(o.serving),
                        sv == serving_value(o, value_pairs(link_values@)),
                        self._links == old(self)._links,
                        self._serving_link == old(self)._serving_link,
                        self._time_to_trigger == old(self)._time_to_trigger,
                        self._tracker.len() == old(self)._tracker.len(),
                        k <= link_values.len(),
                        forall|j: int| 0 <= j < k ==> !ready(o, value_pairs(link_values@), j, now),
                        forall|i: int|
                            0 <= i < self._tracker.len() ==> #[trigger] self._tracker@[i]
                                == tracker_after(o, value_pairs(link_values@), k as int, i, now),
                    decreases link_values.len() - k,
                {
                    assert(vn[k as int] == link_values@[k as int].0@);
                    assert(value_pairs(link_values@)[k as int] == (link_values@[k as int].0@, link_values@[k as int].1));
                    let found = find_link(&self._links, &link_values[k].0);
                    if link_values[k].0 != self._serving_link && found.is_none() {
                        proof {
                            assert(!o.links.contains(vn[k as int]));
                            assert(!challenges(o, value_pairs(link_values@), k as int));
                            assert forall|i: int|
                                0 <= i < self._tracker.len() implies #[trigger] self._tracker@[i]
                                == tracker_after(o, value_pairs(link_values@), k + 1, i, now) by {
                                if vn.contains(o.links[i]) && position_of(vn, o.links[i]) == k {
                                    assert(vn[k as int] == o.links[i]);
                                }
                            }
                        }
                    } else if link_values[k].0 != self._serving_link {
                        let idx = match found {
                            Some(i) => i,
                            None => 0,
                        };
                        proof {
                            lemma_position_unique(o.links, idx as int);
                            lemma_position_unique(vn, k as int);
                            assert(self._tracker@[idx as int] == o.tracker[idx as int]);
                        }
                        let ghost before = self._tracker@;
                        if f32_gt(link_values[k].1, sv) {
                            match self._tracker[idx] {
                                None => {
                                    self._tracker.set(idx, Some(now));
                                },
                                Some(since) => {
                                    let passed: u128 = if now >= since {
                                        now - since
                                    } else {
                                        0
                                    };
                                    if passed > self._time_to_trigger {
                                        self._serving_link = link_values[k].0.clone();
                                        self._clear_tracker();
                                        proof {
                                            assert(ready(o, value_pairs(link_values@), k as int, now));
                                            assert(exists|k2: int|
                                                0 <= k2 < link_values.len() && ready(o, value_pairs(link_values@), k2, now));
                                            assert(link_values@[k as int] == link_values@[k as int]);
                                        }
                                        return ;
                                    }
                                },
                            }
                        } else {
                            self._tracker.set(idx, None);
                        }
                        proof {
                            assert forall|i: int|
                                0 <= i < self._tracker.len() implies #[trigger] self._tracker@[i]
                                == tracker_after(o, value_pairs(link_values@), k + 1, i, now) by {
                                if i != idx {
                                    assert(o.links[i] != o.links[idx as int]);
                                    if vn.contains(o.links[i]) {
                                        assert(position_of(vn, o.links[i]) != k);
                                    }
                                }
                            }
                            assert(!ready(o, value_pairs(link_values@), k as int, now));
                        }
                    } else {
                        proof {
                            assert(!challenges(o, value_pairs(link_values@), k as int));
                            assert forall|i: int|
                                0 <= i < self._tracker.len() implies #[trigger] self._tracker@[i]
                                == tracker_after(o, value_pairs(link_values@), k + 1, i, now) by {
                                if vn.contains(o.links[i]) && position_of(vn, o.links[i]) == k {
                                    assert(o.links[i] == o.serving);
                                }
                            }
                        }
                    }
                    k = k + 1;
                }
            },
            None => {
                if link_values.len() > 0 {
                    let mut best: usize = 0;
                    let mut n: usize = 1;
                    while n < link_values.len()
                        invariant
                            1 <= n <= link_values.len(),
                            best == running_best(value_pairs(link_values@), n as int),
                            0 <= best < n,
                        decreases link_values.len() - n,
                    {
                        if f32_gt(link_values[n].1, link_values[best].1) {
                            best = n;
                        }
                        n = n + 1;
                    }
                    self._serving_link = link_values[best].0.clone();
                }
                proof {
                    assert(self._tracker@ == o.tracker);
                }
            },
        }
    }
}

/// In a list without repeats, the position of the name at `j` is `j`.
pub proof fn lemma_position_unique(ns: Seq<Seq<char>>, j: int)
    requires
        ns.no_duplicates(),
        0 <= j < ns.len(),
    ensures
        position_of(ns, ns[j]) == j,
{
    assert(ns.contains(ns[j]));
}

fn find_link(links: &Vec<String>, name: &String) -> (r: Option<usize>)
    ensures
        match r {
            Some(i) => i < links.len() && names(links@)[i as int] == name@,
            None => !names(links@).contains(name@),
        },
{
    let mut i: usize = 0;
    while i < links.len()
        invariant
            i <= links.len(),
            forall|j: int| 0 <= j < i ==> names(links@)[j] != name@,
        decreases links.len() - i,
    {
        if links[i] == *name {
            return Some(i);
        }
        i = i + 1;
    }
    None
}

fn find_value(values: &Vec<(String, u32)>, name: &String) -> (r: Option<usize>)
    ensures
        match r {
            Some(i) => i < values.len() && value_names(value_pairs(values@))[i as int] == name@,
            None => !value_names(value_pairs(values@)).contains(name@),
        },
{
    let mut i: usize = 0;
    while i < values.len()
        invariant
            i <= values.len(),
            forall|j: int| 0 <= j < i ==> value_names(value_pairs(values@))[j] != name@,
        decreases values.len() - i,
    {
        if values[i].0 == *name {
            return Some(i);
        }
        i = i + 1;
    }
    None
}

/// The serving link only changes, while it still has a value, to a link
/// that is better than it and has been better for longer than the time to
/// trigger; the switch forgets all trackers.
pub proof fn lemma_switch_needs_time_to_trigger(o: TttView, values: Seq<(Seq<char>, u32)>, now: u128, f: TttView)
    requires
        ttt_updated(o, values, now, f),
        value_names(values).contains(o.serving),
        f.serving != o.serving,
    ensures
        exists|k: int| 0 <= k < values.len() && #[trigger] values[k].0 == f.serving && ready(o, values, k, now),
        forall|i: int| 0 <= i < f.tracker.len() ==> #[trigger] f.tracker[i] is None,
{
}

proof fn lemma_running_best_in_range(values: Seq<(Seq<char>, u32)>, n: int)
    requires
        1 <= n <= values.len(),
    ensures
        0 <= running_best(values, n) < n,
    decreases n,
{
    if n > 1 {
        lemma_running_best_in_range(values, n - 1);
    }
}

/// The serving link stays one of the watched links when every link that has
/// a value is watched.
pub proof fn lemma_serving_stays_watched(o: TttView, values: Seq<(Seq<char>, u32)>, now: u128, f: TttView)
    requires
        ttt_updated(o, values, now, f),
        o.links.contains(o.serving),
        forall|k: int| 0 <= k < values.len() ==> o.links.contains(#[trigger] value_names(values)[k]),
    ensures
        f.links.contains(f.serving),
{
    if value_names(values).contains(o.serving) {
        if exists|k: int| 0 <= k < values.len() && ready(o, values, k, now) {
            let k = choose|k: int|
                #![trigger values[k]]
                0 <= k < values.len() && ready(o, values, k, now) && (forall|j: int|
                    0 <= j < k ==> !ready(o, values, j, now)) && f.serving == values[k].0 && (forall|
                    i: int,
                | 0 <= i < f.tracker.len() ==> #[trigger] f.tracker[i] is None);
            assert(value_names(values)[k] == values[k].0);
        }
    } else if values.len() > 0 {
        lemma_running_best_in_range(values, values.len() as int);
        let b = running_best(values, values.len() as int);
        assert(value_names(values)[b] == values[b].0);
    }
}

/// A link whose value is not better than the serving link's never becomes
/// the serving link, and is not tracked as a challenger afterwards.
pub proof fn lemma_non_challenger_never_serves(o: TttView, values: Seq<(Seq<char>, u32)>, now: u128, f: TttView, k: int)
    requires
        ttt_updated(o, values, now, f),
        value_names(values).contains(o.serving),
        value_names(values).no_duplicates(),
        o.tracker.len() == o.links.len(),
        0 <= k < values.len(),
        values[k].0 != o.serving,
        !f32_gt_spec(values[k].1, serving_value(o, values)),
        o.links.contains(values[k].0),
    ensures
        f.serving != values[k].0,
        f.tracker[position_of(o.links, values[k].0)] is None,
{
    let name = values[k].0;
    let i = position_of(o.links, name);
    assert(0 <= i < o.links.len() && o.links[i] == name);
    assert(value_names(values)[k] == name);
    if exists|m: int| 0 <= m < values.len() && ready(o, values, m, now) {
        let m = choose|m: int|
            #![trigger values[m]]
            0 <= m < values.len() && ready(o, values, m, now) && (forall|j: int|
                0 <= j < m ==> !ready(o, values, j, now)) && f.serving == values[m].0 && (forall|
                i: int,
            | 0 <= i < f.tracker.len() ==> #[trigger] f.tracker[i] is None);
        if values[m].0 == name {
            assert(value_names(values)[m] == name);
            assert(m == k);
        }
        assert(f.tracker[i] is None);
    } else {
        lemma_position_unique(value_names(values), k);
        assert(f.tracker[i] == tracker_after(o, values, values.len() as int, i, now));
    }
}

/// A link whose value is better than the serving link's challenges it: after
/// the update either the serving link changed or the challenger is tracked;
/// and once it has been tracked for longer than the time to trigger, the
/// serving link changes.
pub proof fn lemma_challenger_tracked_or_switched(o: TttView, values: Seq<(Seq<char>, u32)>, now: u128, f: TttView, k: int)
    requires
        ttt_updated(o, values, now, f),
        value_names(values).contains(o.serving),
        value_names(values).no_duplicates(),
        o.tracker.len() == o.links.len(),
        0 <= k < values.len(),
        values[k].0 != o.serving,
        f32_gt_spec(values[k].1, serving_value(o, values)),
        o.links.contains(values[k].0),
    ensures
        f.serving != o.serving || f.tracker[position_of(o.links, values[k].0)] is Some,
        (o.tracker[position_of(o.links, values[k].0)] matches Some(since) && elapsed(since, now) > o.ttt)
            ==> f.serving != o.serving,
{
    let name = values[k].0;
    let i = position_of(o.links, name);
    assert(0 <= i < o.links.len() && o.links[i] == name);
    assert(value_names(values)[k] == name);
    if exists|m: int| 0 <= m < values.len() && ready(o, values, m, now) {
        let m = choose|m: int|
            #![trigger values[m]]
            0 <= m < values.len() && ready(o, values, m, now) && (forall|j: int|
                0 <= j < m ==> !ready(o, values, j, now)) && f.serving == values[m].0 && (forall|
                i: int,
            | 0 <= i < f.tracker.len() ==> #[trigger] f.tracker[i] is None);
        assert(f.serving != o.serving);
    } else {
        lemma_position_unique(value_names(values), k);
        assert(f.tracker[i] == tracker_after(o, values, values.len() as int, i, now));
        assert(!ready(o, values, k, now));
    }
}

} // verus!
