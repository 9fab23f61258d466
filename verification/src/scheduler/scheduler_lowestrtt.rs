use vstd::prelude::*;
use crate::multilink::F32_MAX_BITS;
use crate::float_bits::{F32_MIN_BITS, f32_neg, f32_neg_spec, f32_gt_spec, lemma_f32_neg_reverses};
use crate::scheduler::smooth_transition::{SmoothTransition, SmoothView, smoothed};
use crate::link_set::{names, name_set};
use crate::scheduler::{
    LinkSnapshot, snapshots_cover, usable_by_name, snapshot_of, find_snapshot, is_usable,
    upsert, upsert_all, lemma_upsert_all_names, lemma_upsert_all_value_of,
};
use crate::scheduler::time_to_trigger::{
    SchedulerTimeToTrigger, TttView, ttt_updated, ttt_or_default, value_names, value_pairs, position_of, elapsed,
    lemma_non_challenger_never_serves, lemma_challenger_tracked_or_switched,
};

verus! {

/// The links of a lowest round trip time scheduler, its time to trigger and
/// its smooth transition time (nanoseconds).
#[derive(Debug)]
pub struct LowestRttSchedulerConfig {
    pub links: Vec<String>,
    pub time_to_trigger: Option<u128>,
    pub smooth_transition_time: Option<u128>,
}

/// Sends on the link of lowest round trip time, switching only after a link
/// has been faster for the time to trigger, and keeps using the previous
/// link too during the smooth transition time.
#[derive(Debug)]
pub struct LowestRttScheduler {
    _links_to_use: Vec<String>,
    _time_to_trigger: SchedulerTimeToTrigger,
    _smooth_transistion: SmoothTransition,
    _last_chosen_links: Vec<String>,
}

/// What the scheduler ranks a link by (higher is better): its negated round
/// trip time if it can carry data and has one, else the lowest value.
pub open spec fn rtt_value(s: Seq<LinkSnapshot>, name: Seq<char>) -> u32 {
    if usable_by_name(s, name) {
        match snapshot_of(s, name).round_trip_time {
            Some(rtt) => f32_neg_spec(rtt),
            None => F32_MIN_BITS,
        }
    } else {
        F32_MIN_BITS
    }
}

/// The (link, value) list the scheduler ranks.
pub open spec fn rtt_values(links: Seq<Seq<char>>, s: Seq<LinkSnapshot>) -> Seq<(Seq<char>, u32)> {
    upsert_all(links.map_values(|l: Seq<char>| (l, rtt_value(s, l))))
}

impl LowestRttScheduler {
    pub closed spec fn links(&self) -> Seq<Seq<char>> {
        names(self._links_to_use@)
    }

    pub closed spec fn ttt(&self) -> TttView {
        self._time_to_trigger.view()
    }

    pub closed spec fn smoothing(&self) -> SmoothView {
        self._smooth_transistion.view()
    }

    pub closed spec fn last_chosen(&self) -> Set<Seq<char>> {
        name_set(self._last_chosen_links@)
    }

    pub closed spec fn wf(&self) -> bool {
        &&& self._time_to_trigger.wf()
        &&& self._time_to_trigger.view().links.to_set() == names(self._links_to_use@).to_set()
        &&& self._time_to_trigger.view().links.contains(self._time_to_trigger.view().serving)
        &&& self._smooth_transistion.view().last.subset_of(names(self._links_to_use@).to_set())
        &&& self._smooth_transistion.view().current.subset_of(names(self._links_to_use@).to_set())
    }

    pub fn new(
        links_to_use: Vec<String>,
        time_to_trigger: Option<u128>,
        smooth_transition_time: Option<u128>,
    ) -> (s: Self)
        requires
            links_to_use.len() > 0,
        ensures
            s.wf(),
            s.smoothing() == (SmoothView {
                handover_duration: smooth_transition_time,
                handover_instant: None,
                last: Set::empty(),
                current: Set::empty(),
            }),
            s.links() == names(links_to_use@),
            s.ttt().serving == links_to_use@[0]@,
            s.ttt().ttt == ttt_or_default(time_to_trigger),
            s.last_chosen() == Set::<Seq<char>>::empty(),
    {
        let copy = crate::link_set::copy_names(&links_to_use);
        proof {
            assert(names(copy@).len() == names(links_to_use@).len());
            assert(names(copy@)[0] == names(links_to_use@)[0]);
            assert(copy@[0]@ == links_to_use@[0]@);
        }
        let s = LowestRttScheduler {
            _links_to_use: links_to_use,
            _time_to_trigger: SchedulerTimeToTrigger::new(copy, time_to_trigger),
            _smooth_transistion: SmoothTransition::new(smooth_transition_time),
            _last_chosen_links: Vec::new(),
        };
        assert(name_set(s._last_chosen_links@) =~= Set::empty());
        s
    }

    /// The time-to-trigger selection keeps one tracker entry per watched link.
    pub proof fn lemma_tracker_per_link(&self)
        requires
            self.wf(),
        ensures
            self.ttt().tracker.len() == self.ttt().links.len(),
    {
        self._time_to_trigger.lemma_tracker_per_link();
    }

    pub fn get_last_chosen_links(&self) -> (r: Vec<String>)
        ensures
            name_set(r@) == self.last_chosen(),
    {
        crate::link_set::copy_names(&self._last_chosen_links)
    }

    /// Ranks the links by round trip time and hands back the serving link,
    /// smoothed; `now` in nanoseconds.
    pub fn schedule(&mut self, links: &Vec<LinkSnapshot>, now: u128) -> (r: Vec<String>)
        requires
            old(self).wf(),
            snapshots_cover(links@, old(self).links()),
        ensures
            final(self).wf(),
            final(self).links() == old(self).links(),
            ttt_updated(old(self).ttt(), rtt_values(old(self).links(), links@), now, final(self).ttt()),
            (name_set(r@), final(self).smoothing()) == smoothed(
                old(self).smoothing(),
                set![final(self).ttt().serving],
                now,
            ),
            names(r@).no_duplicates(),
            final(self).last_chosen() == name_set(r@),
            forall|i: int| 0 <= i < r.len() ==> old(self).links().contains(#[trigger] r@[i]@),
    {
        let ghost ls = names(self._links_to_use@);
        let ghost entries = ls.map_values(|l: Seq<char>| (l, rtt_value(links@, l)));
        let mut values: Vec<(String, u32)> = Vec::new();
        let mut i: usize = 0;
        while i < self._links_to_use.len()
            invariant
                i <= self._links_to_use.len(),
                self._links_to_use == old(self)._links_to_use,
                ls == names(self._links_to_use@),
                entries == ls.map_values(|l: Seq<char>| (l, rtt_value(links@, l))),
                snapshots_cover(links@, ls),
                value_pairs(values@) == upsert_all(entries.subrange(0, i as int)),
                value_names(value_pairs(values@)).no_duplicates(),
            decreases self._links_to_use.len() - i,
        {
            assert(ls[i as int] == self._links_to_use@[i as int]@);
            let s = find_snapshot(links, &self._links_to_use[i]);
            let v = if is_usable(links[s].state, links[s].seq_received) {
                match links[s].round_trip_time {
                    Some(rtt) => f32_neg(rtt),
                    None => F32_MIN_BITS,
                }
            } else {
                F32_MIN_BITS
            };
            upsert(&mut values, self._links_to_use[i].clone(), v);
            proof {
                assert(entries.subrange(0, i + 1).drop_last() =~= entries.subrange(0, i as int));
            }
            i = i + 1;
        }
        proof {
            assert(entries.subrange(0, i as int) =~= entries);
            lemma_upsert_all_names(entries);
            assert forall|k: int| 0 <= k < values.len() implies self._time_to_trigger.view().links.contains(
                #[trigger] value_names(value_pairs(values@))[k],
            ) by {
                let n = value_names(value_pairs(values@))[k];
                assert(value_names(entries).to_set().contains(n));
                let j = choose|j: int| 0 <= j < value_names(entries).len() && value_names(entries)[j] == n;
                assert(ls.to_set().contains(ls[j]));
            }
        }
        let ghost t0 = self._time_to_trigger.view();
        if values.len() > 0 {
            self._time_to_trigger.update(&values, now);
            proof {
                crate::scheduler::time_to_trigger::lemma_serving_stays_watched(
                    t0,
                    value_pairs(values@),
                    now,
                    self._time_to_trigger.view(),
                );
            }
        } else {
            proof {
                assert(value_pairs(values@).len() == 0);
            }
        }
        let mut chosen: Vec<String> = Vec::new();
        chosen.push(self._time_to_trigger.get_serving_link());
        proof {
            assert(names(chosen@) =~= seq![self._time_to_trigger.view().serving]);
            assert(name_set(chosen@) =~= set![self._time_to_trigger.view().serving]) by {
                assert(names(chosen@)[0] == self._time_to_trigger.view().serving);
            }
        }
        let ghost s0 = self._smooth_transistion.view();
        let ghost allowed = names(self._links_to_use@).to_set();
        proof {
            let sv = self._time_to_trigger.view().serving;
            assert(self._time_to_trigger.view().links.to_set().contains(sv));
            assert(set![sv].subset_of(allowed));
        }
        let smoothed_links = self._smooth_transistion.smooth_out(chosen, now);
        proof {
            crate::scheduler::smooth_transition::lemma_smoothed_within(
                s0,
                set![self._time_to_trigger.view().serving],
                now,
                allowed,
            );
            assert forall|i: int| 0 <= i < smoothed_links.len() implies old(self).links().contains(
                #[trigger] smoothed_links@[i]@,
            ) by {
                assert(names(smoothed_links@)[i] == smoothed_links@[i]@);
                assert(name_set(smoothed_links@).contains(smoothed_links@[i]@));
                assert(allowed.contains(smoothed_links@[i]@));
            }
        }
        self._last_chosen_links = crate::link_set::copy_names(&smoothed_links);
        smoothed_links
    }
}

/// In the ranking of `links`, the link `name` has the value `rtt_value`,
/// and the ranking names each link once.
proof fn lemma_rtt_ranked(links: Seq<Seq<char>>, s: Seq<LinkSnapshot>, name: Seq<char>)
    requires
        links.contains(name),
    ensures
        value_names(rtt_values(links, s)).no_duplicates(),
        value_names(rtt_values(links, s)).contains(name),
        rtt_values(links, s)[position_of(value_names(rtt_values(links, s)), name)] == (
            name,
            rtt_value(s, name),
        ),
{
    let entries = links.map_values(|l: Seq<char>| (l, rtt_value(s, l)));
    let j = choose|j: int| 0 <= j < links.len() && links[j] == name;
    assert(value_names(entries)[j] == name);
    lemma_upsert_all_value_of(entries, name, rtt_value(s, name));
}

/// Lowest round trip time scheduling: a usable link whose round trip time is
/// not lower than that of the usable serving link never becomes the serving
/// link and is not tracked as a challenger.
pub proof fn lemma_slower_link_never_serves(
    o: TttView,
    links: Seq<Seq<char>>,
    s: Seq<LinkSnapshot>,
    now: u128,
    f: TttView,
    name: Seq<char>,
    serving_rtt: u32,
    rtt: u32,
)
    requires
        ttt_updated(o, rtt_values(links, s), now, f),
        o.tracker.len() == o.links.len(),
        o.links.contains(name),
        links.contains(o.serving),
        links.contains(name),
        name != o.serving,
        usable_by_name(s, o.serving),
        snapshot_of(s, o.serving).round_trip_time == Some(serving_rtt),
        usable_by_name(s, name),
        snapshot_of(s, name).round_trip_time == Some(rtt),
        !f32_gt_spec(serving_rtt, rtt),
    ensures
        f.serving != name,
        f.tracker[position_of(o.links, name)] is None,
{
    let values = rtt_values(links, s);
    lemma_rtt_ranked(links, s, name);
    lemma_rtt_ranked(links, s, o.serving);
    lemma_f32_neg_reverses(serving_rtt, rtt);
    let k = position_of(value_names(values), name);
    assert(value_names(values)[k] == name);
    lemma_non_challenger_never_serves(o, values, now, f, k);
}

/// Lowest round trip time scheduling: a usable link whose round trip time is
/// lower than that of the usable serving link challenges it; after the
/// update the serving link changed or the faster link is tracked, and once
/// it has been tracked for longer than the time to trigger the serving link
/// changes.
pub proof fn lemma_faster_link_challenges(
    o: TttView,
    links: Seq<Seq<char>>,
    s: Seq<LinkSnapshot>,
    now: u128,
    f: TttView,
    name: Seq<char>,
    serving_rtt: u32,
    rtt: u32,
)
    requires
        ttt_updated(o, rtt_values(links, s), now, f),
        o.tracker.len() == o.links.len(),
        o.links.contains(name),
        links.contains(o.serving),
        links.contains(name),
        name != o.serving,
        usable_by_name(s, o.serving),
        snapshot_of(s, o.serving).round_trip_time == Some(serving_rtt),
        usable_by_name(s, name),
        snapshot_of(s, name).round_trip_time == Some(rtt),
        f32_gt_spec(serving_rtt, rtt),
    ensures
        f.serving != o.serving || f.tracker[position_of(o.links, name)] is Some,
        (o.tracker[position_of(o.links, name)] matches Some(since) && elapsed(since, now) > o.ttt)
            ==> f.serving != o.serving,
{
    let values = rtt_values(links, s);
    lemma_rtt_ranked(links, s, name);
    lemma_rtt_ranked(links, s, o.serving);
    lemma_f32_neg_reverses(serving_rtt, rtt);
    let k = position_of(value_names(values), name);
    assert(value_names(values)[k] == name);
    lemma_challenger_tracked_or_switched(o, values, now, f, k);
}

/// Lowest round trip time scheduling: while the serving link can carry data
/// and has a round trip time not above `f32::MAX`, a link that cannot carry
/// data or has no round trip time never becomes the serving link.
pub proof fn lemma_unmeasured_or_unusable_link_never_serves(
    o: TttView,
    links: Seq<Seq<char>>,
    s: Seq<LinkSnapshot>,
    now: u128,
    f: TttView,
    name: Seq<char>,
    serving_rtt: u32,
)
    requires
        ttt_updated(o, rtt_values(links, s), now, f),
        o.tracker.len() == o.links.len(),
        o.links.contains(name),
        links.contains(o.serving),
        links.contains(name),
        name != o.serving,
        usable_by_name(s, o.serving),
        snapshot_of(s, o.serving).round_trip_time == Some(serving_rtt),
        !f32_gt_spec(serving_rtt, F32_MAX_BITS),
        !usable_by_name(s, name) || snapshot_of(s, name).round_trip_time is None,
    ensures
        f.serving != name,
        f.tracker[position_of(o.links, name)] is None,
{
    let values = rtt_values(links, s);
    lemma_rtt_ranked(links, s, name);
    lemma_rtt_ranked(links, s, o.serving);
    lemma_f32_neg_reverses(serving_rtt, F32_MAX_BITS);
    assert(f32_neg_spec(F32_MAX_BITS) == F32_MIN_BITS);
    let k = position_of(value_names(values), name);
    assert(value_names(values)[k] == name);
    lemma_non_challenger_never_serves(o, values, now, f, k);
}

/// Lowest round trip time scheduling: when the serving link cannot carry
/// data, a link that can, with a round trip time below `f32::MAX`,
/// challenges it.
pub proof fn lemma_measured_link_replaces_unusable_serving(
    o: TttView,
    links: Seq<Seq<char>>,
    s: Seq<LinkSnapshot>,
    now: u128,
    f: TttView,
    name: Seq<char>,
    rtt: u32,
)
    requires
        ttt_updated(o, rtt_values(links, s), now, f),
        o.tracker.len() == o.links.len(),
        o.links.contains(name),
        links.contains(o.serving),
        links.contains(name),
        name != o.serving,
        !usable_by_name(s, o.serving),
        usable_by_name(s, name),
        snapshot_of(s, name).round_trip_time == Some(rtt),
        f32_gt_spec(F32_MAX_BITS, rtt),
    ensures
        f.serving != o.serving || f.tracker[position_of(o.links, name)] is Some,
        (o.tracker[position_of(o.links, name)] matches Some(since) && elapsed(since, now) > o.ttt)
            ==> f.serving != o.serving,
{
    let values = rtt_values(links, s);
    lemma_rtt_ranked(links, s, name);
    lemma_rtt_ranked(links, s, o.serving);
    lemma_f32_neg_reverses(F32_MAX_BITS, rtt);
    assert(f32_neg_spec(F32_MAX_BITS) == F32_MIN_BITS);
    let k = position_of(value_names(values), name);
    assert(value_names(values)[k] == name);
    lemma_challenger_tracked_or_switched(o, values, now, f, k);
}

} // verus!
