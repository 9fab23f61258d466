use vstd::prelude::*;
use crate::float_bits::{F32_MIN_BITS, f32_gt, f32_gt_spec};
use crate::link_set::{names, name_set};
use crate::scheduler::{
    LinkSnapshot, snapshots_cover, usable_by_name, snapshot_of, find_snapshot, is_usable, upsert,
    upsert_all, lemma_upsert_all_names, lemma_upsert_all_value_of, kpi_of, lookup_kpi,
};
use crate::scheduler::time_to_trigger::{
    SchedulerTimeToTrigger, TttView, ttt_updated, ttt_or_default, value_names, value_pairs, position_of, elapsed,
    lemma_non_challenger_never_serves, lemma_challenger_tracked_or_switched,
};

verus! {

/// A link of a priority quality scheduler: the measurement that decides
/// whether it is good enough and the threshold the measurement has to exceed
/// (an `f32` bit pattern).
#[derive(Debug)]
pub struct PriorityQualitySchedulerLinkConfig {
    pub link_name: String,
    pub kpi: String,
    pub threshold: u32,
}

/// The links of a priority quality scheduler, in order of priority, and its
/// time to trigger (nanoseconds).
#[derive(Debug)]
pub struct PriorityQualitySchedulerConfig {
    pub links: Vec<PriorityQualitySchedulerLinkConfig>,
    pub time_to_trigger: Option<u128>,
}

/// Sends on the link of highest priority whose measurement exceeds its
/// threshold, switching only after a link has been better for the time to
/// trigger.
#[derive(Debug)]
pub struct PriorityQualityScheduler {
    _link_information: Vec<PriorityQualitySchedulerLinkConfig>,
    _priorities: Vec<u32>,
    _time_to_trigger: SchedulerTimeToTrigger,
    _last_chosen_links: Vec<String>,
}

/// The configured links, measurement names and thresholds.
pub open spec fn link_info(v: Seq<PriorityQualitySchedulerLinkConfig>) -> Seq<(Seq<char>, Seq<char>, u32)> {
    v.map_values(|c: PriorityQualitySchedulerLinkConfig| (c.link_name@, c.kpi@, c.threshold))
}

/// What the scheduler ranks link `i` of its list by: its priority value when
/// it can carry data and its measurement exceeds the threshold, else the
/// lowest value.
pub open spec fn priority_value(
    info: Seq<(Seq<char>, Seq<char>, u32)>,
    priorities: Seq<u32>,
    s: Seq<LinkSnapshot>,
    i: int,
) -> u32 {
    let (name, kpi, threshold) = info[i];
    if usable_by_name(s, name) && (kpi_of(snapshot_of(s, name).kpis@, kpi) matches Some(k)
        && f32_gt_spec(k, threshold)) {
        priorities[i]
    } else {
        F32_MIN_BITS
    }
}

/// The (link, value) list the scheduler ranks.
pub open spec fn priority_values(
    info: Seq<(Seq<char>, Seq<char>, u32)>,
    priorities: Seq<u32>,
    s: Seq<LinkSnapshot>,
) -> Seq<(Seq<char>, u32)> {
    upsert_all(Seq::new(info.len(), |i: int| (info[i].0, priority_value(info, priorities, s, i))))
}

/// The snapshots hold no measurement name twice.
pub open spec fn kpis_distinct(s: Seq<LinkSnapshot>) -> bool {
    forall|i: int| 0 <= i < s.len() ==> value_names(value_pairs(#[trigger] s[i].kpis@)).no_duplicates()
}

impl PriorityQualityScheduler {
    pub closed spec fn info(&self) -> Seq<(Seq<char>, Seq<char>, u32)> {
        link_info(self._link_information@)
    }

    pub closed spec fn links(&self) -> Seq<Seq<char>> {
        link_info(self._link_information@).map_values(|e: (Seq<char>, Seq<char>, u32)| e.0)
    }

    /// The priority value of each link (`f32` bit patterns).
    pub closed spec fn priorities(&self) -> Seq<u32> {
        self._priorities@
    }

    pub closed spec fn ttt(&self) -> TttView {
        self._time_to_trigger.view()
    }

    pub closed spec fn last_chosen(&self) -> Set<Seq<char>> {
        name_set(self._last_chosen_links@)
    }

    pub closed spec fn wf(&self) -> bool {
        &&& self._time_to_trigger.wf()
        &&& self._priorities.len() == self._link_information.len()
        &&& self._time_to_trigger.view().links.to_set() == self.links().to_set()
        &&& self._time_to_trigger.view().links.contains(self._time_to_trigger.view().serving)
    }

    /// `priorities` holds the value of each link, `100 - i * (100 / n)` for the
    /// `i`-th of `n` links, as `f32` bit patterns.
    pub fn new(
        links_to_use: Vec<PriorityQualitySchedulerLinkConfig>,
        priorities: Vec<u32>,
        time_to_trigger: Option<u128>,
    ) -> (s: Self)
        requires
            links_to_use.len() > 0,
            priorities.len() == links_to_use.len(),
        ensures
            s.wf(),
            s.info() == link_info(links_to_use@),
            s.priorities() == priorities@,
            s.ttt().serving == links_to_use@[0].link_name@,
            s.ttt().ttt == ttt_or_default(time_to_trigger),
            s.last_chosen() == Set::<Seq<char>>::empty(),
    {
        let mut link_names: Vec<String> = Vec::new();
        let mut i: usize = 0;
        while i < links_to_use.len()
            invariant
                i <= links_to_use.len(),
                link_names.len() == i,
                forall|k: int| 0 <= k < i ==> #[trigger] link_names@[k]@ == links_to_use@[k].link_name@,
            decreases links_to_use.len() - i,
        {
            link_names.push(links_to_use[i].link_name.clone());
            i = i + 1;
        }
        proof {
            assert(names(link_names@) =~= link_info(links_to_use@).map_values(
                |e: (Seq<char>, Seq<char>, u32)| e.0,
            ));
        }
        let s = PriorityQualityScheduler {
            _link_information: links_to_use,
            _priorities: priorities,
            _time_to_trigger: SchedulerTimeToTrigger::new(link_names, time_to_trigger),
            _last_chosen_links: Vec::new(),
        };
        assert(name_set(s._last_chosen_links@) =~= Set::empty());
        s
    }

    /// The time-to-trigger selection keeps one tracker entry per watched link.
    pub proof fn lemma_tracker_per_link(&self)
        requires
            self.wf(),
        ensures
            self.ttt().tracker.len() == self.ttt().links.len(),
    {
        self._time_to_trigger.lemma_tracker_per_link();
    }

    pub fn get_last_chosen_links(&self) -> (r: Vec<String>)
        ensures
            name_set(r@) == self.last_chosen(),
    {
        crate::link_set::copy_names(&self._last_chosen_links)
    }

    /// Ranks the links by priority among those good enough and hands back
    /// the serving link; `now` in nanoseconds.
    pub fn schedule(&mut self, links: &Vec<LinkSnapshot>, now: u128) -> (r: Vec<String>)
        requires
            old(self).wf(),
            snapshots_cover(links@, old(self).links()),
            kpis_distinct(links@),
        ensures
            final(self).wf(),
            final(self).info() == old(self).info(),
            final(self).links() == old(self).links(),
            final(self).priorities() == old(self).priorities(),
            ttt_updated(
                old(self).ttt(),
                priority_values(old(self).info(), old(self).priorities(), links@),
                now,
                final(self).ttt(),
            ),
            names(r@) == seq![final(self).ttt().serving],
            final(self).last_chosen() == name_set(r@),
            forall|i: int| 0 <= i < r.len() ==> old(self).links().contains(#[trigger] r@[i]@),
    {
        let ghost info = link_info(self._link_information@);
        let ghost ls = self.links();
        let ghost entries = Seq::new(
            info.len(),
            |i: int| (info[i].0, priority_value(info, self._priorities@, links@, i)),
        );
        let mut values: Vec<(String, u32)> = Vec::new();
        let mut i: usize = 0;
        while i < self._link_information.len()
            invariant
                i <= self._link_information.len(),
                self._link_information == old(self)._link_information,
                self._priorities == old(self)._priorities,
                self._priorities.len() == self._link_information.len(),
                info == link_info(self._link_information@),
                ls == info.map_values(|e: (Seq<char>, Seq<char>, u32)| e.0),
                entries == Seq::new(
                    info.len(),
                    |i: int| (info[i].0, priority_value(info, self._priorities@, links@, i)),
                ),
                snapshots_cover(links@, ls),
                kpis_distinct(links@),
                value_pairs(values@) == upsert_all(entries.subrange(0, i as int)),
                value_names(value_pairs(values@)).no_duplicates(),
            decreases self._link_information.len() - i,
        {
            let config = &self._link_information[i];
            assert(ls[i as int] == config.link_name@);
            let s = find_snapshot(links, &config.link_name);
            let mut v = F32_MIN_BITS;
            if is_usable(links[s].state, links[s].seq_received) {
                match lookup_kpi(&links[s].kpis, &config.kpi) {
                    Some(kpi) => {
                        if f32_gt(kpi, config.threshold) {
                            v = self._priorities[i];
                        }
                    },
                    None => {},
                }
            }
            upsert(&mut values, config.link_name.clone(), v);
            proof {
                assert(entries.subrange(0, i + 1).drop_last() =~= entries.subrange(0, i as int));
            }
            i = i + 1;
        }
        proof {
            assert(entries.subrange(0, i as int) =~= entries);
            lemma_upsert_all_names(entries);
            assert forall|k: int| 0 <= k < values.len() implies self._time_to_trigger.view().links.contains(
                #[trigger] value_names(value_pairs(values@))[k],
            ) by {
                let n = value_names(value_pairs(values@))[k];
                assert(value_names(entries).to_set().contains(n));
                let j = choose|j: int| 0 <= j < value_names(entries).len() && value_names(entries)[j] == n;
                assert(ls[j] == n);
                assert(ls.to_set().contains(ls[j]));
            }
        }
        let ghost t0 = self._time_to_trigger.view();
        if values.len() > 0 {
            self._time_to_trigger.update(&values, now);
            proof {
                crate::scheduler::time_to_trigger::lemma_serving_stays_watched(
                    t0,
                    value_pairs(values@),
                    now,
                    self._time_to_trigger.view(),
                );
            }
        } else {
            proof {
                assert(value_pairs(values@).len() == 0);
            }
        }
        let mut chosen: Vec<String> = Vec::new();
        chosen.push(self._time_to_trigger.get_serving_link());
        self._last_chosen_links = crate::link_set::copy_names(&chosen);
        assert(names(chosen@) =~= seq![self._time_to_trigger.view().serving]);
        proof {
            let sv = self._time_to_trigger.view().serving;
            assert(self._time_to_trigger.view().links.to_set().contains(sv));
            assert(self.links().to_set().contains(sv));
            assert(chosen@[0]@ == sv);
        }
        chosen
    }
}

/// Link `i` of the configuration can carry data and its measurement is
/// there and above its threshold.
pub open spec fn qualifies(info: Seq<(Seq<char>, Seq<char>, u32)>, s: Seq<LinkSnapshot>, i: int) -> bool {
    &&& usable_by_name(s, info[i].0)
    &&& kpi_of(snapshot_of(s, info[i].0).kpis@, info[i].1) matches Some(k)
    &&& f32_gt_spec(k, info[i].2)
}

/// In the ranking, the `i`-th configured link (named once in the
/// configuration) has the value `priority_value` of its index.
proof fn lemma_priority_position(
    info: Seq<(Seq<char>, Seq<char>, u32)>,
    priorities: Seq<u32>,
    s: Seq<LinkSnapshot>,
    i: int,
) -> (k: int)
    requires
        info.map_values(|e: (Seq<char>, Seq<char>, u32)| e.0).no_duplicates(),
        0 <= i < info.len(),
    ensures
        value_names(priority_values(info, priorities, s)).no_duplicates(),
        0 <= k < priority_values(info, priorities, s).len(),
        k == position_of(value_names(priority_values(info, priorities, s)), info[i].0),
        priority_values(info, priorities, s)[k] == (info[i].0, priority_value(info, priorities, s, i)),
{
    let ns = info.map_values(|e: (Seq<char>, Seq<char>, u32)| e.0);
    let entries = Seq::new(info.len(), |j: int| (info[j].0, priority_value(info, priorities, s, j)));
    let name = info[i].0;
    assert(value_names(entries)[i] == name);
    assert forall|j: int| 0 <= j < entries.len() && #[trigger] entries[j].0 == name implies entries[j].1
        == priority_value(info, priorities, s, i) by {
        assert(ns[j] == ns[i]);
    }
    lemma_upsert_all_value_of(entries, name, priority_value(info, priorities, s, i));
    let vs = priority_values(info, priorities, s);
    let k = position_of(value_names(vs), name);
    assert(value_names(vs)[k] == name);
    k
}

/// Priority quality scheduling: when the serving link does not qualify (it
/// cannot carry data, or its measurement is missing or not above its
/// threshold), a link that qualifies, with a priority above `f32::MIN`,
/// challenges it; after the update the serving link changed or that link is
/// tracked, and once it has been tracked for longer than the time to
/// trigger the serving link changes.
pub proof fn lemma_qualified_link_replaces_unqualified_serving(
    o: TttView,
    info: Seq<(Seq<char>, Seq<char>, u32)>,
    priorities: Seq<u32>,
    s: Seq<LinkSnapshot>,
    now: u128,
    f: TttView,
    serving_index: int,
    i: int,
)
    requires
        ttt_updated(o, priority_values(info, priorities, s), now, f),
        o.tracker.len() == o.links.len(),
        info.map_values(|e: (Seq<char>, Seq<char>, u32)| e.0).no_duplicates(),
        0 <= serving_index < info.len(),
        0 <= i < info.len(),
        info[serving_index].0 == o.serving,
        info[i].0 != o.serving,
        o.links.contains(info[i].0),
        !qualifies(info, s, serving_index),
        qualifies(info, s, i),
        f32_gt_spec(priorities[i], F32_MIN_BITS),
    ensures
        f.serving != o.serving || f.tracker[position_of(o.links, info[i].0)] is Some,
        (o.tracker[position_of(o.links, info[i].0)] matches Some(since) && elapsed(since, now) > o.ttt)
            ==> f.serving != o.serving,
{
    lemma_priority_position(info, priorities, s, serving_index);
    let k = lemma_priority_position(info, priorities, s, i);
    lemma_challenger_tracked_or_switched(o, priority_values(info, priorities, s), now, f, k);
}

/// Priority quality scheduling: between two links that qualify, one of
/// higher priority than the serving link challenges it.
pub proof fn lemma_higher_priority_link_challenges(
    o: TttView,
    info: Seq<(Seq<char>, Seq<char>, u32)>,
    priorities: Seq<u32>,
    s: Seq<LinkSnapshot>,
    now: u128,
    f: TttView,
    serving_index: int,
    i: int,
)
    requires
        ttt_updated(o, priority_values(info, priorities, s), now, f),
        o.tracker.len() == o.links.len(),
        info.map_values(|e: (Seq<char>, Seq<char>, u32)| e.0).no_duplicates(),
        0 <= serving_index < info.len(),
        0 <= i < info.len(),
        info[serving_index].0 == o.serving,
        info[i].0 != o.serving,
        o.links.contains(info[i].0),
        qualifies(info, s, serving_index),
        qualifies(info, s, i),
        f32_gt_spec(priorities[i], priorities[serving_index]),
    ensures
        f.serving != o.serving || f.tracker[position_of(o.links, info[i].0)] is Some,
        (o.tracker[position_of(o.links, info[i].0)] matches Some(since) && elapsed(since, now) > o.ttt)
            ==> f.serving != o.serving,
{
    lemma_priority_position(info, priorities, s, serving_index);
    let k = lemma_priority_position(info, priorities, s, i);
    lemma_challenger_tracked_or_switched(o, priority_values(info, priorities, s), now, f, k);
}

/// Priority quality scheduling: a link that does not qualify never becomes
/// the serving link (while the serving link's priority is not below
/// `f32::MIN`), nor does a link that qualifies but whose priority is not
/// higher than that of a serving link that qualifies.
pub proof fn lemma_unqualified_or_lower_link_never_serves(
    o: TttView,
    info: Seq<(Seq<char>, Seq<char>, u32)>,
    priorities: Seq<u32>,
    s: Seq<LinkSnapshot>,
    now: u128,
    f: TttView,
    serving_index: int,
    i: int,
)
    requires
        ttt_updated(o, priority_values(info, priorities, s), now, f),
        o.tracker.len() == o.links.len(),
        info.map_values(|e: (Seq<char>, Seq<char>, u32)| e.0).no_duplicates(),
        0 <= serving_index < info.len(),
        0 <= i < info.len(),
        info[serving_index].0 == o.serving,
        info[i].0 != o.serving,
        o.links.contains(info[i].0),
        !f32_gt_spec(F32_MIN_BITS, priorities[serving_index]),
        !qualifies(info, s, i) || (qualifies(info, s, serving_index) && !f32_gt_spec(
            priorities[i],
            priorities[serving_index],
        )),
    ensures
        f.serving != info[i].0,
        f.tracker[position_of(o.links, info[i].0)] is None,
{
    lemma_priority_position(info, priorities, s, serving_index);
    let k = lemma_priority_position(info, priorities, s, i);
    crate::float_bits::lemma_f32_gt_strict_order(F32_MIN_BITS, F32_MIN_BITS, F32_MIN_BITS);
    lemma_non_challenger_never_serves(o, priority_values(info, priorities, s), now, f, k);
}

} // verus!
