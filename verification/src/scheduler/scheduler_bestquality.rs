use vstd::prelude::*;
use crate::float_bits::{F32_MIN_BITS, f32_gt_spec};
use crate::link_set::{names, name_set};
use crate::scheduler::{
    LinkSnapshot, snapshots_cover, usable_by_name, snapshot_of, find_snapshot, is_usable,
    upsert, upsert_all, lemma_upsert_all_names, lemma_upsert_all_value_of,
};
use crate::scheduler::time_to_trigger::{
    SchedulerTimeToTrigger, TttView, ttt_updated, ttt_or_default, value_names, value_pairs, position_of, elapsed,
    lemma_non_challenger_never_serves, lemma_challenger_tracked_or_switched,
};

verus! {

/// The links of a best quality scheduler and its time to trigger
/// (nanoseconds).
#[derive(Debug)]
pub struct BestQualitySchedulerConfig {
    pub links: Vec<String>,
    pub time_to_trigger: Option<u128>,
}

/// Sends on the link of best technology quality, switching only after a
/// link has been better for the time to trigger.
#[derive(Debug)]
pub struct BestQualityScheduler {
    _links_to_use: Vec<String>,
    _time_to_trigger: SchedulerTimeToTrigger,
    _last_chosen_links: Vec<String>,
}

/// What the scheduler ranks a link by: its quality if it can carry data,
/// else the lowest value.
pub open spec fn quality_value(s: Seq<LinkSnapshot>, name: Seq<char>) -> u32 {
    if usable_by_name(s, name) {
        snapshot_of(s, name).quality
    } else {
        F32_MIN_BITS
    }
}

/// The (link, value) list the scheduler ranks.
pub open spec fn quality_values(links: Seq<Seq<char>>, s: Seq<LinkSnapshot>) -> Seq<(Seq<char>, u32)> {
    upsert_all(links.map_values(|l: Seq<char>| (l, quality_value(s, l))))
}

impl BestQualityScheduler {
    pub closed spec fn links(&self) -> Seq<Seq<char>> {
        names(self._links_to_use@)
    }

    pub closed spec fn ttt(&self) -> TttView {
        self._time_to_trigger.view()
    }

    pub closed spec fn last_chosen(&self) -> Set<Seq<char>> {
        name_set(self._last_chosen_links@)
    }

    pub closed spec fn wf(&self) -> bool {
        &&& self._time_to_trigger.wf()
        &&& self._time_to_trigger.view().links.to_set() == names(self._links_to_use@).to_set()
        &&& self._time_to_trigger.view().links.contains(self._time_to_trigger.view().serving)
    }

    pub fn new(links_to_use: Vec<String>, time_to_trigger: Option<u128>) -> (s: Self)
        requires
            links_to_use.len() > 0,
        ensures
            s.wf(),
            s.links() == names(links_to_use@),
            s.ttt().serving == links_to_use@[0]@,
            s.ttt().ttt == ttt_or_default(time_to_trigger),
            s.last_chosen() == Set::<Seq<char>>::empty(),
    {
        let copy = crate::link_set::copy_names(&links_to_use);
        proof {
            assert(names(copy@).len() == names(links_to_use@).len());
            assert(names(copy@)[0] == names(links_to_use@)[0]);
            assert(copy@[0]@ == links_to_use@[0]@);
        }
        let s = BestQualityScheduler {
            _links_to_use: links_to_use,
            _time_to_trigger: SchedulerTimeToTrigger::new(copy, time_to_trigger),
            _last_chosen_links: Vec::new(),
        };
        assert(name_set(s._last_chosen_links@) =~= Set::empty());
        s
    }

    /// The time-to-trigger selection keeps one tracker entry per watched link.
    pub proof fn lemma_tracker_per_link(&self)
        requires
            self.wf(),
        ensures
            self.ttt().tracker.len() == self.ttt().links.len(),
    {
        self._time_to_trigger.lemma_tracker_per_link();
    }

    pub fn get_last_chosen_links(&self) -> (r: Vec<String>)
        ensures
            name_set(r@) == self.last_chosen(),
    {
        crate::link_set::copy_names(&self._last_chosen_links)
    }

    /// Ranks the links by quality and hands back the serving link.
    pub fn schedule(&mut self, links: &Vec<LinkSnapshot>, now: u128) -> (r: Vec<String>)
        requires
            old(self).wf(),
            snapshots_cover(links@, old(self).links()),
        ensures
            final(self).wf(),
            final(self).links() == old(self).links(),
            ttt_updated(old(self).ttt(), quality_values(old(self).links(), links@), now, final(self).ttt()),
            names(r@) == seq![final(self).ttt().serving],
            final(self).last_chosen() == name_set(r@),
            forall|i: int| 0 <= i < r.len() ==> old(self).links().contains(#[trigger] r@[i]@),
    {
        let ghost ls = names(self._links_to_use@);
        let ghost entries = ls.map_values(|l: Seq<char>| (l, quality_value(links@, l)));
        let mut values: Vec<(String, u32)> = Vec::new();
        let mut i: usize = 0;
        while i < self._links_to_use.len()
            invariant
                i <= self._links_to_use.len(),
                self._links_to_use == old(self)._links_to_use,
                ls == names(self._links_to_use@),
                entries == ls.map_values(|l: Seq<char>| (l, quality_value(links@, l))),
                snapshots_cover(links@, ls),
                value_pairs(values@) == upsert_all(entries.subrange(0, i as int)),
                value_names(value_pairs(values@)).no_duplicates(),
            decreases self._links_to_use.len() - i,
        {
            assert(ls[i as int] == self._links_to_use@[i as int]@);
            let s = find_snapshot(links, &self._links_to_use[i]);
            let v = if is_usable(links[s].state, links[s].seq_received) {
                links[s].quality
            } else {
                F32_MIN_BITS
            };
            upsert(&mut values, self._links_to_use[i].clone(), v);
            proof {
                assert(entries.subrange(0, i + 1).drop_last() =~= entries.subrange(0, i as int));
            }
            i = i + 1;
        }
        proof {
            assert(entries.subrange(0, i as int) =~= entries);
            lemma_upsert_all_names(entries);
            assert forall|k: int| 0 <= k < values.len() implies self._time_to_trigger.view().links.contains(
                #[trigger] value_names(value_pairs(values@))[k],
            ) by {
                let n = value_names(value_pairs(values@))[k];
                assert(value_names(entries).to_set().contains(n));
                let j = choose|j: int| 0 <= j < value_names(entries).len() && value_names(entries)[j] == n;
                assert(ls.to_set().contains(ls[j]));
            }
        }
        let ghost t0 = self._time_to_trigger.view();
        if values.len() > 0 {
            self._time_to_trigger.update(&values, now);
            proof {
                crate::scheduler::time_to_trigger::lemma_serving_stays_watched(
                    t0,
                    value_pairs(values@),
                    now,
                    self._time_to_trigger.view(),
                );
            }
        } else {
            proof {
                assert(value_pairs(values@).len() == 0);
            }
        }
        let mut chosen: Vec<String> = Vec::new();
        chosen.push(self._time_to_trigger.get_serving_link());
        self._last_chosen_links = crate::link_set::copy_names(&chosen);
        assert(names(chosen@) =~= seq![self._time_to_trigger.view().serving]);
        proof {
            let sv = self._time_to_trigger.view().serving;
            assert(self._time_to_trigger.view().links.to_set().contains(sv));
            assert(self.links().to_set().contains(sv));
            assert(chosen@[0]@ == sv);
        }
        chosen
    }
}

/// In the ranking of `links`, the link `name` has the value `quality_value`,
/// and the ranking names each link once.
proof fn lemma_quality_ranked(links: Seq<Seq<char>>, s: Seq<LinkSnapshot>, name: Seq<char>)
    requires
        links.contains(name),
    ensures
        value_names(quality_values(links, s)).no_duplicates(),
        value_names(quality_values(links, s)).contains(name),
        quality_values(links, s)[position_of(value_names(quality_values(links, s)), name)] == (
            name,
            quality_value(s, name),
        ),
{
    let entries = links.map_values(|l: Seq<char>| (l, quality_value(s, l)));
    let j = choose|j: int| 0 <= j < links.len() && links[j] == name;
    assert(value_names(entries)[j] == name);
    lemma_upsert_all_value_of(entries, name, quality_value(s, name));
}

/// The position of `name` in the ranking of `links`.
proof fn lemma_quality_position(links: Seq<Seq<char>>, s: Seq<LinkSnapshot>, name: Seq<char>) -> (k: int)
    requires
        links.contains(name),
    ensures
        0 <= k < quality_values(links, s).len(),
        quality_values(links, s)[k] == (name, quality_value(s, name)),
        k == position_of(value_names(quality_values(links, s)), name),
{
    lemma_quality_ranked(links, s, name);
    let k = position_of(value_names(quality_values(links, s)), name);
    assert(value_names(quality_values(links, s))[k] == name);
    k
}

/// Best quality scheduling: when the serving link cannot carry data, a link
/// that can, with any quality above `f32::MIN`, challenges it; after the
/// update the serving link changed or that link is tracked, and once it has
/// been tracked for longer than the time to trigger the serving link
/// changes.
pub proof fn lemma_usable_link_replaces_unusable_serving(
    o: TttView,
    links: Seq<Seq<char>>,
    s: Seq<LinkSnapshot>,
    now: u128,
    f: TttView,
    name: Seq<char>,
)
    requires
        ttt_updated(o, quality_values(links, s), now, f),
        o.tracker.len() == o.links.len(),
        o.links.contains(name),
        links.contains(o.serving),
        links.contains(name),
        name != o.serving,
        !usable_by_name(s, o.serving),
        usable_by_name(s, name),
        f32_gt_spec(snapshot_of(s, name).quality, F32_MIN_BITS),
    ensures
        f.serving != o.serving || f.tracker[position_of(o.links, name)] is Some,
        (o.tracker[position_of(o.links, name)] matches Some(since) && elapsed(since, now) > o.ttt)
            ==> f.serving != o.serving,
{
    lemma_quality_ranked(links, s, o.serving);
    let k = lemma_quality_position(links, s, name);
    lemma_challenger_tracked_or_switched(o, quality_values(links, s), now, f, k);
}

/// Best quality scheduling: between two links that can carry data, one of
/// better quality than the serving link challenges it.
pub proof fn lemma_better_link_challenges(
    o: TttView,
    links: Seq<Seq<char>>,
    s: Seq<LinkSnapshot>,
    now: u128,
    f: TttView,
    name: Seq<char>,
)
    requires
        ttt_updated(o, quality_values(links, s), now, f),
        o.tracker.len() == o.links.len(),
        o.links.contains(name),
        links.contains(o.serving),
        links.contains(name),
        name != o.serving,
        usable_by_name(s, o.serving),
        usable_by_name(s, name),
        f32_gt_spec(snapshot_of(s, name).quality, snapshot_of(s, o.serving).quality),
    ensures
        f.serving != o.serving || f.tracker[position_of(o.links, name)] is Some,
        (o.tracker[position_of(o.links, name)] matches Some(since) && elapsed(since, now) > o.ttt)
            ==> f.serving != o.serving,
{
    lemma_quality_ranked(links, s, o.serving);
    let k = lemma_quality_position(links, s, name);
    lemma_challenger_tracked_or_switched(o, quality_values(links, s), now, f, k);
}

/// Best quality scheduling: a link that cannot carry data never becomes the
/// serving link (while the serving link's quality is not below `f32::MIN`),
/// nor does a link that can but whose quality is not better than that of a
/// serving link that can.
pub proof fn lemma_unusable_or_worse_link_never_serves(
    o: TttView,
    links: Seq<Seq<char>>,
    s: Seq<LinkSnapshot>,
    now: u128,
    f: TttView,
    name: Seq<char>,
)
    requires
        ttt_updated(o, quality_values(links, s), now, f),
        o.tracker.len() == o.links.len(),
        o.links.contains(name),
        links.contains(o.serving),
        links.contains(name),
        name != o.serving,
        !f32_gt_spec(F32_MIN_BITS, snapshot_of(s, o.serving).quality),
        !usable_by_name(s, name) || (usable_by_name(s, o.serving) && !f32_gt_spec(
            snapshot_of(s, name).quality,
            snapshot_of(s, o.serving).quality,
        )),
    ensures
        f.serving != name,
        f.tracker[position_of(o.links, name)] is None,
{
    lemma_quality_ranked(links, s, o.serving);
    let k = lemma_quality_position(links, s, name);
    crate::float_bits::lemma_f32_gt_strict_order(F32_MIN_BITS, F32_MIN_BITS, F32_MIN_BITS);
    lemma_non_challenger_never_serves(o, quality_values(links, s), now, f, k);
}

} // verus!
