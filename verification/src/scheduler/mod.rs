//! Link schedulers: which links a packet is sent on.

use vstd::prelude::*;
use crate::link::LinkState;
use crate::link_set::{names, name_set, contains_name};
use crate::scheduler::scheduler_roundrobin::{RoundRobinScheduler, RoundRobinView, step_after, usable_after};
use crate::scheduler::scheduler_singlelink::{SingleLinkScheduler, SingleLinkSchedulerConfig};
use crate::scheduler::scheduler_redundant::{RedundantScheduler, RedundantSchedulerConfig};
use crate::scheduler::scheduler_bestquality::{BestQualityScheduler, BestQualitySchedulerConfig, quality_values};
use crate::scheduler::scheduler_lowestrtt::{LowestRttScheduler, LowestRttSchedulerConfig, rtt_values};
use crate::scheduler::scheduler_priority_quality::{PriorityQualityScheduler, PriorityQualitySchedulerConfig, link_info, priority_values, kpis_distinct};
use crate::scheduler::smooth_transition::{smoothed, SmoothView};
use crate::scheduler::time_to_trigger::{position_of, value_names, value_pairs, ttt_updated, ttt_or_default, elapsed};

pub mod time_to_trigger;
pub mod smooth_transition;
pub mod scheduler_roundrobin;
pub mod scheduler_singlelink;
pub mod scheduler_redundant;
pub mod scheduler_bestquality;
pub mod scheduler_lowestrtt;
pub mod scheduler_priority_quality;

verus! {

/// What a scheduler reads of a link when it decides: its state, the packets
/// received since it came back up and its measurements, the latter as `f32`
/// bit patterns.
#[derive(Debug)]
pub struct LinkSnapshot {
    pub name: String,
    pub state: LinkState,
    pub seq_received: u32,
    /// The normed quality of the link's technology.
    pub quality: u32,
    /// The smoothed round trip time, if measured.
    pub round_trip_time: Option<u32>,
    /// The measured key performance indicators, by name.
    pub kpis: Vec<(String, u32)>,
}

/// A link can carry data when it is healthy, or when it reports a high loss
/// but has received fewer than 128 packets since it came back up (too few to
/// judge).
pub open spec fn link_usable(state: LinkState, seq_received: u32) -> bool {
    state == LinkState::Healthy || (state == LinkState::HighLoss && seq_received < 128)
}

pub fn is_usable(state: LinkState, seq_received: u32) -> (r: bool)
    ensures
        r == link_usable(state, seq_received),
{
    match state {
        LinkState::Healthy => true,
        LinkState::HighLoss => seq_received < 128,
        _ => false,
    }
}

/// The names of a list of snapshots.
pub open spec fn snapshot_names(s: Seq<LinkSnapshot>) -> Seq<Seq<char>> {
    s.map_values(|l: LinkSnapshot| l.name@)
}

/// Every name of `wanted` has exactly one snapshot.
pub open spec fn snapshots_cover(s: Seq<LinkSnapshot>, wanted: Seq<Seq<char>>) -> bool {
    &&& snapshot_names(s).no_duplicates()
    &&& forall|k: int| 0 <= k < wanted.len() ==> snapshot_names(s).contains(#[trigger] wanted[k])
}

/// The snapshot of the link called `name`.
pub open spec fn snapshot_of(s: Seq<LinkSnapshot>, name: Seq<char>) -> LinkSnapshot {
    s[time_to_trigger::position_of(snapshot_names(s), name)]
}

/// Whether the link called `name` can carry data, by its snapshot.
pub open spec fn usable_by_name(s: Seq<LinkSnapshot>, name: Seq<char>) -> bool {
    link_usable(snapshot_of(s, name).state, snapshot_of(s, name).seq_received)
}

/// The position of the snapshot of `name`.
pub fn find_snapshot(s: &Vec<LinkSnapshot>, name: &String) -> (i: usize)
    requires
        snapshot_names(s@).no_duplicates(),
        snapshot_names(s@).contains(name@),
    ensures
        i < s.len(),
        s@[i as int].name@ == name@,
        s@[i as int] == snapshot_of(s@, name@),
{
    let mut i: usize = 0;
    while i < s.len()
        invariant
            i <= s.len(),
            forall|j: int| 0 <= j < i ==> s@[j].name@ != name@,
            snapshot_names(s@).contains(name@),
            snapshot_names(s@).no_duplicates(),
        decreases s.len() - i,
    {
        if s[i].name == *name {
            proof {
                assert(snapshot_names(s@)[i as int] == name@);
                time_to_trigger::lemma_position_unique(snapshot_names(s@), i as int);
            }
            return i;
        }
        i = i + 1;
    }
    proof {
        let j = choose|j: int| 0 <= j < snapshot_names(s@).len() && snapshot_names(s@)[j] == name@;
        assert(s@[j].name@ == name@);
    }
    0
}


/// `p` with the value of `name` set to `val`: in place if `name` is there,
/// else appended.
pub open spec fn upsert_spec(p: Seq<(Seq<char>, u32)>, name: Seq<char>, val: u32) -> Seq<(Seq<char>, u32)> {
    if value_names(p).contains(name) {
        p.update(position_of(value_names(p), name), (name, val))
    } else {
        p.push((name, val))
    }
}

/// The (name, value) list that inserting `entries` one after the other into
/// a map gives: one pair per name, at the place the name first came, with
/// the value it came with last.
pub open spec fn upsert_all(entries: Seq<(Seq<char>, u32)>) -> Seq<(Seq<char>, u32)>
    decreases entries.len(),
{
    if entries.len() == 0 {
        Seq::empty()
    } else {
        upsert_spec(upsert_all(entries.drop_last()), entries.last().0, entries.last().1)
    }
}

/// A list built by `upsert_all` names each name of the entries once.
pub proof fn lemma_upsert_all_names(entries: Seq<(Seq<char>, u32)>)
    ensures
        value_names(upsert_all(entries)).no_duplicates(),
        value_names(upsert_all(entries)).to_set() == value_names(entries).to_set(),
        entries.len() > 0 ==> upsert_all(entries).len() > 0,
    decreases entries.len(),
{
    if entries.len() > 0 {
        let prev = upsert_all(entries.drop_last());
        lemma_upsert_all_names(entries.drop_last());
        let name = entries.last().0;
        let pn = value_names(prev);
        assert(value_names(entries) =~= value_names(entries.drop_last()).push(name));
        value_names(entries.drop_last()).lemma_push_to_set_commute(name);
        if pn.contains(name) {
            let j = position_of(pn, name);
            assert(value_names(prev.update(j, (name, prev[j].1))) =~= pn.update(j, name)) by {
                assert(pn[j] == name);
            }
            assert(value_names(upsert_all(entries)) =~= pn);
            assert(pn.to_set().insert(name) =~= pn.to_set());
        } else {
            assert(value_names(upsert_all(entries)) =~= pn.push(name));
            pn.lemma_push_to_set_commute(name);
        }
    }
}

/// Every pair of a list built by `upsert_all` is one of its entries.
pub proof fn lemma_upsert_all_member(entries: Seq<(Seq<char>, u32)>, k: int)
    requires
        0 <= k < upsert_all(entries).len(),
    ensures
        exists|j: int| 0 <= j < entries.len() && #[trigger] entries[j] == upsert_all(entries)[k],
    decreases entries.len(),
{
    let prev = upsert_all(entries.drop_last());
    let name = entries.last().0;
    let last = entries.len() - 1;
    assert(entries[last] == entries.last());
    if value_names(prev).contains(name) {
        let p = position_of(value_names(prev), name);
        if k != p {
            lemma_upsert_all_member(entries.drop_last(), k);
            let j = choose|j: int| 0 <= j < entries.drop_last().len() && #[trigger] entries.drop_last()[j] == prev[k];
            assert(entries[j] == entries.drop_last()[j]);
        }
    } else {
        if k < prev.len() {
            lemma_upsert_all_member(entries.drop_last(), k);
            let j = choose|j: int| 0 <= j < entries.drop_last().len() && #[trigger] entries.drop_last()[j] == prev[k];
            assert(entries[j] == entries.drop_last()[j]);
        }
    }
}

/// When every entry of `name` carries the value `val`, the list built by
/// `upsert_all` gives `name` the value `val`, once.
pub proof fn lemma_upsert_all_value_of(entries: Seq<(Seq<char>, u32)>, name: Seq<char>, val: u32)
    requires
        value_names(entries).contains(name),
        forall|j: int| 0 <= j < entries.len() && #[trigger] entries[j].0 == name ==> entries[j].1 == val,
    ensures
        value_names(upsert_all(entries)).contains(name),
        value_names(upsert_all(entries)).no_duplicates(),
        upsert_all(entries)[position_of(value_names(upsert_all(entries)), name)] == (name, val),
{
    lemma_upsert_all_names(entries);
    let vs = upsert_all(entries);
    assert(value_names(entries).to_set().contains(name));
    assert(value_names(vs).to_set().contains(name));
    assert(value_names(vs).contains(name));
    let p = position_of(value_names(vs), name);
    assert(value_names(vs)[p] == name);
    lemma_upsert_all_member(entries, p);
    let j = choose|j: int| 0 <= j < entries.len() && #[trigger] entries[j] == vs[p];
    assert(entries[j].0 == name);
}

/// Sets the value of `name` in a (name, value) list.
pub fn upsert(values: &mut Vec<(String, u32)>, name: String, val: u32)
    requires
        value_names(value_pairs(old(values)@)).no_duplicates(),
    ensures
        value_pairs(final(values)@) == upsert_spec(value_pairs(old(values)@), name@, val),
        value_names(value_pairs(final(values)@)).no_duplicates(),
{
    let ghost p = value_pairs(values@);
    let ghost pn = value_names(p);
    let mut i: usize = 0;
    while i < values.len()
        invariant
            i <= values.len(),
            values@ == old(values)@,
            p == value_pairs(values@),
            pn == value_names(p),
            pn.no_duplicates(),
            forall|j: int| 0 <= j < i ==> pn[j] != name@,
        decreases values.len() - i,
    {
        assert(pn[i as int] == values@[i as int].0@);
        if values[i].0 == name {
            proof {
                time_to_trigger::lemma_position_unique(pn, i as int);
            }
            values.set(i, (name, val));
            proof {
                assert(value_pairs(values@) =~= p.update(i as int, (pn[i as int], val)));
                assert(value_names(value_pairs(values@)) =~= pn);
            }
            return ;
        }
        i = i + 1;
    }
    let ghost nv = name@;
    values.push((name, val));
    proof {
        assert(!pn.contains(nv)) by {
            if pn.contains(nv) {
                let j = choose|j: int| 0 <= j < pn.len() && pn[j] == nv;
            }
        }
        assert(value_pairs(values@) =~= p.push((nv, val)));
        assert(value_names(value_pairs(values@)) =~= pn.push(nv));
    }
}

/// The value of `key` in a measurement list without repeated names.
pub open spec fn kpi_of(kpis: Seq<(String, u32)>, key: Seq<char>) -> Option<u32> {
    let ns = value_names(value_pairs(kpis));
    if ns.contains(key) {
        Some(kpis[position_of(ns, key)].1)
    } else {
        None
    }
}

/// The value of `key` in a measurement list without repeated names.
pub fn lookup_kpi(kpis: &Vec<(String, u32)>, key: &String) -> (r: Option<u32>)
    requires
        value_names(value_pairs(kpis@)).no_duplicates(),
    ensures
        r == kpi_of(kpis@, key@),
{
    let ghost ns = value_names(value_pairs(kpis@));
    let mut i: usize = 0;
    while i < kpis.len()
        invariant
            i <= kpis.len(),
            ns == value_names(value_pairs(kpis@)),
            ns.no_duplicates(),
            forall|j: int| 0 <= j < i ==> ns[j] != key@,
        decreases kpis.len() - i,
    {
        assert(ns[i as int] == kpis@[i as int].0@);
        if kpis[i].0 == *key {
            proof {
                time_to_trigger::lemma_position_unique(ns, i as int);
            }
            return Some(kpis[i].1);
        }
        i = i + 1;
    }
    proof {
        if ns.contains(key@) {
            let j = choose|j: int| 0 <= j < ns.len() && ns[j] == key@;
        }
    }
    None
}


/// The (empty) configuration of a weighted round robin scheduler, which
/// schedules as round robin.
#[derive(Debug)]
pub struct WeightedRoundRobinConfig {}

/// Which scheduler to use and how.
#[derive(Debug)]
pub enum SchedulerConfig {
    RoundRobin,
    WeightedRoundRobin(WeightedRoundRobinConfig),
    SingleLink(SingleLinkSchedulerConfig),
    LowestRtt(LowestRttSchedulerConfig),
    Redundant(RedundantSchedulerConfig),
    BestQuality(BestQualitySchedulerConfig),
    PriorityQuality(PriorityQualitySchedulerConfig),
}

/// Why a scheduler could not be set up.
#[derive(Debug, Clone, PartialEq, Eq)]
pub enum SchedulerError {
    /// A configured link does not exist.
    UnknownLink(String),
}

/// A scheduler of any kind.
#[derive(Debug)]
pub enum Scheduler {
    RoundRobin(RoundRobinScheduler),
    SingleLink(SingleLinkScheduler),
    LowestRtt(LowestRttScheduler),
    Redundant(RedundantScheduler),
    BestQuality(BestQualityScheduler),
    PriorityQuality(PriorityQualityScheduler),
}

/// The first name of `wanted` that is not among `known`.
pub open spec fn first_missing(wanted: Seq<Seq<char>>, known: Seq<Seq<char>>) -> Option<Seq<char>>
    decreases wanted.len(),
{
    if wanted.len() == 0 {
        None
    } else if !known.contains(wanted[0]) {
        Some(wanted[0])
    } else {
        first_missing(wanted.drop_first(), known)
    }
}

/// The links a configuration names, in order.
pub open spec fn config_links(c: SchedulerConfig) -> Seq<Seq<char>> {
    match c {
        SchedulerConfig::RoundRobin => Seq::empty(),
        SchedulerConfig::WeightedRoundRobin(_) => Seq::empty(),
        SchedulerConfig::SingleLink(c) => seq![c.link@],
        SchedulerConfig::LowestRtt(c) => names(c.links@),
        SchedulerConfig::Redundant(c) => names(c.links@),
        SchedulerConfig::BestQuality(c) => names(c.links@),
        SchedulerConfig::PriorityQuality(c) => link_info(c.links@).map_values(
            |e: (Seq<char>, Seq<char>, u32)| e.0,
        ),
    }
}

/// The configurations whose scheduler watches a serving link need a link.
pub open spec fn config_buildable(c: SchedulerConfig, priorities: Seq<u32>) -> bool {
    match c {
        SchedulerConfig::LowestRtt(c) => c.links.len() > 0,
        SchedulerConfig::BestQuality(c) => c.links.len() > 0,
        SchedulerConfig::PriorityQuality(c) => c.links.len() > 0 && priorities.len() == c.links.len(),
        _ => true,
    }
}

/// Whether a scheduler is the fresh one that a configuration describes.
pub open spec fn built_from(s: Scheduler, c: SchedulerConfig, link_names: Seq<Seq<char>>, priorities: Seq<u32>) -> bool {
    match c {
        SchedulerConfig::RoundRobin | SchedulerConfig::WeightedRoundRobin(_) => s matches Scheduler::RoundRobin(
            rr,
        ) && rr.wf() && rr.view() == RoundRobinView {
            links: link_names,
            last: 0,
            last_chosen: Set::empty(),
        },
        SchedulerConfig::SingleLink(c) => s matches Scheduler::SingleLink(sl) && sl.link() == c.link@
            && sl.last_chosen() == Set::<Seq<char>>::empty(),
        SchedulerConfig::LowestRtt(c) => s matches Scheduler::LowestRtt(l) && l.wf() && l.links() == names(
            c.links@,
        ) && l.ttt().serving == c.links@[0]@ && l.ttt().ttt == ttt_or_default(c.time_to_trigger)
            && l.smoothing() == (SmoothView {
            handover_duration: c.smooth_transition_time,
            handover_instant: None,
            last: Set::empty(),
            current: Set::empty(),
        }) && l.last_chosen() == Set::<Seq<char>>::empty(),
        SchedulerConfig::Redundant(c) => s matches Scheduler::Redundant(r) && r.links() == names(c.links@)
            && r.last_chosen() == Set::<Seq<char>>::empty(),
        SchedulerConfig::BestQuality(c) => s matches Scheduler::BestQuality(b) && b.wf() && b.links()
            == names(c.links@) && b.ttt().serving == c.links@[0]@ && b.ttt().ttt == ttt_or_default(
            c.time_to_trigger,
        ) && b.last_chosen() == Set::<
            Seq<char>,
        >::empty(),
        SchedulerConfig::PriorityQuality(c) => s matches Scheduler::PriorityQuality(p) && p.wf()
            && p.info() == link_info(c.links@) && p.priorities() == priorities && p.ttt().serving
            == c.links@[0].link_name@ && p.ttt().ttt == ttt_or_default(c.time_to_trigger)
            && p.last_chosen() == Set::<Seq<char>>::empty(),
    }
}

proof fn lemma_first_name(v: Seq<String>)
    requires
        v.len() > 0,
    ensures
        names(v)[0] == v[0]@,
        names(v).len() == v.len(),
{
}

fn check_links_exist(wanted: &Vec<String>, link_names: &Vec<String>) -> (r: Result<(), SchedulerError>)
    ensures
        match first_missing(names(wanted@), names(link_names@)) {
            Some(n) => r matches Err(SchedulerError::UnknownLink(m)) && m@ == n,
            None => r is Ok,
        },
{
    let mut i: usize = 0;
    assert(names(wanted@).subrange(0, wanted.len() as int) =~= names(wanted@));
    while i < wanted.len()
        invariant
            i <= wanted.len(),
            first_missing(names(wanted@), names(link_names@)) == first_missing(
                names(wanted@).subrange(i as int, wanted.len() as int),
                names(link_names@),
            ),
        decreases wanted.len() - i,
    {
        let ghost rest = names(wanted@).subrange(i as int, wanted.len() as int);
        assert(rest[0] == wanted@[i as int]@);
        assert(rest.drop_first() =~= names(wanted@).subrange(i + 1, wanted.len() as int));
        if !contains_name(link_names, &wanted[i]) {
            return Err(SchedulerError::UnknownLink(wanted[i].clone()));
        }
        i = i + 1;
    }
    assert(names(wanted@).subrange(i as int, wanted.len() as int) =~= Seq::<Seq<char>>::empty());
    Ok(())
}

impl Scheduler {
    /// Sets up the scheduler a configuration describes, over the links
    /// `link_names`; fails with the first configured link that does not
    /// exist. `priorities` holds the priority values of a priority quality
    /// scheduler (see [`PriorityQualityScheduler::new`]).
    pub fn new(scheduler: &SchedulerConfig, link_names: &Vec<String>, priorities: &Vec<u32>) -> (r: Result<
        Self,
        SchedulerError,
    >)
        requires
            first_missing(config_links(*scheduler), names(link_names@)) is None ==> config_buildable(
                *scheduler,
                priorities@,
            ),
        ensures
            match first_missing(config_links(*scheduler), names(link_names@)) {
                Some(n) => r matches Err(SchedulerError::UnknownLink(m)) && m@ == n,
                None => r matches Ok(s) && built_from(s, *scheduler, names(link_names@), priorities@),
            },
    {
        match scheduler {
            SchedulerConfig::RoundRobin | SchedulerConfig::WeightedRoundRobin(_) => {
                Ok(Scheduler::RoundRobin(RoundRobinScheduler::new(crate::link_set::copy_names(link_names))))
            },
            SchedulerConfig::SingleLink(config) => {
                proof {
                    let w = seq![config.link@];
                    assert(w[0] == config.link@);
                    assert(w.drop_first() =~= Seq::<Seq<char>>::empty());
                    assert(first_missing(Seq::<Seq<char>>::empty(), names(link_names@)) is None);
                }
                if !contains_name(link_names, &config.link) {
                    return Err(SchedulerError::UnknownLink(config.link.clone()));
                }
                Ok(Scheduler::SingleLink(SingleLinkScheduler::new(config.link.clone())))
            },
            SchedulerConfig::LowestRtt(config) => {
                match check_links_exist(&config.links, link_names) {
                    Err(e) => {
                        return Err(e);
                    },
                    Ok(()) => {},
                }
                proof {
                    lemma_first_name(config.links@);
                }
                Ok(
                    Scheduler::LowestRtt(
                        LowestRttScheduler::new(
                            crate::link_set::copy_names(&config.links),
                            config.time_to_trigger,
                            config.smooth_transition_time,
                        ),
                    ),
                )
            },
            SchedulerConfig::BestQuality(config) => {
                match check_links_exist(&config.links, link_names) {
                    Err(e) => {
                        return Err(e);
                    },
                    Ok(()) => {},
                }
                proof {
                    lemma_first_name(config.links@);
                }
                Ok(
                    Scheduler::BestQuality(
                        BestQualityScheduler::new(
                            crate::link_set::copy_names(&config.links),
                            config.time_to_trigger,
                        ),
                    ),
                )
            },
            SchedulerConfig::Redundant(config) => {
                match check_links_exist(&config.links, link_names) {
                    Err(e) => {
                        return Err(e);
                    },
                    Ok(()) => {},
                }
                Ok(Scheduler::Redundant(RedundantScheduler::new(crate::link_set::copy_names(&config.links))))
            },
            SchedulerConfig::PriorityQuality(config) => {
                let mut wanted: Vec<String> = Vec::new();
                let mut i: usize = 0;
                while i < config.links.len()
                    invariant
                        i <= config.links.len(),
                        wanted.len() == i,
                        forall|k: int| 0 <= k < i ==> #[trigger] wanted@[k]@ == config.links@[k].link_name@,
                    decreases config.links.len() - i,
                {
                    wanted.push(config.links[i].link_name.clone());
                    i = i + 1;
                }
                proof {
                    assert(names(wanted@) =~= config_links(*scheduler));
                }
                match check_links_exist(&wanted, link_names) {
                    Err(e) => {
                        return Err(e);
                    },
                    Ok(()) => {},
                }
                let mut infos = Vec::new();
                let mut j: usize = 0;
                while j < config.links.len()
                    invariant
                        j <= config.links.len(),
                        infos.len() == j,
                        forall|k: int| 0 <= k < j ==> #[trigger] link_info(infos@)[k] == link_info(config.links@)[k],
                    decreases config.links.len() - j,
                {
                    let c = &config.links[j];
                    let ghost before = infos@;
                    infos.push(
                        crate::scheduler::scheduler_priority_quality::PriorityQualitySchedulerLinkConfig {
                            link_name: c.link_name.clone(),
                            kpi: c.kpi.clone(),
                            threshold: c.threshold,
                        },
                    );
                    proof {
                        assert forall|k: int| 0 <= k < j + 1 implies #[trigger] link_info(infos@)[k]
                            == link_info(config.links@)[k] by {
                            if k < j {
                                assert(infos@[k] == before[k]);
                                assert(link_info(before)[k] == link_info(config.links@)[k]);
                            }
                        }
                    }
                    j = j + 1;
                }
                proof {
                    assert(link_info(infos@) =~= link_info(config.links@));
                }
                let mut prios: Vec<u32> = Vec::new();
                let mut k: usize = 0;
                while k < priorities.len()
                    invariant
                        k <= priorities.len(),
                        prios@ == priorities@.subrange(0, k as int),
                    decreases priorities.len() - k,
                {
                    prios.push(priorities[k]);
                    proof {
                        assert(prios@ =~= priorities@.subrange(0, k + 1));
                    }
                    k = k + 1;
                }
                proof {
                    assert(prios@ =~= priorities@);
                }
                Ok(Scheduler::PriorityQuality(PriorityQualityScheduler::new(infos, prios, config.time_to_trigger)))
            },
        }
    }

    /// The links chosen last.
    pub open spec fn last_chosen(&self) -> Set<Seq<char>> {
        match self {
            Scheduler::RoundRobin(s) => s.view().last_chosen,
            Scheduler::SingleLink(s) => s.last_chosen(),
            Scheduler::LowestRtt(s) => s.last_chosen(),
            Scheduler::Redundant(s) => s.last_chosen(),
            Scheduler::BestQuality(s) => s.last_chosen(),
            Scheduler::PriorityQuality(s) => s.last_chosen(),
        }
    }

    /// The links chosen last.
    pub fn get_last_chosen_links(&self) -> (r: Vec<String>)
        ensures
            name_set(r@) == self.last_chosen(),
    {
        match self {
            Scheduler::RoundRobin(scheduler) => scheduler.get_last_chosen_links(),
            Scheduler::SingleLink(scheduler) => scheduler.get_last_chosen_links(),
            Scheduler::LowestRtt(scheduler) => scheduler.get_last_chosen_links(),
            Scheduler::Redundant(scheduler) => scheduler.get_last_chosen_links(),
            Scheduler::BestQuality(scheduler) => scheduler.get_last_chosen_links(),
            Scheduler::PriorityQuality(scheduler) => scheduler.get_last_chosen_links(),
        }
    }

    /// The name of the kind of scheduler, as it is reported.
    pub fn to_display_string(&self) -> (s: String)
        ensures
            s@ == scheduler_name(*self),
    {
        match self {
            Scheduler::RoundRobin(_) => String::from_str("RoundRobin"),
            Scheduler::SingleLink(_) => String::from_str("SingleLink"),
            Scheduler::LowestRtt(_) => String::from_str("LowestRtt"),
            Scheduler::Redundant(_) => String::from_str("Redundant"),
            Scheduler::BestQuality(_) => String::from_str("BestQuality"),
            Scheduler::PriorityQuality(_) => String::from_str("PriorityQuality"),
        }
    }
}

/// What one scheduling step does, per kind of scheduler: `o` before, `f`
/// after, `r` the names of the chosen links (`None` when a round robin
/// scheduler finds no usable link and stays as it was).
pub open spec fn schedule_outcome(
    o: Scheduler,
    links: Seq<LinkSnapshot>,
    now: u128,
    f: Scheduler,
    r: Option<Seq<Seq<char>>>,
) -> bool {
    match (o, f) {
        (Scheduler::RoundRobin(os), Scheduler::RoundRobin(fs)) => {
            let ov = os.view();
            let n = ov.links.len() as int;
            match r {
                Some(chosen) => exists|j: int|
                    #![trigger step_after(ov.last, j, n)]
                    1 <= j <= n && usable_after(ov, links, j) && (forall|i: int|
                        1 <= i < j ==> !usable_after(ov, links, i)) && chosen == seq![
                        ov.links[step_after(ov.last, j, n)],
                    ] && fs.view() == RoundRobinView {
                        last: step_after(ov.last, j, n),
                        last_chosen: set![ov.links[step_after(ov.last, j, n)]],
                        ..ov
                    },
                None => (forall|j: int| 1 <= j <= n ==> !usable_after(ov, links, j)) && fs.view() == ov,
            }
        },
        (Scheduler::SingleLink(os), Scheduler::SingleLink(fs)) => {
            &&& fs.link() == os.link()
            &&& r == Some(
                if usable_by_name(links, os.link()) {
                    seq![os.link()]
                } else {
                    Seq::<Seq<char>>::empty()
                },
            )
        },
        (Scheduler::LowestRtt(os), Scheduler::LowestRtt(fs)) => {
            &&& fs.links() == os.links()
            &&& ttt_updated(os.ttt(), rtt_values(os.links(), links), now, fs.ttt())
            &&& r matches Some(chosen)
            &&& (chosen.to_set(), fs.smoothing()) == smoothed(os.smoothing(), set![fs.ttt().serving], now)
            &&& chosen.no_duplicates()
        },
        (Scheduler::Redundant(os), Scheduler::Redundant(fs)) => {
            &&& fs.links() == os.links()
            &&& r matches Some(chosen)
            &&& chosen.to_set() == os.links().to_set().filter(|l: Seq<char>| usable_by_name(links, l))
            &&& chosen.no_duplicates()
        },
        (Scheduler::BestQuality(os), Scheduler::BestQuality(fs)) => {
            &&& fs.links() == os.links()
            &&& ttt_updated(os.ttt(), quality_values(os.links(), links), now, fs.ttt())
            &&& r == Some(seq![fs.ttt().serving])
        },
        (Scheduler::PriorityQuality(os), Scheduler::PriorityQuality(fs)) => {
            &&& fs.info() == os.info()
            &&& fs.priorities() == os.priorities()
            &&& ttt_updated(os.ttt(), priority_values(os.info(), os.priorities(), links), now, fs.ttt())
            &&& r == Some(seq![fs.ttt().serving])
        },
        _ => false,
    }
}

proof fn lemma_single_name_set(v: Seq<String>, x: Seq<char>)
    requires
        names(v) == seq![x],
    ensures
        name_set(v) == set![x],
{
    assert(names(v).to_set() =~= set![x]) by {
        assert forall|y: Seq<char>| names(v).to_set().contains(y) <==> set![x].contains(y) by {
            if y == x {
                assert(names(v)[0] == x);
            }
        }
    }
}

impl Scheduler {
    /// The links the scheduler chooses among.
    pub open spec fn links(&self) -> Seq<Seq<char>> {
        match self {
            Scheduler::RoundRobin(s) => s.view().links,
            Scheduler::SingleLink(s) => seq![s.link()],
            Scheduler::LowestRtt(s) => s.links(),
            Scheduler::Redundant(s) => s.links(),
            Scheduler::BestQuality(s) => s.links(),
            Scheduler::PriorityQuality(s) => s.links(),
        }
    }

    /// The internal consistency of a scheduler; a round robin scheduler
    /// needs a link to take turns among.
    pub open spec fn wf(&self) -> bool {
        match self {
            Scheduler::RoundRobin(s) => s.wf() && s.view().links.len() > 0,
            Scheduler::LowestRtt(s) => s.wf(),
            Scheduler::BestQuality(s) => s.wf(),
            Scheduler::PriorityQuality(s) => s.wf(),
            _ => true,
        }
    }

    /// Chooses the links for the next packet, from the current state of the
    /// links; `now` in nanoseconds. Gives `None` only for a round robin
    /// scheduler that finds no usable link: its state is then unchanged, and
    /// the caller asks again with fresh link states.
    pub fn schedule(&mut self, links: &Vec<LinkSnapshot>, now: u128) -> (r: Option<Vec<String>>)
        requires
            old(self).wf(),
            snapshots_cover(links@, old(self).links()),
            *old(self) is PriorityQuality ==> kpis_distinct(links@),
        ensures
            final(self).wf(),
            final(self).links() == old(self).links(),
            schedule_outcome(
                *old(self),
                links@,
                now,
                *final(self),
                match r {
                    Some(v) => Some(names(v@)),
                    None => None,
                },
            ),
            r matches Some(v) ==> final(self).last_chosen() == name_set(v@),
            r matches Some(v) ==> forall|i: int|
                0 <= i < v.len() ==> old(self).links().contains(#[trigger] v@[i]@),
    {
        match self {
            Scheduler::RoundRobin(s) => {
                let ghost ov = s.view();
                let r = s.schedule(links);
                proof {
                    if r is Some {
                        assert(names(r->0@) =~= seq![names(r->0@)[0]]);
                        lemma_single_name_set(r->0@, names(r->0@)[0]);
                        let n = ov.links.len() as int;
                        let j = choose|j: int|
                            #![trigger step_after(ov.last, j, n)]
                            1 <= j <= n && usable_after(ov, links@, j) && (forall|i: int|
                                1 <= i < j ==> !usable_after(ov, links@, i)) && names(r->0@) == seq![
                                ov.links[step_after(ov.last, j, n)],
                            ] && s.view() == RoundRobinView {
                                last: step_after(ov.last, j, n),
                                last_chosen: set![ov.links[step_after(ov.last, j, n)]],
                                ..ov
                            };
                        let p = step_after(ov.last, j, n);
                        assert(0 <= p < n);
                        assert(r->0@[0]@ == names(r->0@)[0]);
                        assert(old(self).links()[p] == ov.links[p]);
                        assert forall|i: int| 0 <= i < r->0.len() implies old(self).links().contains(
                            #[trigger] r->0@[i]@,
                        ) by {
                            assert(names(r->0@).len() == 1);
                            assert(i == 0);
                        }
                    }
                }
                r
            },
            Scheduler::SingleLink(s) => {
                let v = s.schedule(links);
                proof {
                    assert forall|i: int| 0 <= i < v.len() implies old(self).links().contains(#[trigger] v@[i]@) by {
                        assert(names(v@)[i] == v@[i]@);
                        assert(old(self).links()[0] == s.link());
                    }
                }
                Some(v)
            },
            Scheduler::LowestRtt(s) => Some(s.schedule(links, now)),
            Scheduler::Redundant(s) => {
                let v = s.schedule(links);
                proof {
                    assert forall|i: int| 0 <= i < v.len() implies old(self).links().contains(#[trigger] v@[i]@) by {
                        assert(names(v@)[i] == v@[i]@);
                        assert(name_set(v@).contains(v@[i]@));
                        assert(s.links().to_set().contains(v@[i]@));
                    }
                }
                Some(v)
            },
            Scheduler::BestQuality(s) => Some(s.schedule(links, now)),
            Scheduler::PriorityQuality(s) => Some(s.schedule(links, now)),
        }
    }
}

/// Round robin, single link and redundant scheduling only ever choose links
/// that can carry data.
pub proof fn lemma_plain_schedulers_choose_usable(
    o: Scheduler,
    links: Seq<LinkSnapshot>,
    now: u128,
    f: Scheduler,
    chosen: Seq<Seq<char>>,
)
    requires
        o is RoundRobin || o is SingleLink || o is Redundant,
        schedule_outcome(o, links, now, f, Some(chosen)),
    ensures
        forall|i: int| 0 <= i < chosen.len() ==> usable_by_name(links, #[trigger] chosen[i]),
{
    match (o, f) {
        (Scheduler::RoundRobin(os), Scheduler::RoundRobin(fs)) => {
            let ov = os.view();
            let n = ov.links.len() as int;
            let j = choose|j: int|
                #![trigger step_after(ov.last, j, n)]
                1 <= j <= n && usable_after(ov, links, j) && (forall|i: int|
                    1 <= i < j ==> !usable_after(ov, links, i)) && chosen == seq![
                    ov.links[step_after(ov.last, j, n)],
                ] && fs.view() == RoundRobinView {
                    last: step_after(ov.last, j, n),
                    last_chosen: set![ov.links[step_after(ov.last, j, n)]],
                    ..ov
                };
            assert(chosen[0] == ov.links[step_after(ov.last, j, n)]);
        },
        (Scheduler::Redundant(os), Scheduler::Redundant(fs)) => {
            assert forall|i: int| 0 <= i < chosen.len() implies usable_by_name(links, #[trigger] chosen[i]) by {
                assert(chosen.to_set().contains(chosen[i]));
            }
        },
        _ => {},
    }
}

/// When every link can carry data, round robin scheduling takes the link
/// right after the last one chosen.
pub proof fn lemma_round_robin_takes_next(
    o: Scheduler,
    links: Seq<LinkSnapshot>,
    now: u128,
    f: Scheduler,
    chosen: Seq<Seq<char>>,
)
    requires
        o is RoundRobin,
        schedule_outcome(o, links, now, f, Some(chosen)),
        forall|i: int| 0 <= i < o.links().len() ==> usable_by_name(links, #[trigger] o.links()[i]),
    ensures
        match o {
            Scheduler::RoundRobin(os) => chosen == seq![
                os.view().links[step_after(os.view().last, 1, os.view().links.len() as int)],
            ],
            _ => false,
        },
{
    match (o, f) {
        (Scheduler::RoundRobin(os), Scheduler::RoundRobin(fs)) => {
            let ov = os.view();
            let n = ov.links.len() as int;
            let j = choose|j: int|
                #![trigger step_after(ov.last, j, n)]
                1 <= j <= n && usable_after(ov, links, j) && (forall|i: int|
                    1 <= i < j ==> !usable_after(ov, links, i)) && chosen == seq![
                    ov.links[step_after(ov.last, j, n)],
                ] && fs.view() == RoundRobinView {
                    last: step_after(ov.last, j, n),
                    last_chosen: set![ov.links[step_after(ov.last, j, n)]],
                    ..ov
                };
            if j > 1 {
                let p = step_after(ov.last, 1, n);
                assert(0 <= p < n) by (nonlinear_arith)
                    requires
                        p == (ov.last + 1) % n,
                        n >= 1,
                ;
                assert(o.links()[p] == ov.links[p]);
                assert(usable_by_name(links, o.links()[p]));
                assert(!usable_after(ov, links, 1));
            }
        },
        _ => {},
    }
}

/// The name of a kind of scheduler.
pub open spec fn scheduler_name(s: Scheduler) -> Seq<char> {
    match s {
        Scheduler::RoundRobin(_) => "RoundRobin"@,
        Scheduler::SingleLink(_) => "SingleLink"@,
        Scheduler::LowestRtt(_) => "LowestRtt"@,
        Scheduler::Redundant(_) => "Redundant"@,
        Scheduler::BestQuality(_) => "BestQuality"@,
        Scheduler::PriorityQuality(_) => "PriorityQuality"@,
    }
}

/// The link a scheduler with a time-to-trigger selection serves.
pub open spec fn serving_of(s: Scheduler) -> Seq<char> {
    match s {
        Scheduler::LowestRtt(l) => l.ttt().serving,
        Scheduler::BestQuality(b) => b.ttt().serving,
        Scheduler::PriorityQuality(p) => p.ttt().serving,
        _ => Seq::empty(),
    }
}

/// A lowest round trip time scheduler set up from a configuration with a
/// smooth transition time: its first step sends on the serving link alone,
/// and when the next step serves another link, the link served before is
/// still used together with the new one.
pub proof fn lemma_lowest_rtt_hands_over_smoothly(
    c: LowestRttSchedulerConfig,
    link_names: Seq<Seq<char>>,
    priorities: Seq<u32>,
    s0: Scheduler,
    links1: Seq<LinkSnapshot>,
    t1: u128,
    s1: Scheduler,
    chosen1: Seq<Seq<char>>,
    links2: Seq<LinkSnapshot>,
    t2: u128,
    s2: Scheduler,
    chosen2: Seq<Seq<char>>,
)
    requires
        built_from(s0, SchedulerConfig::LowestRtt(c), link_names, priorities),
        c.smooth_transition_time matches Some(d) && d > 0,
        schedule_outcome(s0, links1, t1, s1, Some(chosen1)),
        schedule_outcome(s1, links2, t2, s2, Some(chosen2)),
        serving_of(s2) != serving_of(s1),
    ensures
        chosen1.to_set() == set![serving_of(s1)],
        chosen2.to_set() == set![serving_of(s2), serving_of(s1)],
{
    match (s0, s1, s2) {
        (Scheduler::LowestRtt(a0), Scheduler::LowestRtt(a1), Scheduler::LowestRtt(a2)) => {
            let x1 = a1.ttt().serving;
            let x2 = a2.ttt().serving;
            assert(a1.smoothing().last == set![x1]);
            assert(a1.smoothing().current == set![x1]);
            assert(a1.smoothing().handover_duration == c.smooth_transition_time);
            assert(!set![x1].contains(x2));
            assert(set![x2] != set![x1]) by {
                assert(set![x2].contains(x2));
            }
            assert(elapsed(t2, t2) == 0);
            assert(set![x2] + set![x1] =~= set![x2, x1]);
        },
        _ => {},
    }
}

} // verus!
