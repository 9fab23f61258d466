use vstd::prelude::*;
use crate::link_set::{copy_names, name_set, names, same_names, union_names};
use crate::scheduler::time_to_trigger::elapsed;

verus! {

/// After the chosen links change, keeps using the previously chosen links
/// too for a handover duration.
#[derive(Debug)]
pub struct SmoothTransition {
    _handover_duration: Option<u128>,
    _handover_instant: Option<u128>,
    _last_links: Vec<String>,
    _current_links: Vec<String>,
}

/// The state of a smooth transition: the handover duration (nanoseconds),
/// the time the current handover started, the links chosen before it and
/// the links it hands over to.
pub struct SmoothView {
    pub handover_duration: Option<u128>,
    pub handover_instant: Option<u128>,
    pub last: Set<Seq<char>>,
    pub current: Set<Seq<char>>,
}

/// The links to use when the scheduler chose `chosen` at time `now`, and
/// the state afterwards.
pub open spec fn smoothed(o: SmoothView, chosen: Set<Seq<char>>, now: u128) -> (Set<Seq<char>>, SmoothView) {
    match o.handover_duration {
        None => (chosen, o),
        Some(duration) => {
            if o.last.is_empty() && o.current.is_empty() {
                (chosen, SmoothView { last: chosen, current: chosen, ..o })
            } else if chosen == o.last {
                (chosen, o)
            } else {
                let (current, instant) = if chosen != o.current {
                    (chosen, Some(now))
                } else {
                    (o.current, o.handover_instant)
                };
                match instant {
                    Some(since) => if elapsed(since, now) < duration {
                        (chosen + o.last, SmoothView { current, handover_instant: instant, ..o })
                    } else {
                        (
                            chosen,
                            SmoothView {
                                last: current,
                                current: Set::empty(),
                                handover_instant: None,
                                ..o
                            },
                        )
                    },
                    None => (chosen, SmoothView { current, handover_instant: instant, ..o }),
                }
            }
        },
    }
}

impl SmoothTransition {
    pub closed spec fn view(&self) -> SmoothView {
        SmoothView {
            handover_duration: self._handover_duration,
            handover_instant: self._handover_instant,
            last: name_set(self._last_links@),
            current: name_set(self._current_links@),
        }
    }

    /// No handover in progress; `handover_duration` in nanoseconds, `None`
    /// for no smoothing at all.
    pub fn new(handover_duration: Option<u128>) -> (s: Self)
        ensures
            s.view() == (SmoothView {
                handover_duration,
                handover_instant: None,
                last: Set::empty(),
                current: Set::empty(),
            }),
    {
        let s = SmoothTransition {
            _handover_duration: handover_duration,
            _handover_instant: None,
            _last_links: Vec::new(),
            _current_links: Vec::new(),
        };
        assert(name_set(s._last_links@) =~= Set::empty());
        s
    }

    /// The links to use at time `now` (nanoseconds) when the scheduler chose
    /// `links`: during a handover also the links chosen before.
    pub fn smooth_out(&mut self, links: Vec<String>, now: u128) -> (r: Vec<String>)
        ensures
            (name_set(r@), final(self).view()) == smoothed(old(self).view(), name_set(links@), now),
            names(links@).no_duplicates() ==> names(r@).no_duplicates(),
    {
        proof {
            lemma_empty_names(self._last_links@);
            lemma_empty_names(self._current_links@);
        }
        match self._handover_duration {
            Some(handover_duration) => {
                let smoothed_links = copy_names(&links);
                if self._last_links.len() == 0 && self._current_links.len() == 0 {
                    self._last_links = copy_names(&links);
                    self._current_links = copy_names(&links);
                    return smoothed_links;
                }
                if !same_names(&links, &self._last_links) {
                    if !same_names(&links, &self._current_links) {
                        self._current_links = copy_names(&links);
                        self._handover_instant = Some(now);
                    }
                    match self._handover_instant {
                        Some(since) => {
                            let passed: u128 = if now >= since {
                                now - since
                            } else {
                                0
                            };
                            if passed < handover_duration {
                                return union_names(&smoothed_links, &self._last_links);
                            } else {
                                self._last_links = copy_names(&self._current_links);
                                self._current_links = Vec::new();
                                self._handover_instant = None;
                                proof {
                                    assert(name_set(self._current_links@) =~= Set::empty());
                                }
                            }
                        },
                        None => {},
                    }
                }
                smoothed_links
            },
            None => links,
        }
    }
}

proof fn lemma_empty_names(v: Seq<String>)
    ensures
        name_set(v).is_empty() <==> v.len() == 0,
{
    if v.len() > 0 {
        assert(name_set(v).contains(v[0]@)) by {
            assert(names(v)[0] == v[0]@);
        }
    } else {
        assert(name_set(v) =~= Set::empty());
    }
}

/// Smoothing only ever uses links that were chosen: when the chosen links
/// and those remembered lie in `allowed`, so do the links used and those
/// remembered afterwards.
pub proof fn lemma_smoothed_within(o: SmoothView, chosen: Set<Seq<char>>, now: u128, allowed: Set<Seq<char>>)
    requires
        o.last.subset_of(allowed),
        o.current.subset_of(allowed),
        chosen.subset_of(allowed),
    ensures
        smoothed(o, chosen, now).0.subset_of(allowed),
        smoothed(o, chosen, now).1.last.subset_of(allowed),
        smoothed(o, chosen, now).1.current.subset_of(allowed),
{
    assert(Set::<Seq<char>>::empty().subset_of(allowed));
    assert((chosen + o.last).subset_of(allowed));
}

} // verus!
