use vstd::prelude::*;
use crate::link_set::{names, name_set};
use crate::scheduler::{LinkSnapshot, snapshots_cover, usable_by_name, find_snapshot, is_usable};

verus! {

/// Which link the single link scheduler uses.
#[derive(Debug)]
pub struct SingleLinkSchedulerConfig {
    pub link: String,
}

/// Sends everything on one link, while it can carry data.
#[derive(Debug)]
pub struct SingleLinkScheduler {
    _link: String,
    _last_chosen_links: Vec<String>,
}

impl SingleLinkScheduler {
    /// The link used.
    pub closed spec fn link(&self) -> Seq<char> {
        self._link@
    }

    /// The links chosen last.
    pub closed spec fn last_chosen(&self) -> Set<Seq<char>> {
        name_set(self._last_chosen_links@)
    }

    pub fn new(link: String) -> (s: Self)
        ensures
            s.link() == link@,
            s.last_chosen() == Set::<Seq<char>>::empty(),
    {
        let s = SingleLinkScheduler { _link: link, _last_chosen_links: Vec::new() };
        assert(name_set(s._last_chosen_links@) =~= Set::empty());
        s
    }

    pub fn get_last_chosen_links(&self) -> (r: Vec<String>)
        ensures
            name_set(r@) == self.last_chosen(),
    {
        crate::link_set::copy_names(&self._last_chosen_links)
    }

    /// The link, if it can carry data, else nothing.
    pub fn schedule(&mut self, links: &Vec<LinkSnapshot>) -> (r: Vec<String>)
        requires
            snapshots_cover(links@, seq![old(self).link()]),
        ensures
            final(self).link() == old(self).link(),
            names(r@) == (if usable_by_name(links@, old(self).link()) {
                seq![old(self).link()]
            } else {
                Seq::empty()
            }),
            final(self).last_chosen() == name_set(r@),
    {
        let mut chosen: Vec<String> = Vec::new();
        assert(seq![self._link@][0] == self._link@);
        let s = find_snapshot(links, &self._link);
        if is_usable(links[s].state, links[s].seq_received) {
            chosen.push(self._link.clone());
        }
        self._last_chosen_links = crate::link_set::copy_names(&chosen);
        assert(names(chosen@) =~= (if usable_by_name(links@, old(self).link()) {
            seq![old(self).link()]
        } else {
            Seq::empty()
        }));
        chosen
    }
}

} // verus!
