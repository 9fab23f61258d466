use vstd::prelude::*;
use crate::link_set::{names, name_set};
use crate::scheduler::{LinkSnapshot, snapshots_cover, usable_by_name, find_snapshot, is_usable};

verus! {

/// Which links the redundant scheduler uses.
#[derive(Debug)]
pub struct RedundantSchedulerConfig {
    pub links: Vec<String>,
}

/// Sends every packet on all of its links that can carry data.
#[derive(Debug)]
pub struct RedundantScheduler {
    _links_to_use: Vec<String>,
    _last_chosen_links: Vec<String>,
}

impl RedundantScheduler {
    /// The links used.
    pub closed spec fn links(&self) -> Seq<Seq<char>> {
        names(self._links_to_use@)
    }

    /// The links chosen last.
    pub closed spec fn last_chosen(&self) -> Set<Seq<char>> {
        name_set(self._last_chosen_links@)
    }

    pub fn new(links_to_use: Vec<String>) -> (s: Self)
        ensures
            s.links() == names(links_to_use@),
            s.last_chosen() == Set::<Seq<char>>::empty(),
    {
        let s = RedundantScheduler { _links_to_use: links_to_use, _last_chosen_links: Vec::new() };
        assert(name_set(s._last_chosen_links@) =~= Set::empty());
        s
    }

    pub fn get_last_chosen_links(&self) -> (r: Vec<String>)
        ensures
            name_set(r@) == self.last_chosen(),
    {
        crate::link_set::copy_names(&self._last_chosen_links)
    }

    /// All links of the scheduler that can carry data, each once.
    pub fn schedule(&mut self, links: &Vec<LinkSnapshot>) -> (r: Vec<String>)
        requires
            snapshots_cover(links@, old(self).links()),
        ensures
            final(self).links() == old(self).links(),
            name_set(r@) == old(self).links().to_set().filter(|l: Seq<char>| usable_by_name(links@, l)),
            names(r@).no_duplicates(),
            final(self).last_chosen() == name_set(r@),
    {
        let mut chosen: Vec<String> = Vec::new();
        let mut i: usize = 0;
        while i < self._links_to_use.len()
            invariant
                i <= self._links_to_use.len(),
                self._links_to_use == old(self)._links_to_use,
                snapshots_cover(links@, names(self._links_to_use@)),
                names(chosen@).no_duplicates(),
                name_set(chosen@) == names(self._links_to_use@).subrange(0, i as int).to_set().filter(
                    |l: Seq<char>| usable_by_name(links@, l),
                ),
            decreases self._links_to_use.len() - i,
        {
            let ghost before = chosen@;
            let ghost lv = names(self._links_to_use@)[i as int];
            assert(self._links_to_use@[i as int]@ == lv);
            let s = find_snapshot(links, &self._links_to_use[i]);
            proof {
                assert(names(self._links_to_use@).subrange(0, i + 1) =~= names(
                    self._links_to_use@,
                ).subrange(0, i as int).push(lv));
                names(self._links_to_use@).subrange(0, i as int).lemma_push_to_set_commute(lv);
            }
            if is_usable(links[s].state, links[s].seq_received) {
                if !crate::link_set::contains_name(&chosen, &self._links_to_use[i]) {
                    chosen.push(self._links_to_use[i].clone());
                    proof {
                        assert(names(chosen@) =~= names(before).push(lv));
                        names(before).lemma_push_to_set_commute(lv);
                    }
                } else {
                    proof {
                        assert(name_set(before).contains(lv));
                    }
                }
            }
            proof {
                assert(name_set(chosen@) =~= names(self._links_to_use@).subrange(0, i + 1).to_set().filter(
                    |l: Seq<char>| usable_by_name(links@, l),
                ));
            }
            i = i + 1;
        }
        proof {
            assert(names(self._links_to_use@).subrange(0, i as int) =~= names(self._links_to_use@));
        }
        self._last_chosen_links = crate::link_set::copy_names(&chosen);
        chosen
    }
}

} // verus!
