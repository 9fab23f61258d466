use vstd::prelude::*;
use crate::link_set::{names, name_set};
use crate::scheduler::{LinkSnapshot, snapshots_cover, usable_by_name, find_snapshot, is_usable};

verus! {

/// Sends each packet on the next usable link, in turn.
#[derive(Debug)]
pub struct RoundRobinScheduler {
    _link_names: Vec<String>,
    _last_link: usize,
    _last_chosen_links: Vec<String>,
}

/// The state of a round robin scheduler.
pub struct RoundRobinView {
    pub links: Seq<Seq<char>>,
    pub last: int,
    pub last_chosen: Set<Seq<char>>,
}

/// The position `j` steps after `last` among `n` links.
pub open spec fn step_after(last: int, j: int, n: int) -> int {
    (last + j) % n
}

/// The link `j` steps after the last one can carry data.
pub open spec fn usable_after(o: RoundRobinView, s: Seq<LinkSnapshot>, j: int) -> bool {
    usable_by_name(s, o.links[step_after(o.last, j, o.links.len() as int)])
}

proof fn lemma_step_after(last: int, j: int, n: int)
    requires
        0 <= last < n,
        1 <= j <= n,
    ensures
        step_after(last, j, n) == if last + j >= n {
            last + j - n
        } else {
            last + j
        },
{
    if last + j >= n {
        assert((last + j) % n == last + j - n) by (nonlinear_arith)
            requires
                n <= last + j < 2 * n,
        {
            vstd::arithmetic::div_mod::lemma_fundamental_div_mod(last + j, n);
            assert((last + j) / n == 1) by {
                vstd::arithmetic::div_mod::lemma_div_is_ordered(n, last + j, n);
                vstd::arithmetic::div_mod::lemma_div_by_self(n);
            }
        }
    } else {
        vstd::arithmetic::div_mod::lemma_small_mod((last + j) as nat, n as nat);
    }
}

impl RoundRobinScheduler {
    pub closed spec fn view(&self) -> RoundRobinView {
        RoundRobinView {
            links: names(self._link_names@),
            last: self._last_link as int,
            last_chosen: name_set(self._last_chosen_links@),
        }
    }

    pub closed spec fn wf(&self) -> bool {
        self._link_names.len() == 0 || self._last_link < self._link_names.len()
    }

    /// Takes turns among `link_names`, starting after the first.
    pub fn new(link_names: Vec<String>) -> (s: Self)
        ensures
            s.wf(),
            s.view() == (RoundRobinView { links: names(link_names@), last: 0, last_chosen: Set::empty() }),
    {
        let s = RoundRobinScheduler { _link_names: link_names, _last_link: 0, _last_chosen_links: Vec::new() };
        assert(name_set(s._last_chosen_links@) =~= Set::empty());
        s
    }

    /// The links chosen last.
    pub fn get_last_chosen_links(&self) -> (r: Vec<String>)
        ensures
            name_set(r@) == self.view().last_chosen,
    {
        crate::link_set::copy_names(&self._last_chosen_links)
    }

    /// Chooses the first link, going round from the one after the last
    /// chosen, that can carry data. When none can, nothing changes and `None`
    /// comes back: the links are to be looked at again.
    pub fn schedule(&mut self, links: &Vec<LinkSnapshot>) -> (r: Option<Vec<String>>)
        requires
            old(self).wf(),
            old(self).view().links.len() > 0,
            snapshots_cover(links@, old(self).view().links),
        ensures
            final(self).wf(),
            ({
                let o = old(self).view();
                let n = o.links.len() as int;
                match r {
                    Some(chosen) => exists|j: int|
                        #![trigger step_after(o.last, j, n)]
                        1 <= j <= n && usable_after(o, links@, j) && (forall|i: int|
                            1 <= i < j ==> !usable_after(o, links@, i)) && names(chosen@) == seq![
                            o.links[step_after(o.last, j, n)],
                        ] && final(self).view() == RoundRobinView {
                            last: step_after(o.last, j, n),
                            last_chosen: set![o.links[step_after(o.last, j, n)]],
                            ..o
                        },
                    None => (forall|j: int| 1 <= j <= n ==> !usable_after(o, links@, j))
                        && final(self).view() == o,
                }
            }),
    {
        let n = self._link_names.len();
        let last = self._last_link;
        let mut k: usize = 0;
        while k < n
            invariant
                0 <= k <= n,
                n == self._link_names.len(),
                last == self._last_link,
                self == old(self),
                self.wf(),
                n > 0,
                snapshots_cover(links@, self.view().links),
                forall|i: int| 1 <= i < k + 1 ==> !usable_after(self.view(), links@, i),
            decreases n - k,
        {
            let j = k + 1;
            let idx = if j >= n - last {
                j - (n - last)
            } else {
                last + j
            };
            proof {
                lemma_step_after(last as int, j as int, n as int);
            }
            assert(names(self._link_names@)[idx as int] == self._link_names@[idx as int]@);
            let s = find_snapshot(links, &self._link_names[idx]);
            if is_usable(links[s].state, links[s].seq_received) {
                let name = self._link_names[idx].clone();
                let mut chosen: Vec<String> = Vec::new();
                chosen.push(name);
                self._last_link = idx;
                self._last_chosen_links = crate::link_set::copy_names(&chosen);
                proof {
                    assert(names(chosen@) =~= seq![names(old(self)._link_names@)[idx as int]]);
                    assert(name_set(chosen@) =~= set![names(old(self)._link_names@)[idx as int]]) by {
                        assert(names(chosen@)[0] == names(old(self)._link_names@)[idx as int]);
                    }
                    assert(usable_after(old(self).view(), links@, j as int));
                }
                return Some(chosen);
            }
            k = k + 1;
        }
        None
    }
}

} // verus!
