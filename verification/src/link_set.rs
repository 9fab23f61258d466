//! Sets of link names, kept as vectors without repeated names.

use vstd::prelude::*;

verus! {

/// The names in a list of strings.
pub open spec fn names(v: Seq<String>) -> Seq<Seq<char>> {
    v.map_values(|s: String| s@)
}

/// The set of names in a list of strings.
pub open spec fn name_set(v: Seq<String>) -> Set<Seq<char>> {
    names(v).to_set()
}

/// Whether `name` occurs in `v`.
pub fn contains_name(v: &Vec<String>, name: &String) -> (r: bool)
    ensures
        r == names(v@).contains(name@),
{
    let mut i: usize = 0;
    while i < v.len()
        invariant
            i <= v.len(),
            forall|j: int| 0 <= j < i ==> v@[j]@ != name@,
        decreases v.len() - i,
    {
        if v[i] == *name {
            assert(names(v@)[i as int] == name@);
            return true;
        }
        i = i + 1;
    }
    proof {
        if names(v@).contains(name@) {
            let j = choose|j: int| 0 <= j < names(v@).len() && names(v@)[j] == name@;
            assert(v@[j]@ == name@);
        }
    }
    false
}

/// A copy of a list of names.
pub fn copy_names(v: &Vec<String>) -> (r: Vec<String>)
    ensures
        names(r@) == names(v@),
{
    let mut out: Vec<String> = Vec::new();
    let mut i: usize = 0;
    while i < v.len()
        invariant
            i <= v.len(),
            out.len() == i,
            forall|k: int| 0 <= k < i ==> #[trigger] out@[k]@ == v@[k]@,
        decreases v.len() - i,
    {
        out.push(v[i].clone());
        i = i + 1;
    }
    assert(names(out@) =~= names(v@));
    out
}

/// `a` with the names of `b` that it lacks appended, in their order.
pub fn union_names(a: &Vec<String>, b: &Vec<String>) -> (r: Vec<String>)
    ensures
        name_set(r@) == name_set(a@) + name_set(b@),
        names(a@).no_duplicates() ==> names(r@).no_duplicates(),
        names(r@).len() >= names(a@).len(),
        forall|k: int| 0 <= k < a.len() ==> #[trigger] names(r@)[k] == names(a@)[k],
{
    let mut out = copy_names(a);
    let mut i: usize = 0;
    while i < b.len()
        invariant
            i <= b.len(),
            names(out@).len() >= names(a@).len(),
            forall|k: int| 0 <= k < a.len() ==> #[trigger] names(out@)[k] == names(a@)[k],
            name_set(out@) == name_set(a@) + names(b@).subrange(0, i as int).to_set(),
            names(a@).no_duplicates() ==> names(out@).no_duplicates(),
        decreases b.len() - i,
    {
        let ghost before = names(out@);
        let ghost bv = b@[i as int]@;
        proof {
            assert(names(b@).subrange(0, i + 1) =~= names(b@).subrange(0, i as int).push(bv));
            names(b@).subrange(0, i as int).lemma_push_to_set_commute(bv);
        }
        if !contains_name(&out, &b[i]) {
            out.push(b[i].clone());
            proof {
                assert(names(out@) =~= before.push(bv));
                before.lemma_push_to_set_commute(bv);
            }
        } else {
            proof {
                assert(before.to_set().contains(bv));
                assert(before.to_set().insert(bv) =~= before.to_set());
            }
        }
        i = i + 1;
    }
    proof {
        assert(names(b@).subrange(0, b.len() as int) =~= names(b@));
        assert(name_set(b@) == names(b@).to_set());
    }
    out
}

/// Whether two lists hold the same names.
pub fn same_names(a: &Vec<String>, b: &Vec<String>) -> (r: bool)
    ensures
        r == (name_set(a@) == name_set(b@)),
{
    let mut i: usize = 0;
    while i < a.len()
        invariant
            i <= a.len(),
            forall|k: int| 0 <= k < i ==> names(b@).contains(#[trigger] names(a@)[k]),
        decreases a.len() - i,
    {
        if !contains_name(b, &a[i]) {
            proof {
                assert(names(a@).to_set().contains(names(a@)[i as int]));
                assert(!name_set(b@).contains(names(a@)[i as int]));
            }
            return false;
        }
        i = i + 1;
    }
    let mut j: usize = 0;
    while j < b.len()
        invariant
            j <= b.len(),
            forall|k: int| 0 <= k < a.len() ==> names(b@).contains(#[trigger] names(a@)[k]),
            forall|k: int| 0 <= k < j ==> names(a@).contains(#[trigger] names(b@)[k]),
        decreases b.len() - j,
    {
        if !contains_name(a, &b[j]) {
            proof {
                assert(names(b@).to_set().contains(names(b@)[j as int]));
                assert(!name_set(a@).contains(names(b@)[j as int]));
            }
            return false;
        }
        j = j + 1;
    }
    proof {
        assert forall|x: Seq<char>| name_set(a@).contains(x) <==> name_set(b@).contains(x) by {
            if name_set(a@).contains(x) {
                let k = choose|k: int| 0 <= k < names(a@).len() && names(a@)[k] == x;
                assert(names(b@).contains(names(a@)[k]));
            }
            if name_set(b@).contains(x) {
                let k = choose|k: int| 0 <= k < names(b@).len() && names(b@)[k] == x;
                assert(names(a@).contains(names(b@)[k]));
            }
        }
        assert(name_set(a@) =~= name_set(b@));
    }
    true
}

} // verus!
