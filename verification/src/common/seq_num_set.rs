use vstd::prelude::*;
use std::collections::HashSet;
use crate::common::sorted::{sorted_distinct, lemma_push_to_set};
use crate::structure::sequence_number::{SequenceNumber, strictly_ascending};

verus! {

/// The elements of `s` that are at least `bound`.
pub open spec fn at_least(s: Set<SequenceNumber>, bound: SequenceNumber) -> Set<SequenceNumber> {
    s.filter(|x: SequenceNumber| x >= bound)
}

/// The elements of `items` that lie between `first` and `last`, both included.
pub open spec fn within(items: Seq<SequenceNumber>, first: SequenceNumber, last: SequenceNumber) -> Set<
    SequenceNumber,
> {
    Set::new(|x: SequenceNumber| items.contains(x) && first <= x <= last)
}

/// The elements of a set, in no particular order.
pub fn elements(s: &HashSet<SequenceNumber>) -> (r: Vec<SequenceNumber>)
    ensures
        r@.no_duplicates(),
        r@.to_set() == s@,
{
    let mut out: Vec<SequenceNumber> = Vec::new();
    for k in it: s.iter()
        invariant
            it.seq().unref().to_set() == s@,
            it.seq().unref().no_duplicates(),
            out@ == it.seq().unref().subrange(0, it.index() as int),
            it.index() == it.seq().len() ==> out@ == it.seq().unref(),
    {
        assert(it.seq().unref()[it.index() as int] == *k);
        out.push(*k);
        assert(out@ =~= it.seq().unref().subrange(0, it.index() + 1));
        assert(it.index() + 1 == it.seq().len() ==> out@ =~= it.seq().unref());
    }
    out
}

/// The elements of a set in ascending order.
pub fn sorted_elements(s: &HashSet<SequenceNumber>) -> (r: Vec<SequenceNumber>)
    ensures
        strictly_ascending(r@),
        r@.to_set() == s@,
{
    let v = elements(s);
    sorted_distinct(&v)
}

/// The least element of a set.
pub fn least_element(s: &HashSet<SequenceNumber>) -> (r: Option<SequenceNumber>)
    ensures
        r is None <==> s@ =~= Set::<SequenceNumber>::empty(),
        r matches Some(m) ==> s@.contains(m) && forall|x: SequenceNumber|
            s@.contains(x) ==> m <= x,
{
    let v = sorted_elements(s);
    if v.len() == 0 {
        proof {
            assert forall|x: SequenceNumber| !s@.contains(x) by {
                if s@.contains(x) {
                    assert(v@.to_set().contains(x));
                    assert(v@.contains(x));
                }
            }
        }
        None
    } else {
        proof {
            assert(v@.to_set().contains(v@[0]));
            assert forall|x: SequenceNumber| s@.contains(x) implies v@[0] <= x by {
                assert(v@.to_set().contains(x));
                assert(v@.contains(x));
                let j = choose|j: int| 0 <= j < v@.len() && v@[j] == x;
                if j > 0 {
                    assert(v@[0] < v@[j]);
                }
            }
        }
        Some(v[0])
    }
}

/// Removes from `s` every element below `bound`.
pub fn remove_below(s: &mut HashSet<SequenceNumber>, bound: SequenceNumber)
    ensures
        final(s)@ == at_least(old(s)@, bound),
{
    let all = elements(s);
    let mut i: usize = 0;
    while i < all.len()
        invariant
            i <= all.len(),
            all@.to_set() == old(s)@,
            forall|x: SequenceNumber|
                s@.contains(x) <==> (old(s)@.contains(x) && !(all@.subrange(0, i as int).contains(
                    x,
                ) && x < bound)),
        decreases all.len() - i,
    {
        let ghost pre = all@.subrange(0, i as int);
        let ghost cur = all@.subrange(0, i as int + 1);
        let ghost before = s@;
        let k = all[i];
        assert(cur =~= pre.push(k));
        if k < bound {
            s.remove(&k);
        }
        proof {
            lemma_push_to_set(pre, k);
            assert forall|x: SequenceNumber| s@.contains(x) <==> (old(s)@.contains(x) && !(
            cur.contains(x) && x < bound)) by {
                assert(cur.to_set().contains(x) <==> (pre.to_set().contains(x) || x == k));
            }
        }
        i += 1;
    }
    proof {
        assert(all@.subrange(0, all.len() as int) =~= all@);
        assert forall|x: SequenceNumber| s@.contains(x) <==> at_least(old(s)@, bound).contains(
            x,
        ) by {
            assert(all@.to_set().contains(x) <==> old(s)@.contains(x));
        }
        assert(s@ =~= at_least(old(s)@, bound));
    }
}

/// Adds to `s` those of `items` that lie between `first` and `last`.
pub fn insert_within(
    s: &mut HashSet<SequenceNumber>,
    items: &Vec<SequenceNumber>,
    first: SequenceNumber,
    last: SequenceNumber,
)
    ensures
        final(s)@ == old(s)@.union(within(items@, first, last)),
{
    let mut i: usize = 0;
    while i < items.len()
        invariant
            i <= items.len(),
            s@ == old(s)@.union(within(items@.subrange(0, i as int), first, last)),
        decreases items.len() - i,
    {
        let ghost pre = items@.subrange(0, i as int);
        let ghost cur = items@.subrange(0, i as int + 1);
        let k = items[i];
        assert(cur =~= pre.push(k));
        if first <= k && k <= last {
            s.insert(k);
        }
        proof {
            lemma_push_to_set(pre, k);
            assert forall|x: SequenceNumber| s@.contains(x) <==> old(s)@.union(
                within(cur, first, last),
            ).contains(x) by {
                assert(cur.to_set().contains(x) <==> (pre.to_set().contains(x) || x == k));
            }
            assert(s@ =~= old(s)@.union(within(cur, first, last)));
        }
        i += 1;
    }
    proof {
        assert(items@.subrange(0, items.len() as int) =~= items@);
    }
}

} // verus!
