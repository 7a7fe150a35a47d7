use vstd::prelude::*;
use crate::structure::sequence_number::{SequenceNumber, strictly_ascending};

verus! {

/// `s` holds its elements in ascending order; equal neighbours are allowed.
pub open spec fn ascending(s: Seq<SequenceNumber>) -> bool {
    forall|i: int, j: int| 0 <= i <= j < s.len() ==> s[i] <= s[j]
}

/// Trusted: `itertools::sorted`. It collects the items, sorts them with the
/// standard library's stable sort and hands them back. Assumed here: the
/// result holds exactly the items of `v`, each as often as `v` does, in
/// ascending order.
#[verifier::external_body]
pub(crate) fn sorted(v: &Vec<SequenceNumber>) -> (r: Vec<SequenceNumber>)
    ensures
        r@.to_multiset() == v@.to_multiset(),
        ascending(r@),
{
    itertools::sorted(v.iter().copied()).collect()
}

/// Sorts sequence numbers that are pairwise different.
pub fn sorted_distinct(v: &Vec<SequenceNumber>) -> (r: Vec<SequenceNumber>)
    requires
        v@.no_duplicates(),
    ensures
        strictly_ascending(r@),
        r@.to_set() == v@.to_set(),
        r@.len() == v@.len(),
        r@.no_duplicates(),
{
    let r = sorted(v);
    proof {
        broadcast use vstd::seq_lib::group_to_multiset_ensures;

        vstd::seq_lib::to_multiset_len(r@);
        vstd::seq_lib::to_multiset_len(v@);
        v@.lemma_multiset_has_no_duplicates();
        r@.lemma_multiset_has_no_duplicates_conv();
        assert forall|i: int, j: int| 0 <= i < j < r@.len() implies r@[i] < r@[j] by {
            assert(r@[i] <= r@[j]);
            assert(r@[i] != r@[j]);
        }
        assert forall|x: SequenceNumber| r@.to_set().contains(x) <==> v@.to_set().contains(
            x,
        ) by {
            assert(r@.contains(x) <==> r@.to_multiset().count(x) > 0);
            assert(v@.contains(x) <==> v@.to_multiset().count(x) > 0);
        }
        assert(r@.to_set() =~= v@.to_set());
    }
    r
}

/// The elements of a sequence with one more item pushed are those of the
/// sequence and the item.
pub proof fn lemma_push_to_set(s: Seq<SequenceNumber>, x: SequenceNumber)
    ensures
        s.push(x).to_set() == s.to_set().insert(x),
{
    let t = s.push(x);
    assert forall|y: SequenceNumber| t.to_set().contains(y) <==> s.to_set().insert(x).contains(
        y,
    ) by {
        if t.contains(y) {
            let q = choose|q: int| 0 <= q < t.len() && t[q] == y;
            if q < s.len() {
                assert(s[q] == y);
            }
        }
        if s.contains(y) {
            let q = choose|q: int| 0 <= q < s.len() && s[q] == y;
            assert(t[q] == y);
        }
        if y == x {
            assert(t[s.len() as int] == y);
        }
    }
    assert(t.to_set() =~= s.to_set().insert(x));
}

/// A strictly ascending sequence is fixed by the set of its elements.
pub proof fn lemma_strictly_ascending_unique(a: Seq<SequenceNumber>, b: Seq<SequenceNumber>)
    requires
        strictly_ascending(a),
        strictly_ascending(b),
        a.to_set() == b.to_set(),
    ensures
        a == b,
    decreases a.len(),
{
    if a.len() == 0 {
        if b.len() > 0 {
            assert(b.to_set().contains(b[0]));
            assert(a.contains(b[0]));
        }
        assert(a =~= b);
    } else {
        assert(a.to_set().contains(a[0]));
        assert(b.contains(a[0]));
        assert(b.len() > 0);
        assert(b.to_set().contains(b[0]));
        assert(a.contains(b[0]));
        let ia = choose|i: int| 0 <= i < a.len() && a[i] == b[0];
        let ib = choose|i: int| 0 <= i < b.len() && b[i] == a[0];
        assert(a[0] == b[0]) by {
            if ia > 0 {
                assert(a[0] < a[ia]);
            }
            if ib > 0 {
                assert(b[0] < b[ib]);
            }
        }
        let a1 = a.subrange(1, a.len() as int);
        let b1 = b.subrange(1, b.len() as int);
        assert forall|x: SequenceNumber| a1.to_set().contains(x) <==> b1.to_set().contains(
            x,
        ) by {
            if a1.contains(x) {
                let i = choose|i: int| 0 <= i < a1.len() && a1[i] == x;
                assert(a[i + 1] == x);
                assert(a[0] < a[i + 1]);
                assert(a.to_set().contains(x));
                assert(b.contains(x));
                let j = choose|j: int| 0 <= j < b.len() && b[j] == x;
                assert(j > 0);
                assert(b1[j - 1] == x);
            }
            if b1.contains(x) {
                let i = choose|i: int| 0 <= i < b1.len() && b1[i] == x;
                assert(b[i + 1] == x);
                assert(b[0] < b[i + 1]);
                assert(b.to_set().contains(x));
                assert(a.contains(x));
                let j = choose|j: int| 0 <= j < a.len() && a[j] == x;
                assert(j > 0);
                assert(a1[j - 1] == x);
            }
        }
        assert(a1.to_set() =~= b1.to_set());
        lemma_strictly_ascending_unique(a1, b1);
        assert(a =~= seq![a[0]] + a1);
        assert(b =~= seq![b[0]] + b1);
    }
}

} // verus!
