use vstd::prelude::*;
use vstd::relations::sorted_by;
use vstd::seq_lib::group_to_multiset_ensures;
use vstd::seq_lib::lemma_sorted_unique;

use crate::partial::Partial;
use crate::partial::lemma_partial_le_total_ordering;
use crate::partial::partial_le;

verus! {

/// A sequence of wrapped values in ascending key order.
pub open spec fn sorted(s: Seq<Partial>) -> bool {
    sorted_by(s, partial_le())
}

/// Sort a buffer of wrapped values by key: the result is sorted and holds
/// exactly the same values, with multiplicity.
pub fn sort_partials(v: &Vec<Partial>) -> (r: Vec<Partial>)
    ensures
        r@.to_multiset() == v@.to_multiset(),
        sorted(r@),
        r@.len() == v@.len(),
{
    broadcast use group_to_multiset_ensures;
    broadcast use vstd::multiset::group_multiset_axioms;

    let mut rem: Vec<Partial> = Vec::new();
    let n = v.len();
    let mut i: usize = 0;
    while i < n
        invariant
            i <= n,
            n == v@.len(),
            rem@ == v@.subrange(0, i as int),
        decreases n - i,
    {
        rem.push(v[i]);
        proof {
            assert(v@.subrange(0, i as int).push(v@[i as int]) =~= v@.subrange(0, i + 1));
        }
        i += 1;
    }
    proof {
        assert(v@.subrange(0, n as int) =~= v@);
    }
    let mut out: Vec<Partial> = Vec::new();
    while rem.len() > 0
        invariant
            out@.to_multiset().add(rem@.to_multiset()) == v@.to_multiset(),
            sorted(out@),
            forall|a: int, b: int|
                0 <= a < out@.len() && 0 <= b < rem@.len() ==> out@[a].0 <= rem@[b].0,
            out@.len() + rem@.len() == v@.len(),
        decreases rem.len(),
    {
        let mut m: usize = 0;
        let mut t: usize = 1;
        while t < rem.len()
            invariant
                m < t <= rem@.len(),
                rem@.len() > 0,
                forall|j: int| 0 <= j < t ==> rem@[m as int].0 <= rem@[j].0,
            decreases rem@.len() - t,
        {
            if rem[t].0 < rem[m].0 {
                m = t;
            }
            t += 1;
        }
        let ghost old_out = out@;
        let ghost old_rem = rem@;
        let x = rem.remove(m);
        out.push(x);
        proof {
            old_out.to_multiset_ensures();
            old_rem.to_multiset_ensures();
            assert(old_rem.to_multiset().count(x) >= 1) by {
                assert(old_rem[m as int] == x);
                assert(old_rem.contains(x));
            }
            assert(out@.to_multiset().add(rem@.to_multiset()) =~= v@.to_multiset()) by {
                assert(out@ == old_out.push(x));
                assert(out@.to_multiset() =~= old_out.to_multiset().insert(x));
                assert(rem@ == old_rem.remove(m as int));
                assert(rem@.to_multiset() =~= old_rem.to_multiset().remove(x));
            }
            assert(sorted(out@)) by {
                assert(forall|a: int, b: int|
                    0 <= a <= b < out@.len() ==> partial_le()(out@[a], out@[b]));
            }
            assert forall|a: int, b: int|
                0 <= a < out@.len() && 0 <= b < rem@.len() implies out@[a].0 <= rem@[b].0 by {
                assert(rem@[b] == old_rem.remove(m as int)[b]);
                if b < m {
                    assert(old_rem[b] == rem@[b]);
                } else {
                    assert(old_rem[b + 1] == rem@[b]);
                }
                assert(x.0 <= rem@[b].0);
            }
        }
    }
    proof {
        assert(forall|p: Partial| #[trigger] rem@.to_multiset().count(p) == 0) by {
            assert(forall|p: Partial| !rem@.contains(p));
        }
        assert(out@.to_multiset() =~= v@.to_multiset());
        assert(out@.to_multiset().len() == v@.to_multiset().len());
    }
    out
}

/// A sorted sequence with the same contents as `s`, in the sense of
/// multisets, is the sorted permutation `s.sort_by(partial_le())`.
pub proof fn lemma_sorted_permutation_unique(s: Seq<Partial>, t: Seq<Partial>)
    requires
        sorted(t),
        t.to_multiset() == s.to_multiset(),
    ensures
        t == s.sort_by(partial_le()),
{
    lemma_partial_le_total_ordering();
    s.lemma_sort_by_ensures(partial_le());
    lemma_sorted_unique(t, s.sort_by(partial_le()), partial_le());
}

} // verus!
