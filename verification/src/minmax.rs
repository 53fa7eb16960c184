use vstd::prelude::*;

use crate::Commute;

verus! {

/// Minimum of two optional values, treating absence as the identity.
pub open spec fn opt_min(a: Option<i64>, b: Option<i64>) -> Option<i64> {
    match (a, b) {
        (Option::None, _) => b,
        (_, Option::None) => a,
        (Option::Some(x), Option::Some(y)) => Option::Some(if x <= y { x } else { y }),
    }
}

/// Maximum of two optional values, treating absence as the identity.
pub open spec fn opt_max(a: Option<i64>, b: Option<i64>) -> Option<i64> {
    match (a, b) {
        (Option::None, _) => b,
        (_, Option::None) => a,
        (Option::Some(x), Option::Some(y)) => Option::Some(if x >= y { x } else { y }),
    }
}

/// The (minimum, maximum) pair of a finite sequence of values; both absent
/// exactly when the sequence is empty.
pub open spec fn mm_of(s: Seq<i64>) -> (Option<i64>, Option<i64>)
    decreases s.len(),
{
    if s.len() == 0 {
        (Option::None, Option::None)
    } else {
        let rest = mm_of(s.drop_last());
        (opt_min(rest.0, Option::Some(s.last())), opt_max(rest.1, Option::Some(s.last())))
    }
}

/// Tracks the minimum and maximum of a stream of values.
///
/// Both are absent until the first value is observed; afterwards the
/// minimum never exceeds the maximum.
pub struct MinMax {
    min: Option<i64>,
    max: Option<i64>,
}

impl View for MinMax {
    type V = (Option<i64>, Option<i64>);

    closed spec fn view(&self) -> (Option<i64>, Option<i64>) {
        (self.min, self.max)
    }
}

/// Well-formedness of a min/max pair: the two sides are absent together,
/// and when present the minimum does not exceed the maximum.
pub open spec fn mm_wf(v: (Option<i64>, Option<i64>)) -> bool {
    &&& v.0 is Some <==> v.1 is Some
    &&& v.0 is Some ==> v.0->0 <= v.1->0
}

impl MinMax {
    /// Create an empty accumulator: no minimum, no maximum.
    pub fn new() -> (r: MinMax)
        ensures
            r@ == (Option::<i64>::None, Option::<i64>::None),
    {
        MinMax { min: Option::None, max: Option::None }
    }

    /// Observe one value, updating the running minimum and maximum.
    pub fn add(&mut self, v: i64)
        ensures
            final(self)@ == (
                opt_min(old(self)@.0, Option::Some(v)),
                opt_max(old(self)@.1, Option::Some(v)),
            ),
    {
        self.min = match self.min {
            Option::None => Option::Some(v),
            Option::Some(m) => Option::Some(if v <= m { v } else { m }),
        };
        self.max = match self.max {
            Option::None => Option::Some(v),
            Option::Some(m) => Option::Some(if v >= m { v } else { m }),
        };
    }

    /// Build an accumulator over a whole sequence of values.
    pub fn from_vec(xs: &Vec<i64>) -> (r: MinMax)
        ensures
            r@ == mm_of(xs@),
    {
        let mut r = MinMax::new();
        let n = xs.len();
        let mut i: usize = 0;
        while i < n
            invariant
                i <= n,
                n == xs@.len(),
                r@ == mm_of(xs@.subrange(0, i as int)),
            decreases n - i,
        {
            proof {
                assert(xs@.subrange(0, i + 1).drop_last() =~= xs@.subrange(0, i as int));
            }
            r.add(xs[i]);
            i += 1;
        }
        proof {
            assert(xs@.subrange(0, n as int) =~= xs@);
        }
        r
    }

    /// The minimum observed so far; absent iff no value was ever observed.
    pub fn min(&self) -> (r: Option<i64>)
        ensures
            r == self@.0,
    {
        self.min
    }

    /// The maximum observed so far; absent iff no value was ever observed.
    pub fn max(&self) -> (r: Option<i64>)
        ensures
            r == self@.1,
    {
        self.max
    }
}

impl Default for MinMax {
    /// An empty accumulator, equal to `MinMax::new()`.
    fn default() -> (r: MinMax)
        ensures
            r@ == (Option::<i64>::None, Option::<i64>::None),
    {
        MinMax::new()
    }
}

impl Commute for MinMax {
    open spec fn vmergeable(a: Self::V, b: Self::V) -> bool {
        true
    }

    open spec fn vmerge(a: Self::V, b: Self::V) -> Self::V {
        (opt_min(a.0, b.0), opt_max(a.1, b.1))
    }

    /// Combine with another accumulator: pairwise minimum of minima and
    /// maximum of maxima, an absent side acting as the identity.
    fn merge(&mut self, other: MinMax) {
        self.min = match (self.min, other.min) {
            (Option::None, b) => b,
            (a, Option::None) => a,
            (Option::Some(x), Option::Some(y)) => Option::Some(if x <= y { x } else { y }),
        };
        self.max = match (self.max, other.max) {
            (Option::None, b) => b,
            (a, Option::None) => a,
            (Option::Some(x), Option::Some(y)) => Option::Some(if x >= y { x } else { y }),
        };
    }
}

/// Every accumulator built from a sequence is well formed, and merging
/// preserves well-formedness.
pub proof fn lemma_mm_of_wf(s: Seq<i64>)
    ensures
        mm_wf(mm_of(s)),
    decreases s.len(),
{
    if s.len() > 0 {
        lemma_mm_of_wf(s.drop_last());
    }
}

/// Merging two well-formed states yields a well-formed state.
pub proof fn lemma_minmax_merge_wf(a: (Option<i64>, Option<i64>), b: (Option<i64>, Option<i64>))
    requires
        mm_wf(a),
        mm_wf(b),
    ensures
        mm_wf(MinMax::vmerge(a, b)),
{
}

/// Merging accumulators built over two sequences gives the accumulator
/// built over their concatenation, in either concatenation order.
pub proof fn lemma_minmax_concat(a: Seq<i64>, b: Seq<i64>)
    ensures
        mm_of(a + b) == MinMax::vmerge(mm_of(a), mm_of(b)),
    decreases b.len(),
{
    if b.len() == 0 {
        assert(a + b =~= a);
    } else {
        lemma_minmax_concat(a, b.drop_last());
        assert((a + b).drop_last() =~= a + b.drop_last());
        assert((a + b).last() == b.last());
    }
}

/// The merge of min/max states is commutative.
pub proof fn lemma_minmax_merge_commutes(a: (Option<i64>, Option<i64>), b: (Option<i64>, Option<i64>))
    ensures
        MinMax::vmerge(a, b) == MinMax::vmerge(b, a),
{
}

/// An empty state is the identity of merge, on either side.
pub proof fn lemma_minmax_merge_empty(a: (Option<i64>, Option<i64>))
    ensures
        MinMax::vmerge(a, (Option::None, Option::None)) == a,
        MinMax::vmerge((Option::None, Option::None), a) == a,
{
}

} // verus!
