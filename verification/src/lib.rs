//! Streaming-statistics accumulators with a commutative merge.
//!
//! Every accumulator in this crate can be built incrementally from a stream
//! of values and can also be combined with an independently built accumulator
//! of the same kind. The combined state summarizes the union of both inputs,
//! so partial results computed over disjoint shards of a data set can be
//! merged without re-scanning the raw data.

use vstd::prelude::*;

mod frequencies;
mod minmax;
mod online;
mod partial;
mod sorted;
mod unsorted;

pub use partial::Partial;
pub use partial::partial_le;
pub use sorted::sorted;
pub use unsorted::Unsorted;
pub use unsorted::median;
pub use unsorted::mode;
pub use unsorted::median_of;
pub use unsorted::middle_of;
pub use unsorted::is_mode;
pub use unsorted::is_mode_result;
pub use unsorted::occ;
pub use unsorted::fraction_matches;
pub use unsorted::uns_wf;
pub use frequencies::Frequencies;
pub use frequencies::count_in;
pub use frequencies::total_in;
pub use frequencies::freq_wf;
pub use frequencies::freqs_of;
pub use frequencies::rank_le;
pub use frequencies::lemma_freqs_concat;
pub use frequencies::lemma_freq_merge_commutes;
pub use minmax::MinMax;
pub use minmax::opt_max;
pub use minmax::opt_min;
pub use minmax::mm_of;
pub use online::OnlineStats;
pub use online::stats_of;
pub use online::st_step;
pub use online::st_wf;
pub use online::MAX_COUNT;

verus! {

/// An accumulator whose state can be combined with the state of another
/// accumulator of the same kind, as if one accumulator had been built over
/// the union of both inputs.
///
/// `vmergeable` bounds the pair of states so that combining them cannot
/// overflow the machine integers of the representation; `vmerge` is the
/// combined state at the level of abstract views.
pub trait Commute: View + Sized {
    /// Whether the two states are small enough to combine.
    spec fn vmergeable(a: Self::V, b: Self::V) -> bool;

    /// The combined state.
    spec fn vmerge(a: Self::V, b: Self::V) -> Self::V;

    /// Fold the other accumulator's state into this one.
    fn merge(&mut self, other: Self)
        requires
            Self::vmergeable(old(self)@, other@),
        ensures
            final(self)@ == Self::vmerge(old(self)@, other@),
    ;
}

/// The left fold of `vmerge` over a sequence of accumulator states;
/// meaningful for a non-empty sequence.
pub open spec fn fold_vmerge<T: Commute>(vs: Seq<T::V>) -> T::V
    recommends
        vs.len() >= 1,
    decreases vs.len(),
{
    if vs.len() <= 1 {
        vs[0]
    } else {
        T::vmerge(fold_vmerge::<T>(vs.drop_last()), vs.last())
    }
}

/// Every step of the left fold of `vmerge` over the sequence satisfies
/// `vmergeable`, so the whole fold is free of overflow.
pub open spec fn fold_vmergeable<T: Commute>(vs: Seq<T::V>) -> bool
    decreases vs.len(),
{
    vs.len() <= 1 || (fold_vmergeable::<T>(vs.drop_last()) && T::vmergeable(
        fold_vmerge::<T>(vs.drop_last()),
        vs.last(),
    ))
}

/// A foldable sequence of states stays foldable when cut to a prefix.
pub proof fn lemma_fold_vmergeable_prefix<T: Commute>(vs: Seq<T::V>, n: int)
    requires
        fold_vmergeable::<T>(vs),
        0 <= n <= vs.len(),
    ensures
        fold_vmergeable::<T>(vs.subrange(0, n)),
    decreases vs.len(),
{
    if n == vs.len() {
        assert(vs.subrange(0, n) =~= vs);
    } else if vs.len() > 1 {
        assert(vs.drop_last() =~= vs.subrange(0, vs.len() - 1));
        lemma_fold_vmergeable_prefix::<T>(vs.drop_last(), n);
        assert(vs.drop_last().subrange(0, n) =~= vs.subrange(0, n));
    } else {
        assert(vs.subrange(0, n).len() <= 1);
    }
}

/// Fold an entire sequence of accumulators into one by pairwise merging.
///
/// On an empty sequence the result is absent: supplying no accumulators is
/// distinct from supplying one empty accumulator. On a sequence of one
/// element the result is exactly that element's state; otherwise it is the
/// left fold of `vmerge` over all the states.
pub fn merge_all<T: Commute>(xs: Vec<T>) -> (r: Option<T>)
    requires
        fold_vmergeable::<T>(xs@.map_values(|x: T| x@)),
    ensures
        xs@.len() == 0 <==> r is None,
        xs@.len() > 0 ==> (r matches Some(a) && a@ == fold_vmerge::<T>(
            xs@.map_values(|x: T| x@),
        )),
{
    let ghost vs = xs@.map_values(|x: T| x@);
    let ghost n = vs.len();
    let mut rest = xs;
    if rest.len() == 0 {
        return None;
    }
    let mut acc = rest.remove(0);
    proof {
        assert(vs.subrange(0, 1).len() == 1);
        assert(vs.subrange(0, 1)[0] == acc@);
    }
    let ghost mut i: int = 1;
    while rest.len() > 0
        invariant
            1 <= i <= n,
            n == vs.len(),
            rest@.len() == n - i,
            forall|j: int| 0 <= j < rest@.len() ==> #[trigger] rest@[j]@ == vs[i + j],
            acc@ == fold_vmerge::<T>(vs.subrange(0, i)),
            fold_vmergeable::<T>(vs),
        decreases rest@.len(),
    {
        let x = rest.remove(0);
        proof {
            assert(x@ == vs[i]);
            lemma_fold_vmergeable_prefix::<T>(vs, i + 1);
            assert(vs.subrange(0, i + 1).drop_last() =~= vs.subrange(0, i));
            assert(vs.subrange(0, i + 1).last() == vs[i]);
            assert(vs.subrange(0, i + 1).len() == i + 1);
        }
        acc.merge(x);
        proof {
            i = i + 1;
        }
    }
    proof {
        assert(vs.subrange(0, n as int) =~= vs);
    }
    Some(acc)
}

/// Folding a single accumulator is the identity: merge-all over one state
/// yields exactly that state.
pub proof fn lemma_merge_all_singleton<T: Commute>(v: T::V)
    ensures
        fold_vmergeable::<T>(seq![v]),
        fold_vmerge::<T>(seq![v]) == v,
{
}

} // verus!
