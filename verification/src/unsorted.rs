use vstd::prelude::*;
use vstd::seq_lib::group_to_multiset_ensures;
use vstd::seq_lib::seq_to_set_is_finite;
use vstd::set::group_set_axioms;

use crate::Commute;
use crate::partial::Partial;
use crate::partial::partial_le;
use crate::sorted::lemma_sorted_permutation_unique;
use crate::sorted::sort_partials;
use crate::sorted::sorted;

verus! {

/// How many times the key `x` occurs in a buffer, irrespective of order.
pub open spec fn occ(s: Seq<Partial>, x: i64) -> nat {
    s.to_multiset().count(Partial(x))
}

/// The key `x` is the mode of the buffer: it occurs, and strictly more
/// often than every other key.
pub open spec fn is_mode(s: Seq<Partial>, x: i64) -> bool {
    &&& occ(s, x) >= 1
    &&& forall|y: i64| y != x ==> occ(s, y) < occ(s, x)
}

/// Whether an optional key is the correct mode answer for a buffer: the
/// unique most frequent key when one exists, absent when the buffer is
/// empty or the greatest occurrence count is shared by distinct keys.
pub open spec fn is_mode_result(s: Seq<Partial>, r: Option<i64>) -> bool {
    match r {
        Option::Some(m) => is_mode(s, m),
        Option::None => forall|y: i64| !is_mode(s, y),
    }
}

/// The exact median of a buffer as a fraction with denominator 2, taken
/// over the sorted permutation of the buffer: twice the middle key for an
/// odd length, the sum of the two middle keys for an even length, absent
/// for an empty buffer.
pub open spec fn median_of(s: Seq<Partial>) -> Option<(int, int)> {
    if s.len() == 0 {
        Option::None
    } else {
        let t = s.sort_by(partial_le());
        let n = s.len() as int;
        if n % 2 == 1 {
            Option::Some((2 * t[n / 2].0, 2))
        } else {
            Option::Some((t[n / 2 - 1].0 + t[n / 2].0, 2))
        }
    }
}

/// The middle keys of the sorted arrangement of a buffer: the pair of the
/// lower and upper middle, equal for an odd length, absent for an empty
/// buffer. The median is the mean of the two.
pub open spec fn middle_of(s: Seq<Partial>) -> Option<(i64, i64)> {
    if s.len() == 0 {
        Option::None
    } else {
        let t = s.sort_by(partial_le());
        let n = s.len() as int;
        Option::Some((t[(n - 1) / 2].0, t[n / 2].0))
    }
}

/// Whether an executable fraction agrees with a fraction of the
/// specification, component by component.
pub open spec fn fraction_matches(r: Option<(i128, i128)>, m: Option<(int, int)>) -> bool {
    match (r, m) {
        (Option::None, Option::None) => true,
        (Option::Some(p), Option::Some(q)) => p.0 == q.0 && p.1 == q.1,
        _ => false,
    }
}

/// A buffer of values under the total-order wrapper, sorted lazily: adding
/// and merging only append and mark the buffer dirty, and the sort runs at
/// most once per burst of queries, when `median` or `mode` needs it.
///
/// The view is the pair (buffer contents, clean flag); the flag is true
/// only when the buffer is sorted.
pub struct Unsorted {
    data: Vec<Partial>,
    sorted: bool,
}

impl View for Unsorted {
    type V = (Seq<Partial>, bool);

    closed spec fn view(&self) -> (Seq<Partial>, bool) {
        (self.data@, self.sorted)
    }
}

/// Well-formedness of an `Unsorted` view: a buffer marked clean is sorted.
pub open spec fn uns_wf(v: (Seq<Partial>, bool)) -> bool {
    v.1 ==> sorted(v.0)
}

impl Unsorted {
    /// Create an empty buffer, trivially sorted.
    pub fn new() -> (r: Unsorted)
        ensures
            r@ == (Seq::<Partial>::empty(), true),
            uns_wf(r@),
    {
        let r = Unsorted { data: Vec::new(), sorted: true };
        proof {
            assert(sorted(r.data@));
        }
        r
    }

    /// Append one value to the buffer and mark it dirty.
    pub fn add(&mut self, v: i64)
        ensures
            final(self)@ == (old(self)@.0.push(Partial(v)), false),
    {
        self.sorted = false;
        self.data.push(Partial(v));
    }

    /// Append every value of a sequence to the buffer and mark it dirty.
    pub fn extend(&mut self, xs: &Vec<i64>)
        ensures
            final(self)@ == (old(self)@.0 + xs@.map_values(|x: i64| Partial(x)), false),
    {
        self.sorted = false;
        let n = xs.len();
        let mut i: usize = 0;
        while i < n
            invariant
                i <= n,
                n == xs@.len(),
                self@.0 == old(self)@.0 + xs@.subrange(0, i as int).map_values(
                    |x: i64| Partial(x),
                ),
                self@.1 == false,
            decreases n - i,
        {
            self.data.push(Partial(xs[i]));
            proof {
                assert(self@.0 =~= old(self)@.0 + xs@.subrange(0, i + 1).map_values(
                    |x: i64| Partial(x),
                ));
            }
            i += 1;
        }
        proof {
            assert(xs@.subrange(0, n as int) =~= xs@);
            assert(self@.0 =~= old(self)@.0 + xs@.map_values(|x: i64| Partial(x)));
        }
    }

    /// Build a buffer over a whole sequence of values.
    pub fn from_vec(xs: &Vec<i64>) -> (r: Unsorted)
        ensures
            r@ == (xs@.map_values(|x: i64| Partial(x)), false),
    {
        let mut r = Unsorted::new();
        r.extend(xs);
        proof {
            assert(Seq::<Partial>::empty() + xs@.map_values(|x: i64| Partial(x)) =~= xs@.map_values(
                |x: i64| Partial(x),
            ));
        }
        r
    }

    /// How many values the buffer holds.
    pub fn len(&self) -> (r: usize)
        ensures
            r == self@.0.len(),
    {
        self.data.len()
    }

    /// Empty the buffer; an empty buffer is sorted.
    pub fn clear(&mut self)
        ensures
            final(self)@ == (Seq::<Partial>::empty(), true),
            uns_wf(final(self)@),
    {
        self.data.clear();
        self.sorted = true;
        proof {
            assert(sorted(self.data@));
        }
    }

    /// Sort the buffer unless it is already clean. A clean buffer is left
    /// untouched, so a second query after a sort changes nothing.
    fn sort(&mut self)
        requires
            uns_wf(old(self)@),
        ensures
            final(self)@.0.to_multiset() == old(self)@.0.to_multiset(),
            sorted(final(self)@.0),
            final(self)@.1 == true,
            uns_wf(final(self)@),
            old(self)@.1 ==> final(self)@ == old(self)@,
    {
        if !self.sorted {
            self.data = sort_partials(&self.data);
            self.sorted = true;
        } else {
            proof {
                assert(self@.0.to_multiset() =~= old(self)@.0.to_multiset());
            }
        }
    }

    /// How many distinct keys the buffer holds.
    pub fn cardinality(&self) -> (r: usize)
        ensures
            r == self@.0.to_set().len(),
    {
        broadcast use group_set_axioms;
        broadcast use seq_to_set_is_finite;

        let n = self.data.len();
        let mut r: usize = 0;
        let mut i: usize = 0;
        proof {
            assert(self@.0.subrange(0, 0).to_set() =~= Set::<Partial>::empty());
        }
        while i < n
            invariant
                i <= n,
                n == self@.0.len(),
                r == self@.0.subrange(0, i as int).to_set().len(),
                r <= i,
            decreases n - i,
        {
            let mut seen = false;
            let mut j: usize = 0;
            while j < i
                invariant
                    j <= i < n,
                    n == self@.0.len(),
                    seen <==> self@.0.subrange(0, j as int).contains(self@.0[i as int]),
                decreases i - j,
            {
                if self.data[j].0 == self.data[i].0 {
                    proof {
                        assert(self@.0[j as int] == self@.0[i as int]);
                        assert(self@.0.subrange(0, j + 1)[j as int] == self@.0[i as int]);
                    }
                    seen = true;
                } else {
                    proof {
                        assert(self@.0[j as int] != self@.0[i as int]);
                        let s = self@.0;
                        let e = s[i as int];
                        assert forall|t: int|
                            0 <= t < j + 1 && #[trigger] s.subrange(0, j + 1)[t] == e implies s
                            .subrange(0, j as int).contains(e) by {
                            assert(t < j);
                            assert(s.subrange(0, j as int)[t] == s[i as int]);
                        }
                    }
                }
                proof {
                    if self@.0.subrange(0, j as int).contains(self@.0[i as int]) {
                        let t = choose|t: int|
                            0 <= t < j && self@.0.subrange(0, j as int)[t] == self@.0[i as int];
                        assert(self@.0.subrange(0, j + 1)[t] == self@.0[i as int]);
                    }
                }
                j += 1;
            }
            let ghost prefix = self@.0.subrange(0, i as int);
            proof {
                assert(prefix =~= self@.0.subrange(0, i as int));
                assert(self@.0.subrange(0, i + 1) =~= prefix + seq![self@.0[i as int]]);
                Seq::<Partial>::lemma_to_set_insert_commutes(prefix, self@.0[i as int]);
                assert(prefix.to_set().contains(self@.0[i as int]) <==> prefix.contains(
                    self@.0[i as int],
                ));
            }
            if !seen {
                r += 1;
            }
            i += 1;
        }
        proof {
            assert(self@.0.subrange(0, n as int) =~= self@.0);
        }
        r
    }

    /// The exact median of the buffer, as a fraction with denominator 2;
    /// absent on an empty buffer. Sorts the buffer if it is dirty; a clean
    /// buffer is left exactly as it was.
    pub fn median(&mut self) -> (r: Option<(i128, i128)>)
        requires
            uns_wf(old(self)@),
        ensures
            fraction_matches(r, median_of(old(self)@.0)),
            final(self)@.0.to_multiset() == old(self)@.0.to_multiset(),
            final(self)@.1 == true,
            uns_wf(final(self)@),
            old(self)@.1 ==> final(self)@ == old(self)@,
    {
        self.sort();
        proof {
            old(self)@.0.to_multiset_ensures();
            self@.0.to_multiset_ensures();
            assert(self@.0.len() == old(self)@.0.len());
            lemma_sorted_permutation_unique(old(self)@.0, self@.0);
        }
        let n = self.data.len();
        if n == 0 {
            Option::None
        } else if n % 2 == 1 {
            Option::Some((2 * (self.data[n / 2].0 as i128), 2))
        } else {
            Option::Some(((self.data[n / 2 - 1].0 as i128) + (self.data[n / 2].0 as i128), 2))
        }
    }

    /// The two middle keys of the sorted buffer, as `middle_of` describes:
    /// the median is their mean. Sorts the buffer if it is dirty; a clean
    /// buffer is left exactly as it was.
    pub fn middle(&mut self) -> (r: Option<(i64, i64)>)
        requires
            uns_wf(old(self)@),
        ensures
            r == middle_of(old(self)@.0),
            final(self)@.0.to_multiset() == old(self)@.0.to_multiset(),
            final(self)@.1 == true,
            uns_wf(final(self)@),
            old(self)@.1 ==> final(self)@ == old(self)@,
    {
        self.sort();
        proof {
            old(self)@.0.to_multiset_ensures();
            self@.0.to_multiset_ensures();
            assert(self@.0.len() == old(self)@.0.len());
            lemma_sorted_permutation_unique(old(self)@.0, self@.0);
        }
        let n = self.data.len();
        if n == 0 {
            Option::None
        } else {
            Option::Some((self.data[(n - 1) / 2].0, self.data[n / 2].0))
        }
    }

    /// The mode of the buffer: the unique most frequent key, absent when
    /// the buffer is empty or the greatest occurrence count is shared by
    /// two or more distinct keys. Sorts the buffer if it is dirty; a clean
    /// buffer is left exactly as it was.
    pub fn mode(&mut self) -> (r: Option<i64>)
        requires
            uns_wf(old(self)@),
        ensures
            is_mode_result(old(self)@.0, r),
            final(self)@.0.to_multiset() == old(self)@.0.to_multiset(),
            final(self)@.1 == true,
            uns_wf(final(self)@),
            old(self)@.1 ==> final(self)@ == old(self)@,
    {
        self.sort();
        let r = mode_of_vec(&self.data);
        proof {
            lemma_mode_result_multiset(self@.0, old(self)@.0, r);
        }
        r
    }
}

impl Default for Unsorted {
    /// An empty buffer, equal to `Unsorted::new()`.
    fn default() -> (r: Unsorted)
        ensures
            r@ == (Seq::<Partial>::empty(), true),
            uns_wf(r@),
    {
        Unsorted::new()
    }
}

impl Commute for Unsorted {
    open spec fn vmergeable(a: Self::V, b: Self::V) -> bool {
        true
    }

    open spec fn vmerge(a: Self::V, b: Self::V) -> Self::V {
        (a.0 + b.0, false)
    }

    /// Combine with another buffer by appending its values; the result is
    /// marked dirty, deferring the sort to the next query.
    fn merge(&mut self, other: Unsorted) {
        self.sorted = false;
        let mut o = other;
        self.data.append(&mut o.data);
    }
}

/// How often one key occurs in a buffer, by a linear scan.
fn count_key(v: &Vec<Partial>, x: i64) -> (r: usize)
    ensures
        r == occ(v@, x),
{
    broadcast use group_to_multiset_ensures;
    broadcast use vstd::multiset::group_multiset_axioms;

    let n = v.len();
    let mut r: usize = 0;
    let mut i: usize = 0;
    proof {
        assert(v@.subrange(0, 0) =~= Seq::<Partial>::empty());
        assert(forall|p: Partial| !v@.subrange(0, 0).contains(p));
        assert(occ(v@.subrange(0, 0), x) == 0) by {
            if occ(v@.subrange(0, 0), x) > 0 {
                assert(v@.subrange(0, 0).contains(Partial(x)));
            }
        }
    }
    while i < n
        invariant
            i <= n,
            n == v@.len(),
            r == occ(v@.subrange(0, i as int), x),
            r <= i,
        decreases n - i,
    {
        let ghost pre = v@.subrange(0, i as int);
        proof {
            pre.to_multiset_ensures();
            assert(v@.subrange(0, i + 1) =~= pre.push(v@[i as int]));
            assert(pre.push(v@[i as int]).to_multiset() =~= pre.to_multiset().insert(
                v@[i as int],
            ));
        }
        if v[i].0 == x {
            proof {
                assert(v@[i as int] == Partial(x));
                assert(occ(v@.subrange(0, i + 1), x) == occ(pre, x) + 1);
            }
            r += 1;
        } else {
            proof {
                assert(v@[i as int] != Partial(x));
                assert(occ(v@.subrange(0, i + 1), x) == occ(pre, x));
            }
        }
        i += 1;
    }
    proof {
        assert(v@.subrange(0, n as int) =~= v@);
    }
    r
}

/// The mode of a buffer, computed by counting each key's occurrences.
fn mode_of_vec(v: &Vec<Partial>) -> (r: Option<i64>)
    ensures
        is_mode_result(v@, r),
{
    broadcast use group_to_multiset_ensures;
    broadcast use vstd::multiset::group_multiset_axioms;

    let n = v.len();
    if n == 0 {
        proof {
            assert(forall|y: i64| occ(v@, y) == 0) by {
                assert(forall|p: Partial| !v@.contains(p));
            }
        }
        return Option::None;
    }
    let mut best: i64 = v[0].0;
    proof {
        assert(v@[0] == Partial(best));
        assert(v@.contains(Partial(best)));
    }
    let mut bestc: usize = count_key(v, best);
    let mut tie: bool = false;
    let mut i: usize = 1;
    while i < n
        invariant
            1 <= i <= n,
            n == v@.len(),
            bestc == occ(v@, best),
            bestc >= 1,
            exists|j: int| 0 <= j < i && v@[j].0 == best,
            forall|j: int| 0 <= j < i ==> occ(v@, #[trigger] v@[j].0) <= bestc,
            tie <==> exists|j: int|
                0 <= j < i && v@[j].0 != best && occ(v@, #[trigger] v@[j].0) == bestc,
        decreases n - i,
    {
        let k = v[i].0;
        proof {
            assert(v@[i as int] == Partial(k));
        }
        let c = count_key(v, k);
        if c > bestc {
            best = k;
            bestc = c;
            tie = false;
        } else if c == bestc && k != best {
            tie = true;
        }
        i += 1;
    }
    if tie {
        proof {
            let j0 = choose|j: int|
                0 <= j < n && v@[j].0 != best && occ(v@, #[trigger] v@[j].0) == bestc;
            assert forall|y: i64| !is_mode(v@, y) by {
                if occ(v@, y) >= 1 {
                    assert(v@.contains(Partial(y)));
                    let jy = choose|j: int| 0 <= j < v@.len() && v@[j] == Partial(y);
                    assert(v@[jy].0 == y);
                    assert(occ(v@, y) <= bestc);
                    if y == best {
                        assert(v@[j0].0 != y && !(occ(v@, v@[j0].0) < occ(v@, y)));
                    } else {
                        assert(best != y && !(occ(v@, best) < occ(v@, y)));
                    }
                }
            }
        }
        Option::None
    } else {
        proof {
            assert forall|y: i64| y != best implies occ(v@, y) < occ(v@, best) by {
                if occ(v@, y) >= 1 {
                    assert(v@.contains(Partial(y)));
                    let jy = choose|j: int| 0 <= j < v@.len() && v@[j] == Partial(y);
                    assert(v@[jy].0 == y);
                    assert(occ(v@, y) <= bestc);
                    assert(occ(v@, y) != bestc);
                }
            }
        }
        Option::Some(best)
    }
}

/// Compute the exact median of a sequence of values: the middle of the
/// sorted arrangement, as a fraction with denominator 2.
pub fn median(v: &Vec<i64>) -> (r: Option<(i128, i128)>)
    ensures
        fraction_matches(r, median_of(v@.map_values(|x: i64| Partial(x)))),
{
    let mut u = Unsorted::from_vec(v);
    u.median()
}

/// Compute the mode of a sequence of values: the unique most frequent one,
/// absent when none occurs strictly most often.
pub fn mode(v: &Vec<i64>) -> (r: Option<i64>)
    ensures
        is_mode_result(v@.map_values(|x: i64| Partial(x)), r),
{
    let mut u = Unsorted::from_vec(v);
    u.mode()
}

/// The mode depends only on which values a buffer holds and how often, not
/// on their order: buffers with equal contents have the same mode answers.
pub proof fn lemma_mode_result_multiset(s1: Seq<Partial>, s2: Seq<Partial>, r: Option<i64>)
    requires
        s1.to_multiset() == s2.to_multiset(),
        is_mode_result(s1, r),
    ensures
        is_mode_result(s2, r),
{
    assert(forall|y: i64| occ(s1, y) == occ(s2, y));
    match r {
        Option::Some(m) => {
            assert(is_mode(s2, m)) by {
                assert(occ(s2, m) == occ(s1, m));
                assert forall|y: i64| y != m implies occ(s2, y) < occ(s2, m) by {
                    assert(occ(s1, y) < occ(s1, m));
                }
            }
        },
        Option::None => {
            assert forall|y: i64| !is_mode(s2, y) by {
                if is_mode(s2, y) {
                    assert(is_mode(s1, y)) by {
                        assert(occ(s1, y) == occ(s2, y));
                        assert forall|z: i64| z != y implies occ(s1, z) < occ(s1, y) by {
                            assert(occ(s2, z) < occ(s2, y));
                        }
                    }
                    assert(!is_mode(s1, y));
                }
            }
        },
    }
}

/// Merging two buffers concatenates their contents: the merged buffer holds
/// the values of both, with multiplicity, regardless of the merge order.
pub proof fn lemma_unsorted_merge_multiset(a: (Seq<Partial>, bool), b: (Seq<Partial>, bool))
    ensures
        Unsorted::vmerge(a, b).0.to_multiset() == a.0.to_multiset().add(b.0.to_multiset()),
        Unsorted::vmerge(a, b).0.to_multiset() == Unsorted::vmerge(b, a).0.to_multiset(),
{
    vstd::seq_lib::lemma_multiset_commutative(a.0, b.0);
    vstd::seq_lib::lemma_multiset_commutative(b.0, a.0);
    vstd::seq_lib::lemma_seq_union_to_multiset_commutative(a.0, b.0);
}

/// Building one buffer over a concatenation equals building two buffers and
/// merging them.
pub proof fn lemma_unsorted_concat(a: Seq<i64>, b: Seq<i64>)
    ensures
        Unsorted::vmerge(
            (a.map_values(|x: i64| Partial(x)), false),
            (b.map_values(|x: i64| Partial(x)), false),
        ) == ((a + b).map_values(|x: i64| Partial(x)), false),
{
    assert(a.map_values(|x: i64| Partial(x)) + b.map_values(|x: i64| Partial(x)) =~= (a
        + b).map_values(|x: i64| Partial(x)));
}

} // verus!
