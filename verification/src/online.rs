use vstd::prelude::*;

use crate::Commute;

verus! {

/// Largest number of values one accumulator may hold. With at most `2^31`
/// values of magnitude at most `2^31`, the running sum stays below `2^62`
/// and the running sum of squares below `2^93`, so every product computed
/// by `variance` fits in an `i128`.
pub const MAX_COUNT: u64 = 0x8000_0000;

/// Magnitude bound of a single value: `2^31`, every `i32` satisfies it.
pub open spec fn val_bound() -> int {
    0x8000_0000
}

/// Bound on the square of a single value: `2^62`.
pub open spec fn sq_bound() -> int {
    0x4000_0000_0000_0000
}

/// One observation folded into a moment triple (count, sum, sum of squares).
pub open spec fn st_step(v: (int, int, int), x: int) -> (int, int, int) {
    (v.0 + 1, v.1 + x, v.2 + x * x)
}

/// The moment triple of a finite sequence of values.
pub open spec fn stats_of(s: Seq<i32>) -> (int, int, int)
    decreases s.len(),
{
    if s.len() == 0 {
        (0, 0, 0)
    } else {
        st_step(stats_of(s.drop_last()), s.last() as int)
    }
}

/// Well-formedness of a moment triple: the sum and the sum of squares are
/// bounded by the count times the per-value bounds.
pub open spec fn st_wf(v: (int, int, int)) -> bool {
    &&& 0 <= v.0
    &&& -v.0 * val_bound() <= v.1 <= v.0 * val_bound()
    &&& 0 <= v.2 <= v.0 * sq_bound()
}

/// Running count, mean and variance of a stream, kept as exact integer
/// moments: the count, the sum and the sum of squares of the values.
///
/// The mean is `sum / count` and the population variance is
/// `(count * sum_sq - sum^2) / count^2`, both exact rationals; the standard
/// deviation is the square root of the variance. Because the moments of a
/// concatenated stream are the componentwise sums of the moments of its
/// parts, `merge` is exactly commutative and associative, and agrees with
/// the parallel-variance combination formula in exact arithmetic.
pub struct OnlineStats {
    count: u64,
    sum: i128,
    sum_sq: i128,
}

impl View for OnlineStats {
    type V = (int, int, int);

    closed spec fn view(&self) -> (int, int, int) {
        (self.count as int, self.sum as int, self.sum_sq as int)
    }
}

impl OnlineStats {
    /// Create an empty accumulator: count, sum and sum of squares all zero.
    pub fn new() -> (r: OnlineStats)
        ensures
            r@ == (0int, 0int, 0int),
    {
        OnlineStats { count: 0, sum: 0, sum_sq: 0 }
    }

    /// Observe one value.
    pub fn add(&mut self, x: i32)
        requires
            st_wf(old(self)@),
            old(self)@.0 < MAX_COUNT,
        ensures
            final(self)@ == st_step(old(self)@, x as int),
            st_wf(final(self)@),
    {
        proof {
            lemma_square_bound(x as int);
        }
        self.count = self.count + 1;
        self.sum = self.sum + (x as i128);
        self.sum_sq = self.sum_sq + (x as i128) * (x as i128);
    }

    /// Build an accumulator over a whole sequence of values, equivalent to
    /// creating an empty one and adding each value in order.
    pub fn from_slice(xs: &Vec<i32>) -> (r: OnlineStats)
        requires
            xs@.len() <= MAX_COUNT,
        ensures
            r@ == stats_of(xs@),
            st_wf(r@),
    {
        let mut r = OnlineStats::new();
        let n = xs.len();
        let mut i: usize = 0;
        while i < n
            invariant
                i <= n,
                n == xs@.len(),
                n <= MAX_COUNT,
                r@ == stats_of(xs@.subrange(0, i as int)),
                st_wf(r@),
                r@.0 == i,
            decreases n - i,
        {
            proof {
                assert(xs@.subrange(0, i + 1).drop_last() =~= xs@.subrange(0, i as int));
            }
            r.add(xs[i]);
            i += 1;
        }
        proof {
            assert(xs@.subrange(0, n as int) =~= xs@);
        }
        r
    }

    /// How many values have been observed.
    pub fn len(&self) -> (r: u64)
        ensures
            r == self@.0,
    {
        self.count
    }

    /// The exact mean as a fraction (numerator, denominator): `sum / count`
    /// when any value was observed, and `0 / 1` on an empty accumulator.
    pub fn mean(&self) -> (r: (i128, i128))
        ensures
            self@.0 == 0 ==> r == (0i128, 1i128),
            self@.0 > 0 ==> r.0 == self@.1 && r.1 == self@.0,
    {
        if self.count == 0 {
            (0, 1)
        } else {
            (self.sum, self.count as i128)
        }
    }

    /// The exact population variance as a fraction (numerator, denominator):
    /// `(count * sum_sq - sum^2) / count^2` when any value was observed, and
    /// `0 / 1` on an empty accumulator. The standard deviation is the square
    /// root of this fraction; two accumulators have equal standard
    /// deviations exactly when these fractions are equal as rationals.
    pub fn variance(&self) -> (r: (i128, i128))
        requires
            st_wf(self@),
            self@.0 <= MAX_COUNT,
        ensures
            self@.0 == 0 ==> r == (0i128, 1i128),
            self@.0 > 0 ==> r.0 == self@.0 * self@.2 - self@.1 * self@.1 && r.1 == self@.0
                * self@.0,
    {
        if self.count == 0 {
            (0, 1)
        } else {
            let c = self.count as i128;
            proof {
                lemma_moment_products_bounded(c as int, self.sum as int, self.sum_sq as int);
            }
            (c * self.sum_sq - self.sum * self.sum, c * c)
        }
    }
}

impl Default for OnlineStats {
    /// An empty accumulator, equal to `OnlineStats::new()`.
    fn default() -> (r: OnlineStats)
        ensures
            r@ == (0int, 0int, 0int),
    {
        OnlineStats::new()
    }
}

impl Commute for OnlineStats {
    open spec fn vmergeable(a: Self::V, b: Self::V) -> bool {
        &&& st_wf(a)
        &&& st_wf(b)
        &&& a.0 + b.0 <= MAX_COUNT
    }

    open spec fn vmerge(a: Self::V, b: Self::V) -> Self::V {
        (a.0 + b.0, a.1 + b.1, a.2 + b.2)
    }

    /// Combine with an independently built accumulator: the moments add
    /// componentwise, which is exactly the parallel-variance combination.
    fn merge(&mut self, other: OnlineStats) {
        self.count = self.count + other.count;
        self.sum = self.sum + other.sum;
        self.sum_sq = self.sum_sq + other.sum_sq;
    }
}

/// The square of a value of magnitude at most `2^31` is nonnegative and at
/// most `2^62`.
pub proof fn lemma_square_bound(x: int)
    requires
        -0x8000_0000 <= x <= 0x8000_0000,
    ensures
        0 <= x * x <= 0x4000_0000_0000_0000,
{
    assert(0 <= x * x <= 0x4000_0000_0000_0000) by (nonlinear_arith)
        requires
            -0x8000_0000 <= x <= 0x8000_0000,
    ;
}

/// Bounds of the products formed by `variance`: with a well-formed moment
/// triple of count at most `MAX_COUNT`, every product fits in an `i128`.
proof fn lemma_moment_products_bounded(c: int, s: int, q: int)
    requires
        0 < c <= 0x8000_0000,
        -c * 0x8000_0000 <= s <= c * 0x8000_0000,
        0 <= q <= c * 0x4000_0000_0000_0000,
    ensures
        0 <= c * q <= 0x1000_0000_0000_0000_0000_0000_0000_0000,
        0 <= s * s <= 0x1000_0000_0000_0000_0000_0000_0000_0000,
        0 < c * c <= 0x4000_0000_0000_0000,
{
    assert(0 <= c * q <= 0x1000_0000_0000_0000_0000_0000_0000_0000) by (nonlinear_arith)
        requires
            0 < c <= 0x8000_0000,
            0 <= q <= c * 0x4000_0000_0000_0000,
    ;
    assert(-0x4000_0000_0000_0000 <= s <= 0x4000_0000_0000_0000) by (nonlinear_arith)
        requires
            0 < c <= 0x8000_0000,
            -c * 0x8000_0000 <= s <= c * 0x8000_0000,
    ;
    assert(0 <= s * s <= 0x1000_0000_0000_0000_0000_0000_0000_0000) by (nonlinear_arith)
        requires
            -0x4000_0000_0000_0000 <= s <= 0x4000_0000_0000_0000,
    ;
    assert(0 < c * c <= 0x4000_0000_0000_0000) by (nonlinear_arith)
        requires
            0 < c <= 0x8000_0000,
    ;
}

/// The moment triple of a sequence of values is well formed, and its count
/// is the length of the sequence.
pub proof fn lemma_stats_of_wf(s: Seq<i32>)
    ensures
        st_wf(stats_of(s)),
        stats_of(s).0 == s.len(),
    decreases s.len(),
{
    if s.len() > 0 {
        lemma_stats_of_wf(s.drop_last());
        lemma_square_bound(s.last() as int);
    }
}

/// Merging the accumulators of two sequences gives the accumulator of their
/// concatenation.
pub proof fn lemma_stats_concat(a: Seq<i32>, b: Seq<i32>)
    ensures
        stats_of(a + b) == OnlineStats::vmerge(stats_of(a), stats_of(b)),
    decreases b.len(),
{
    if b.len() == 0 {
        assert(a + b =~= a);
    } else {
        lemma_stats_concat(a, b.drop_last());
        assert((a + b).drop_last() =~= a + b.drop_last());
        assert((a + b).last() == b.last());
    }
}

/// The merge of moment triples is commutative.
pub proof fn lemma_stats_merge_commutes(a: (int, int, int), b: (int, int, int))
    ensures
        OnlineStats::vmerge(a, b) == OnlineStats::vmerge(b, a),
{
}

/// An empty accumulator is the identity of merge, on either side: merging
/// with a count-zero accumulator changes nothing.
pub proof fn lemma_stats_merge_empty(a: (int, int, int))
    ensures
        OnlineStats::vmerge(a, (0int, 0int, 0int)) == a,
        OnlineStats::vmerge((0int, 0int, 0int), a) == a,
{
}

} // verus!
