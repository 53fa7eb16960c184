use vstd::prelude::*;
use vstd::relations::sorted_by;

use crate::Commute;

verus! {

/// Sum of the counts recorded for key `x` in an entry sequence; the
/// occurrence count of `x` when the entries are well formed.
pub open spec fn count_in(s: Seq<(i64, u64)>, x: i64) -> int
    decreases s.len(),
{
    if s.len() == 0 {
        0
    } else {
        (if s.first().0 == x {
            s.first().1 as int
        } else {
            0
        }) + count_in(s.drop_first(), x)
    }
}

/// Sum of all counts in an entry sequence: the number of values ever added.
pub open spec fn total_in(s: Seq<(i64, u64)>) -> int
    decreases s.len(),
{
    if s.len() == 0 {
        0
    } else {
        s.first().1 + total_in(s.drop_first())
    }
}

/// Whether some entry records the key `x`.
pub open spec fn has_key(s: Seq<(i64, u64)>, x: i64) -> bool {
    exists|i: int| 0 <= i < s.len() && (#[trigger] s[i]).0 == x
}

/// Well-formedness of an entry sequence: keys are distinct and every
/// recorded count is at least one.
pub open spec fn freq_wf(s: Seq<(i64, u64)>) -> bool {
    &&& forall|i: int, j: int|
        0 <= i < j < s.len() ==> (#[trigger] s[i]).0 != (#[trigger] s[j]).0
    &&& forall|i: int| 0 <= i < s.len() ==> (#[trigger] s[i]).1 >= 1
}

/// Add `c` occurrences of key `k` to an entry sequence: the count of the
/// entry holding `k` grows by `c`, or a new entry `(k, c)` is appended.
pub open spec fn bump(s: Seq<(i64, u64)>, k: i64, c: u64) -> Seq<(i64, u64)>
    decreases s.len(),
{
    if s.len() == 0 {
        seq![(k, c)]
    } else if s.first().0 == k {
        seq![(k, (s.first().1 + c) as u64)] + s.drop_first()
    } else {
        seq![s.first()] + bump(s.drop_first(), k, c)
    }
}

/// Add one occurrence of each value of `vals`, in order, to an entry
/// sequence.
pub open spec fn add_all(s: Seq<(i64, u64)>, vals: Seq<i64>) -> Seq<(i64, u64)>
    decreases vals.len(),
{
    if vals.len() == 0 {
        s
    } else {
        bump(add_all(s, vals.drop_last()), vals.last(), 1)
    }
}

/// The entry sequence recording the occurrence counts of a value sequence.
pub open spec fn freqs_of(vals: Seq<i64>) -> Seq<(i64, u64)> {
    add_all(Seq::empty(), vals)
}

/// Fold every entry of `b` into `a`, in order: counts add key by key.
pub open spec fn merge_freqs(a: Seq<(i64, u64)>, b: Seq<(i64, u64)>) -> Seq<(i64, u64)>
    decreases b.len(),
{
    if b.len() == 0 {
        a
    } else {
        bump(merge_freqs(a, b.drop_last()), b.last().0, b.last().1)
    }
}

/// How many times the value `y` occurs in a value sequence.
pub open spec fn num_occ(vals: Seq<i64>, y: i64) -> int
    decreases vals.len(),
{
    if vals.len() == 0 {
        0
    } else {
        num_occ(vals.drop_last(), y) + (if vals.last() == y {
            1int
        } else {
            0int
        })
    }
}

/// Counts are nonnegative, and no key's count exceeds the total.
pub proof fn lemma_count_le_total(s: Seq<(i64, u64)>, x: i64)
    ensures
        0 <= count_in(s, x) <= total_in(s),
        0 <= total_in(s),
    decreases s.len(),
{
    if s.len() > 0 {
        lemma_count_le_total(s.drop_first(), x);
    }
}

/// A key no entry records has count zero.
pub proof fn lemma_count_absent(s: Seq<(i64, u64)>, x: i64)
    requires
        !has_key(s, x),
    ensures
        count_in(s, x) == 0,
    decreases s.len(),
{
    if s.len() > 0 {
        assert(s[0].0 != x);
        assert(!has_key(s.drop_first(), x)) by {
            if has_key(s.drop_first(), x) {
                let i = choose|i: int|
                    0 <= i < s.drop_first().len() && (#[trigger] s.drop_first()[i]).0 == x;
                assert(s[i + 1].0 == x);
            }
        }
        lemma_count_absent(s.drop_first(), x);
    }
}

/// Decompose a count over the last entry.
pub proof fn lemma_count_in_last(s: Seq<(i64, u64)>, x: i64)
    requires
        s.len() > 0,
    ensures
        count_in(s, x) == count_in(s.drop_last(), x) + (if s.last().0 == x {
            s.last().1 as int
        } else {
            0int
        }),
        total_in(s) == total_in(s.drop_last()) + s.last().1,
    decreases s.len(),
{
    assert(count_in(s, x) == (if s.first().0 == x {
        s.first().1 as int
    } else {
        0int
    }) + count_in(s.drop_first(), x));
    assert(total_in(s) == s.first().1 + total_in(s.drop_first()));
    if s.len() == 1 {
        assert(s.drop_last() =~= Seq::<(i64, u64)>::empty());
        assert(s.last() == s.first());
        assert(count_in(s.drop_first(), x) == 0);
        assert(total_in(s.drop_first()) == 0);
    } else {
        lemma_count_in_last(s.drop_first(), x);
        assert(s.drop_last().drop_first() =~= s.drop_first().drop_last());
        assert(s.drop_last().first() == s.first());
        assert(s.drop_first().last() == s.last());
        assert(total_in(s.drop_last()) == s.drop_last().first().1 + total_in(
            s.drop_last().drop_first(),
        ));
        assert(count_in(s.drop_last(), x) == (if s.drop_last().first().0 == x {
            s.drop_last().first().1 as int
        } else {
            0int
        }) + count_in(s.drop_last().drop_first(), x));
    }
}

/// In a well-formed entry sequence, the count of an entry's key is exactly
/// the count that entry records.
pub proof fn lemma_count_entry(s: Seq<(i64, u64)>, i: int)
    requires
        freq_wf(s),
        0 <= i < s.len(),
    ensures
        count_in(s, s[i].0) == s[i].1 as int,
    decreases i,
{
    let d = s.drop_first();
    assert(freq_wf(d)) by {
        assert(forall|a: int, b: int|
            0 <= a < b < d.len() ==> (#[trigger] d[a]).0 == s[a + 1].0 && (#[trigger] d[b]).0 == s[
            b + 1].0);
        assert(forall|a: int| 0 <= a < d.len() ==> (#[trigger] d[a]).1 == s[a + 1].1);
    }
    if i == 0 {
        assert(!has_key(d, s[0].0)) by {
            if has_key(d, s[0].0) {
                let j = choose|j: int| 0 <= j < d.len() && (#[trigger] d[j]).0 == s[0].0;
                assert(s[j + 1].0 == s[0].0);
            }
        }
        lemma_count_absent(d, s[0].0);
    } else {
        lemma_count_entry(d, i - 1);
        assert(d[i - 1] == s[i]);
        assert(s.first().0 != s[i].0);
    }
}

/// What `bump` does to every count, to the total, to the key set and to
/// well-formedness.
pub proof fn lemma_bump(s: Seq<(i64, u64)>, k: i64, c: u64)
    requires
        freq_wf(s),
        c >= 1,
        count_in(s, k) + c <= 0xffff_ffff_ffff_ffff,
    ensures
        freq_wf(bump(s, k, c)),
        total_in(bump(s, k, c)) == total_in(s) + c,
        forall|y: i64|
            #[trigger] count_in(bump(s, k, c), y) == count_in(s, y) + (if y == k {
                c as int
            } else {
                0int
            }),
        forall|y: i64| #[trigger] has_key(bump(s, k, c), y) <==> (has_key(s, y) || y == k),
    decreases s.len(),
{
    let r = bump(s, k, c);
    if s.len() == 0 {
        assert(r =~= seq![(k, c)]);
        assert(r.drop_first() =~= Seq::<(i64, u64)>::empty());
        assert forall|y: i64| #[trigger] has_key(r, y) <==> (has_key(s, y) || y == k) by {
            assert(r[0].0 == k);
            if has_key(r, y) {
                let i = choose|i: int| 0 <= i < r.len() && (#[trigger] r[i]).0 == y;
                assert(i == 0);
            }
        }
        assert forall|y: i64|
            #[trigger] count_in(r, y) == count_in(s, y) + (if y == k {
                c as int
            } else {
                0int
            }) by {
            assert(r.first() == (k, c));
            assert(count_in(r.drop_first(), y) == 0);
        }
        assert(total_in(r) == r.first().1 + total_in(r.drop_first()));
    } else if s.first().0 == k {
        lemma_count_le_total(s.drop_first(), k);
        assert(r =~= seq![(k, (s.first().1 + c) as u64)] + s.drop_first());
        assert(r.first() == (k, (s.first().1 + c) as u64));
        assert(r.drop_first() =~= s.drop_first());
        assert(s.first().1 + c <= 0xffff_ffff_ffff_ffff);
        assert forall|y: i64|
            #[trigger] count_in(r, y) == count_in(s, y) + (if y == k {
                c as int
            } else {
                0int
            }) by {
            assert(count_in(r.drop_first(), y) == count_in(s.drop_first(), y));
            assert(r.first().1 as int == s.first().1 + c);
        }
        assert(total_in(r) == r.first().1 + total_in(r.drop_first()));
        assert(total_in(r.drop_first()) == total_in(s.drop_first()));
        assert(total_in(s) == s.first().1 + total_in(s.drop_first()));
        assert(freq_wf(r)) by {
            assert(forall|a: int| 0 < a < r.len() ==> r[a] == s[a]);
            assert(forall|a: int| 0 < a < r.len() ==> (#[trigger] r[a]).0 == s[a].0);
            assert(r[0].0 == s[0].0);
            assert(r[0].1 >= 1);
        }
        assert forall|y: i64| #[trigger] has_key(r, y) <==> (has_key(s, y) || y == k) by {
            if has_key(r, y) {
                let i = choose|i: int| 0 <= i < r.len() && (#[trigger] r[i]).0 == y;
                if i == 0 {
                    assert(s[0].0 == y);
                } else {
                    assert(s[i].0 == y);
                }
            }
            if has_key(s, y) {
                let i = choose|i: int| 0 <= i < s.len() && (#[trigger] s[i]).0 == y;
                assert(r[i].0 == y);
            }
        }
    } else {
        let d = s.drop_first();
        assert(freq_wf(d)) by {
            assert(forall|a: int, b: int|
                0 <= a < b < d.len() ==> (#[trigger] d[a]).0 == s[a + 1].0 && (#[trigger] d[b]).0
                    == s[b + 1].0);
            assert(forall|a: int| 0 <= a < d.len() ==> (#[trigger] d[a]).1 == s[a + 1].1);
        }
        lemma_bump(d, k, c);
        let rd = bump(d, k, c);
        assert(r =~= seq![s.first()] + rd);
        assert(r.first() == s.first());
        assert(r.drop_first() =~= rd);
        assert forall|y: i64|
            #[trigger] count_in(r, y) == count_in(s, y) + (if y == k {
                c as int
            } else {
                0int
            }) by {
            assert(count_in(r.drop_first(), y) == count_in(rd, y));
            assert(count_in(rd, y) == count_in(d, y) + (if y == k {
                c as int
            } else {
                0int
            }));
        }
        assert(total_in(r) == r.first().1 + total_in(r.drop_first()));
        assert(total_in(r.drop_first()) == total_in(rd));
        assert(total_in(s) == s.first().1 + total_in(d));
        assert(!has_key(d, s.first().0)) by {
            if has_key(d, s.first().0) {
                let j = choose|j: int| 0 <= j < d.len() && (#[trigger] d[j]).0 == s.first().0;
                assert(s[j + 1].0 == s[0].0);
            }
        }
        assert(!has_key(rd, s.first().0));
        assert(freq_wf(r)) by {
            assert forall|a: int, b: int|
                0 <= a < b < r.len() implies (#[trigger] r[a]).0 != (#[trigger] r[b]).0 by {
                if a == 0 {
                    assert(r[b] == rd[b - 1]);
                    assert(rd[b - 1].0 != s.first().0) by {
                        if rd[b - 1].0 == s.first().0 {
                            assert(has_key(rd, s.first().0));
                        }
                    }
                } else {
                    assert(r[a] == rd[a - 1]);
                    assert(r[b] == rd[b - 1]);
                }
            }
            assert forall|a: int| 0 <= a < r.len() implies (#[trigger] r[a]).1 >= 1 by {
                if a > 0 {
                    assert(r[a] == rd[a - 1]);
                }
            }
        }
        assert forall|y: i64| #[trigger] has_key(r, y) <==> (has_key(s, y) || y == k) by {
            if has_key(r, y) {
                let i = choose|i: int| 0 <= i < r.len() && (#[trigger] r[i]).0 == y;
                if i == 0 {
                    assert(s[0].0 == y);
                } else {
                    assert(rd[i - 1].0 == y);
                    assert(has_key(rd, y));
                    if has_key(d, y) {
                        let j = choose|j: int| 0 <= j < d.len() && (#[trigger] d[j]).0 == y;
                        assert(s[j + 1].0 == y);
                    }
                }
            }
            if has_key(s, y) || y == k {
                if y == k || !(s[0].0 == y) {
                    if has_key(s, y) && y != k {
                        let i = choose|i: int| 0 <= i < s.len() && (#[trigger] s[i]).0 == y;
                        if i == 0 {
                            assert(r[0].0 == y);
                        } else {
                            assert(d[i - 1].0 == y);
                            assert(has_key(d, y));
                            assert(has_key(rd, y));
                            let j = choose|j: int| 0 <= j < rd.len() && (#[trigger] rd[j]).0 == y;
                            assert(r[j + 1].0 == y);
                        }
                    } else {
                        assert(has_key(rd, y));
                        let j = choose|j: int| 0 <= j < rd.len() && (#[trigger] rd[j]).0 == y;
                        assert(r[j + 1].0 == y);
                    }
                } else {
                    assert(r[0].0 == y);
                }
            }
        }
    }
}

/// Mapping from distinct values to occurrence counts: counts at least one
/// for every present key, with ranked views and a count-summing merge.
///
/// The view is the sequence of (key, count) entries; its well-formedness
/// (`freq_wf`) keeps the keys distinct, so the entries are exactly the
/// mapping.
pub struct Frequencies {
    data: Vec<(i64, u64)>,
}

impl View for Frequencies {
    type V = Seq<(i64, u64)>;

    closed spec fn view(&self) -> Seq<(i64, u64)> {
        self.data@
    }
}

impl Frequencies {
    /// Create an empty mapping.
    pub fn new() -> (r: Frequencies)
        ensures
            r@ == Seq::<(i64, u64)>::empty(),
            freq_wf(r@),
            total_in(r@) == 0,
    {
        Frequencies { data: Vec::new() }
    }

    /// Record `c` further occurrences of the key `k`.
    fn add_count(&mut self, k: i64, c: u64)
        requires
            freq_wf(old(self)@),
            c >= 1,
            count_in(old(self)@, k) + c <= 0xffff_ffff_ffff_ffff,
        ensures
            final(self)@ == bump(old(self)@, k, c),
            freq_wf(final(self)@),
            total_in(final(self)@) == total_in(old(self)@) + c,
    {
        let n = self.data.len();
        let mut i: usize = 0;
        while i < n
            invariant
                i <= n,
                n == self@.len(),
                self@ == old(self)@,
                freq_wf(self@),
                c >= 1,
                count_in(self@, k) + c <= 0xffff_ffff_ffff_ffff,
                forall|j: int| 0 <= j < i ==> (#[trigger] self@[j]).0 != k,
            decreases n - i,
        {
            if self.data[i].0 == k {
                proof {
                    lemma_bump(self@, k, c);
                    lemma_count_entry(self@, i as int);
                    lemma_bump_update(self@, i as int, k, c);
                }
                let cur = self.data[i].1;
                self.data.set(i, (k, cur + c));
                return;
            }
            i += 1;
        }
        proof {
            lemma_bump(self@, k, c);
            lemma_bump_append(self@, k, c);
        }
        self.data.push((k, c));
    }

    /// Record one occurrence of the value `v`, inserting it at count one if
    /// it is new.
    pub fn add(&mut self, v: i64)
        requires
            freq_wf(old(self)@),
            total_in(old(self)@) < 0xffff_ffff_ffff_ffff,
        ensures
            final(self)@ == bump(old(self)@, v, 1),
            freq_wf(final(self)@),
            total_in(final(self)@) == total_in(old(self)@) + 1,
    {
        proof {
            lemma_count_le_total(old(self)@, v);
        }
        self.add_count(v, 1);
    }

    /// Record one occurrence of every value of a sequence, in order.
    pub fn extend(&mut self, xs: &Vec<i64>)
        requires
            freq_wf(old(self)@),
            total_in(old(self)@) + xs@.len() <= 0xffff_ffff_ffff_ffff,
        ensures
            final(self)@ == add_all(old(self)@, xs@),
            freq_wf(final(self)@),
            total_in(final(self)@) == total_in(old(self)@) + xs@.len(),
    {
        let n = xs.len();
        let mut i: usize = 0;
        while i < n
            invariant
                i <= n,
                n == xs@.len(),
                self@ == add_all(old(self)@, xs@.subrange(0, i as int)),
                freq_wf(self@),
                total_in(self@) == total_in(old(self)@) + i,
                total_in(old(self)@) + n <= 0xffff_ffff_ffff_ffff,
            decreases n - i,
        {
            proof {
                lemma_count_le_total(self@, xs@[i as int]);
                assert(xs@.subrange(0, i + 1).drop_last() =~= xs@.subrange(0, i as int));
                assert(xs@.subrange(0, i + 1).last() == xs@[i as int]);
            }
            self.add(xs[i]);
            i += 1;
        }
        proof {
            assert(xs@.subrange(0, n as int) =~= xs@);
        }
    }

    /// Build a mapping over a whole sequence of values.
    pub fn from_vec(xs: &Vec<i64>) -> (r: Frequencies)
        requires
            xs@.len() <= 0xffff_ffff_ffff_ffff,
        ensures
            r@ == freqs_of(xs@),
            freq_wf(r@),
            total_in(r@) == xs@.len(),
    {
        let mut r = Frequencies::new();
        r.extend(xs);
        r
    }

    /// The recorded count of the value `v`: zero when it was never added.
    pub fn count(&self, v: i64) -> (r: u64)
        requires
            freq_wf(self@),
        ensures
            r == count_in(self@, v),
    {
        let n = self.data.len();
        let mut i: usize = 0;
        while i < n
            invariant
                i <= n,
                n == self@.len(),
                freq_wf(self@),
                forall|j: int| 0 <= j < i ==> (#[trigger] self@[j]).0 != v,
            decreases n - i,
        {
            if self.data[i].0 == v {
                proof {
                    lemma_count_entry(self@, i as int);
                }
                return self.data[i].1;
            }
            i += 1;
        }
        proof {
            assert(!has_key(self@, v)) by {
                if has_key(self@, v) {
                    let j = choose|j: int|
                        0 <= j < self@.len() && (#[trigger] self@[j]).0 == v;
                }
            }
            lemma_count_absent(self@, v);
        }
        0
    }

    /// How many distinct values were added: with distinct keys, one entry
    /// for each.
    pub fn cardinality(&self) -> (r: usize)
        ensures
            r == self@.len(),
    {
        self.data.len()
    }

    /// The (value, count) pairs ranked most frequent first; among equal
    /// counts, smaller values first, making the order deterministic.
    pub fn most_frequent(&self) -> (r: Vec<(i64, u64)>)
        ensures
            r@.to_multiset() == self@.to_multiset(),
            sorted_by(r@, rank_le(false)),
            r@.len() == self@.len(),
    {
        sort_pairs(&self.data, false)
    }

    /// The (value, count) pairs ranked least frequent first; among equal
    /// counts, smaller values first, making the order deterministic.
    pub fn least_frequent(&self) -> (r: Vec<(i64, u64)>)
        ensures
            r@.to_multiset() == self@.to_multiset(),
            sorted_by(r@, rank_le(true)),
            r@.len() == self@.len(),
    {
        sort_pairs(&self.data, true)
    }
}

impl Default for Frequencies {
    /// An empty mapping, equal to `Frequencies::new()`.
    fn default() -> (r: Frequencies)
        ensures
            r@ == Seq::<(i64, u64)>::empty(),
            freq_wf(r@),
    {
        Frequencies::new()
    }
}

impl Commute for Frequencies {
    open spec fn vmergeable(a: Self::V, b: Self::V) -> bool {
        &&& freq_wf(a)
        &&& freq_wf(b)
        &&& total_in(a) + total_in(b) <= 0xffff_ffff_ffff_ffff
    }

    open spec fn vmerge(a: Self::V, b: Self::V) -> Self::V {
        merge_freqs(a, b)
    }

    /// Combine with another mapping: counts add key by key, the key sets
    /// union.
    fn merge(&mut self, other: Frequencies) {
        let ghost a0 = self@;
        let ghost b = other@;
        let n = other.data.len();
        let mut i: usize = 0;
        while i < n
            invariant
                i <= n,
                n == b.len(),
                other@ == b,
                freq_wf(b),
                self@ == merge_freqs(a0, b.subrange(0, i as int)),
                freq_wf(self@),
                total_in(self@) == total_in(a0) + total_in(b.subrange(0, i as int)),
                total_in(a0) + total_in(b) <= 0xffff_ffff_ffff_ffff,
            decreases n - i,
        {
            let (k, c) = other.data[i];
            proof {
                assert(b.subrange(0, i + 1).drop_last() =~= b.subrange(0, i as int));
                assert(b.subrange(0, i + 1).last() == b[i as int]);
                lemma_count_in_last(b.subrange(0, i + 1), k);
                lemma_total_prefix_le(b, i + 1);
                lemma_count_le_total(self@, k);
                assert(c >= 1);
            }
            self.add_count(k, c);
            i += 1;
        }
        proof {
            assert(b.subrange(0, n as int) =~= b);
        }
    }
}

/// Prefixes of an entry sequence never exceed its total.
pub proof fn lemma_total_prefix_le(s: Seq<(i64, u64)>, i: int)
    requires
        0 <= i <= s.len(),
    ensures
        total_in(s.subrange(0, i)) <= total_in(s),
    decreases s.len() - i,
{
    if i == s.len() {
        assert(s.subrange(0, i) =~= s);
    } else {
        lemma_total_prefix_le(s, i + 1);
        assert(s.subrange(0, i + 1).drop_last() =~= s.subrange(0, i));
        lemma_count_in_last(s.subrange(0, i + 1), 0);
    }
}

/// `bump` on the entry holding the key updates that entry in place.
proof fn lemma_bump_update(s: Seq<(i64, u64)>, i: int, k: i64, c: u64)
    requires
        0 <= i < s.len(),
        s[i].0 == k,
        forall|j: int| 0 <= j < i ==> (#[trigger] s[j]).0 != k,
    ensures
        bump(s, k, c) == s.update(i, (k, (s[i].1 + c) as u64)),
    decreases i,
{
    if i == 0 {
        assert(bump(s, k, c) =~= s.update(0, (k, (s[0].1 + c) as u64)));
    } else {
        let d = s.drop_first();
        assert(forall|j: int| 0 <= j < i - 1 ==> (#[trigger] d[j]).0 == s[j + 1].0);
        lemma_bump_update(d, i - 1, k, c);
        assert(bump(s, k, c) =~= s.update(i, (k, (s[i].1 + c) as u64))) by {
            assert(bump(s, k, c) == seq![s.first()] + bump(d, k, c));
            assert(d[i - 1] == s[i]);
            assert(d.update(i - 1, (k, (s[i].1 + c) as u64)) =~= s.update(
                i,
                (k, (s[i].1 + c) as u64),
            ).drop_first());
        }
    }
}

/// `bump` of an unrecorded key appends a fresh entry.
proof fn lemma_bump_append(s: Seq<(i64, u64)>, k: i64, c: u64)
    requires
        forall|j: int| 0 <= j < s.len() ==> (#[trigger] s[j]).0 != k,
    ensures
        bump(s, k, c) == s.push((k, c)),
    decreases s.len(),
{
    if s.len() == 0 {
        assert(bump(s, k, c) =~= s.push((k, c)));
    } else {
        let d = s.drop_first();
        assert(forall|j: int| 0 <= j < d.len() ==> (#[trigger] d[j]).0 == s[j + 1].0);
        lemma_bump_append(d, k, c);
        assert(bump(s, k, c) =~= s.push((k, c))) by {
            assert(bump(s, k, c) == seq![s.first()] + bump(d, k, c));
            assert(d.push((k, c)) =~= s.push((k, c)).drop_first());
        }
    }
}

/// What merging does to every count and to well-formedness: counts add key
/// by key and the entries stay well formed.
pub proof fn lemma_merge_freqs(a: Seq<(i64, u64)>, b: Seq<(i64, u64)>)
    requires
        freq_wf(a),
        freq_wf(b),
        total_in(a) + total_in(b) <= 0xffff_ffff_ffff_ffff,
    ensures
        freq_wf(merge_freqs(a, b)),
        total_in(merge_freqs(a, b)) == total_in(a) + total_in(b),
        forall|y: i64|
            #[trigger] count_in(merge_freqs(a, b), y) == count_in(a, y) + count_in(b, y),
    decreases b.len(),
{
    if b.len() == 0 {
        assert(forall|y: i64| count_in(b, y) == 0);
    } else {
        let d = b.drop_last();
        assert(freq_wf(d)) by {
            assert(forall|i: int| 0 <= i < d.len() ==> d[i] == b[i]);
            assert(forall|i: int| 0 <= i < d.len() ==> (#[trigger] d[i]).0 == b[i].0);
            assert(forall|i: int| 0 <= i < d.len() ==> (#[trigger] d[i]).1 == b[i].1);
        }
        lemma_count_in_last(b, b.last().0);
        lemma_count_le_total(d, b.last().0);
        lemma_merge_freqs(a, d);
        lemma_count_le_total(a, b.last().0);
        assert(b.last().1 >= 1);
        lemma_count_entry(b, b.len() - 1);
        lemma_count_le_total(b, b.last().0);
        lemma_bump(merge_freqs(a, d), b.last().0, b.last().1);
        assert forall|y: i64|
            #[trigger] count_in(merge_freqs(a, b), y) == count_in(a, y) + count_in(b, y) by {
            lemma_count_in_last(b, y);
        }
    }
}

/// Occurrence counts of a concatenation are the sums of the parts' counts.
pub proof fn lemma_num_occ_concat(a: Seq<i64>, b: Seq<i64>, y: i64)
    ensures
        num_occ(a + b, y) == num_occ(a, y) + num_occ(b, y),
    decreases b.len(),
{
    if b.len() == 0 {
        assert(a + b =~= a);
    } else {
        lemma_num_occ_concat(a, b.drop_last(), y);
        assert((a + b).drop_last() =~= a + b.drop_last());
        assert((a + b).last() == b.last());
    }
}

/// The mapping built over a value sequence records exactly its occurrence
/// counts, and is well formed.
pub proof fn lemma_add_all(s: Seq<(i64, u64)>, vals: Seq<i64>)
    requires
        freq_wf(s),
        total_in(s) + vals.len() <= 0xffff_ffff_ffff_ffff,
    ensures
        freq_wf(add_all(s, vals)),
        total_in(add_all(s, vals)) == total_in(s) + vals.len(),
        forall|y: i64|
            #[trigger] count_in(add_all(s, vals), y) == count_in(s, y) + num_occ(vals, y),
    decreases vals.len(),
{
    if vals.len() > 0 {
        lemma_add_all(s, vals.drop_last());
        lemma_count_le_total(add_all(s, vals.drop_last()), vals.last());
        lemma_bump(add_all(s, vals.drop_last()), vals.last(), 1);
    }
}

/// Merging the mappings of two value sequences records the occurrence
/// counts of their concatenation: building once over `a + b` and building
/// twice then merging agree on every count.
pub proof fn lemma_freqs_concat(a: Seq<i64>, b: Seq<i64>)
    requires
        a.len() + b.len() <= 0xffff_ffff_ffff_ffff,
    ensures
        forall|y: i64|
            #[trigger] count_in(freqs_of(a + b), y) == count_in(
                Frequencies::vmerge(freqs_of(a), freqs_of(b)),
                y,
            ),
    decreases 0int,
{
    lemma_add_all(Seq::empty(), a + b);
    lemma_add_all(Seq::empty(), a);
    lemma_add_all(Seq::empty(), b);
    lemma_merge_freqs(freqs_of(a), freqs_of(b));
    assert forall|y: i64|
        #[trigger] count_in(freqs_of(a + b), y) == count_in(
            Frequencies::vmerge(freqs_of(a), freqs_of(b)),
            y,
        ) by {
        lemma_num_occ_concat(a, b, y);
    }
}

/// Merging mappings is commutative: both orders record the same count for
/// every key.
pub proof fn lemma_freq_merge_commutes(a: Seq<(i64, u64)>, b: Seq<(i64, u64)>)
    requires
        freq_wf(a),
        freq_wf(b),
        total_in(a) + total_in(b) <= 0xffff_ffff_ffff_ffff,
    ensures
        forall|y: i64|
            #[trigger] count_in(Frequencies::vmerge(a, b), y) == count_in(
                Frequencies::vmerge(b, a),
                y,
            ),
{
    lemma_merge_freqs(a, b);
    lemma_merge_freqs(b, a);
}

/// The ranking order of (value, count) pairs: by count, ascending or
/// descending, and among equal counts by value ascending. A total ordering
/// either way.
pub open spec fn rank_le(asc: bool) -> spec_fn((i64, u64), (i64, u64)) -> bool {
    |a: (i64, u64), b: (i64, u64)|
        if a.1 == b.1 {
            a.0 <= b.0
        } else if asc {
            a.1 < b.1
        } else {
            a.1 > b.1
        }
}

/// Whether `a` ranks at or before `b` in the chosen direction.
fn rank_le_exec(a: (i64, u64), b: (i64, u64), asc: bool) -> (r: bool)
    ensures
        r == rank_le(asc)(a, b),
{
    if a.1 == b.1 {
        a.0 <= b.0
    } else if asc {
        a.1 < b.1
    } else {
        a.1 > b.1
    }
}

/// Sort (value, count) pairs by the ranking order: the result is sorted and
/// holds exactly the same pairs, with multiplicity.
fn sort_pairs(v: &Vec<(i64, u64)>, asc: bool) -> (r: Vec<(i64, u64)>)
    ensures
        r@.to_multiset() == v@.to_multiset(),
        sorted_by(r@, rank_le(asc)),
        r@.len() == v@.len(),
{
    broadcast use vstd::seq_lib::group_to_multiset_ensures;
    broadcast use vstd::multiset::group_multiset_axioms;

    let mut rem: Vec<(i64, u64)> = Vec::new();
    let n = v.len();
    let mut i: usize = 0;
    while i < n
        invariant
            i <= n,
            n == v@.len(),
            rem@ == v@.subrange(0, i as int),
        decreases n - i,
    {
        rem.push(v[i]);
        proof {
            assert(v@.subrange(0, i as int).push(v@[i as int]) =~= v@.subrange(0, i + 1));
        }
        i += 1;
    }
    proof {
        assert(v@.subrange(0, n as int) =~= v@);
    }
    let mut out: Vec<(i64, u64)> = Vec::new();
    while rem.len() > 0
        invariant
            out@.to_multiset().add(rem@.to_multiset()) == v@.to_multiset(),
            sorted_by(out@, rank_le(asc)),
            forall|a: int, b: int|
                0 <= a < out@.len() && 0 <= b < rem@.len() ==> rank_le(asc)(out@[a], rem@[b]),
            out@.len() + rem@.len() == v@.len(),
        decreases rem.len(),
    {
        let mut m: usize = 0;
        let mut t: usize = 1;
        while t < rem.len()
            invariant
                m < t <= rem@.len(),
                rem@.len() > 0,
                forall|j: int| 0 <= j < t ==> rank_le(asc)(rem@[m as int], rem@[j]),
            decreases rem@.len() - t,
        {
            if !rank_le_exec(rem[m], rem[t], asc) {
                proof {
                    assert(rank_le(asc)(rem@[t as int], rem@[m as int]));
                }
                m = t;
            }
            t += 1;
        }
        let ghost old_out = out@;
        let ghost old_rem = rem@;
        let x = rem.remove(m);
        out.push(x);
        proof {
            old_out.to_multiset_ensures();
            old_rem.to_multiset_ensures();
            assert(old_rem.to_multiset().count(x) >= 1) by {
                assert(old_rem[m as int] == x);
                assert(old_rem.contains(x));
            }
            assert(out@.to_multiset().add(rem@.to_multiset()) =~= v@.to_multiset()) by {
                assert(out@ == old_out.push(x));
                assert(out@.to_multiset() =~= old_out.to_multiset().insert(x));
                assert(rem@ == old_rem.remove(m as int));
                assert(rem@.to_multiset() =~= old_rem.to_multiset().remove(x));
            }
            assert(sorted_by(out@, rank_le(asc))) by {
                assert(forall|a: int, b: int|
                    0 <= a <= b < out@.len() ==> rank_le(asc)(out@[a], out@[b]));
            }
            assert forall|a: int, b: int|
                0 <= a < out@.len() && 0 <= b < rem@.len() implies rank_le(asc)(
                out@[a],
                rem@[b],
            ) by {
                assert(rem@[b] == old_rem.remove(m as int)[b]);
                if b < m {
                    assert(old_rem[b] == rem@[b]);
                } else {
                    assert(old_rem[b + 1] == rem@[b]);
                }
                assert(rank_le(asc)(x, rem@[b]));
            }
        }
    }
    proof {
        assert(forall|p: (i64, u64)| #[trigger] rem@.to_multiset().count(p) == 0) by {
            assert(forall|p: (i64, u64)| !rem@.contains(p));
        }
        assert(out@.to_multiset() =~= v@.to_multiset());
        assert(out@.to_multiset().len() == v@.to_multiset().len());
    }
    out
}

} // verus!
