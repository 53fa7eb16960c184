use stats::Commute;
use stats::Frequencies;
use stats::MinMax;
use stats::OnlineStats;
use stats::Unsorted;
use stats::merge_all;

// A float's sort key: an order-preserving encoding of the finite values,
// with every NaN collapsed to one fixed key, as the total-order wrapper
// asks of its callers.
fn key_of(x: f64) -> i64 {
    if x.is_nan() {
        i64::MAX
    } else {
        let b = x.to_bits() as i64;
        b ^ ((((b >> 63) as u64) >> 1) as i64)
    }
}

fn float_of(k: i64) -> f64 {
    let b = k ^ ((((k >> 63) as u64) >> 1) as i64);
    f64::from_bits(b as u64)
}

fn keys(v: Vec<f64>) -> Vec<i64> {
    v.into_iter().map(key_of).collect()
}

fn fmode(v: Vec<f64>) -> Option<f64> {
    stats::mode(&keys(v)).map(float_of)
}

// Exact for inputs whose two middle values share an exponent, as here.
fn fmedian(v: Vec<f64>) -> Option<f64> {
    stats::median(&keys(v)).map(|(num, den)| float_of((num / den) as i64))
}

fn imedian(v: Vec<i64>) -> Option<f64> {
    stats::median(&v).map(|(num, den)| num as f64 / den as f64)
}

#[test]
fn median_stream() {
    assert_eq!(imedian(vec![3, 5, 7, 9]), Some(6.0));
    assert_eq!(imedian(vec![3, 5, 7]), Some(5.0));
}

#[test]
fn mode_stream() {
    assert_eq!(stats::mode(&vec![3, 5, 7, 9]), None);
    assert_eq!(stats::mode(&vec![3, 3, 3, 3]), Some(3));
    assert_eq!(stats::mode(&vec![3, 3, 3, 4]), Some(3));
    assert_eq!(stats::mode(&vec![4, 3, 3, 3]), Some(3));
    assert_eq!(stats::mode(&vec![1, 1, 2, 3, 3]), None);
}

#[test]
fn median_floats() {
    assert_eq!(fmedian(vec![3.0f64, 5.0, 7.0, 9.0]), Some(6.0));
    assert_eq!(fmedian(vec![3.0f64, 5.0, 7.0]), Some(5.0));
}

#[test]
fn mode_floats() {
    assert_eq!(fmode(vec![3.0f64, 5.0, 7.0, 9.0]), None);
    assert_eq!(fmode(vec![3.0f64, 3.0, 3.0, 3.0]), Some(3.0));
    assert_eq!(fmode(vec![3.0f64, 3.0, 3.0, 4.0]), Some(3.0));
    assert_eq!(fmode(vec![4.0f64, 3.0, 3.0, 3.0]), Some(3.0));
    assert_eq!(fmode(vec![1.0f64, 1.0, 2.0, 3.0, 3.0]), None);
}

#[test]
fn ranked() {
    let mut counts = Frequencies::new();
    counts.extend(&vec![1, 1, 2, 2, 2, 2, 2, 3, 4, 4, 4]);
    assert_eq!(counts.most_frequent()[0], (2, 5));
    assert_eq!(counts.least_frequent()[0], (3, 1));
}

#[test]
fn minmax() {
    let minmax = MinMax::from_vec(&vec![1, 4, 2, 3, 10]);
    assert_eq!(minmax.min(), Some(1));
    assert_eq!(minmax.max(), Some(10));
}

#[test]
fn minmax_merge_empty() {
    let mut mx1 = MinMax::from_vec(&vec![1, 4, 2, 3, 10]);
    assert_eq!(mx1.min(), Some(1));
    assert_eq!(mx1.max(), Some(10));

    mx1.merge(MinMax::default());
    assert_eq!(mx1.min(), Some(1));
    assert_eq!(mx1.max(), Some(10));
}

fn stddev_of(s: &OnlineStats) -> f64 {
    let (num, den) = s.variance();
    (num as f64 / den as f64).sqrt()
}

#[test]
fn stddev() {
    let expected = OnlineStats::from_slice(&vec![1, 2, 3, 2, 4, 6]);

    let var1 = OnlineStats::from_slice(&vec![1, 2, 3]);
    let var2 = OnlineStats::from_slice(&vec![2, 4, 6]);
    let mut got = var1;
    got.merge(var2);
    assert_eq!(expected.variance(), got.variance());
    assert_eq!(stddev_of(&expected), stddev_of(&got));
}

#[test]
fn stddev_many() {
    let expected = OnlineStats::from_slice(&vec![1, 2, 3, 2, 4, 6, 3, 6, 9]);

    let vars = vec![
        OnlineStats::from_slice(&vec![1, 2, 3]),
        OnlineStats::from_slice(&vec![2, 4, 6]),
        OnlineStats::from_slice(&vec![3, 6, 9]),
    ];
    let got = merge_all(vars).unwrap();
    assert_eq!(expected.variance(), got.variance());
    assert_eq!(stddev_of(&expected), stddev_of(&got));
}

#[test]
fn merge_all_empty_is_absent() {
    assert!(merge_all(Vec::<MinMax>::new()).is_none());
    assert!(merge_all(Vec::<OnlineStats>::new()).is_none());
}

#[test]
fn merge_all_singleton_is_identity() {
    let single = merge_all(vec![MinMax::from_vec(&vec![5, 2, 9])]).unwrap();
    assert_eq!(single.min(), Some(2));
    assert_eq!(single.max(), Some(9));
}

#[test]
fn minmax_merge_concat() {
    let mut left = MinMax::from_vec(&vec![4, 7, 1]);
    left.merge(MinMax::from_vec(&vec![9, 3]));
    let whole = MinMax::from_vec(&vec![4, 7, 1, 9, 3]);
    assert_eq!(left.min(), whole.min());
    assert_eq!(left.max(), whole.max());
}

#[test]
fn minmax_merge_commutes() {
    let mut ab = MinMax::from_vec(&vec![4, 7]);
    ab.merge(MinMax::from_vec(&vec![1, 9]));
    let mut ba = MinMax::from_vec(&vec![1, 9]);
    ba.merge(MinMax::from_vec(&vec![4, 7]));
    assert_eq!(ab.min(), ba.min());
    assert_eq!(ab.max(), ba.max());
}

#[test]
fn minmax_empty_is_absent() {
    let empty = MinMax::new();
    assert_eq!(empty.min(), None);
    assert_eq!(empty.max(), None);
}

#[test]
fn frequencies_merge_sums_counts() {
    let mut left = Frequencies::from_vec(&vec![1, 2, 2, 3]);
    left.merge(Frequencies::from_vec(&vec![2, 3, 4]));
    let whole = Frequencies::from_vec(&vec![1, 2, 2, 3, 2, 3, 4]);
    for key in 0..6 {
        assert_eq!(left.count(key), whole.count(key));
    }
    assert_eq!(left.cardinality(), 4);
    assert_eq!(left.count(2), 3);
    assert_eq!(left.count(5), 0);
}

#[test]
fn frequencies_merge_commutes() {
    let mut ab = Frequencies::from_vec(&vec![1, 1, 2]);
    ab.merge(Frequencies::from_vec(&vec![2, 3]));
    let mut ba = Frequencies::from_vec(&vec![2, 3]);
    ba.merge(Frequencies::from_vec(&vec![1, 1, 2]));
    for key in 0..5 {
        assert_eq!(ab.count(key), ba.count(key));
    }
}

#[test]
fn frequencies_ranked_full_order() {
    let mut counts = Frequencies::new();
    counts.extend(&vec![1, 1, 2, 2, 2, 2, 2, 3, 4, 4, 4]);
    assert_eq!(counts.most_frequent(), vec![(2, 5), (4, 3), (1, 2), (3, 1)]);
    assert_eq!(counts.least_frequent(), vec![(3, 1), (1, 2), (4, 3), (2, 5)]);
}

#[test]
fn online_stats_mean_exact() {
    let s = OnlineStats::from_slice(&vec![1, 2, 3]);
    assert_eq!(s.len(), 3);
    assert_eq!(s.mean(), (6, 3));
    assert_eq!(s.variance(), (3 * 14 - 36, 9));
}

#[test]
fn online_stats_empty_is_zero() {
    let s = OnlineStats::new();
    assert_eq!(s.len(), 0);
    assert_eq!(s.mean(), (0, 1));
    assert_eq!(s.variance(), (0, 1));
}

#[test]
fn online_stats_merge_empty_is_identity() {
    let mut s = OnlineStats::from_slice(&vec![1, 2, 3]);
    s.merge(OnlineStats::new());
    assert_eq!(s.mean(), (6, 3));
    assert_eq!(s.variance(), OnlineStats::from_slice(&vec![1, 2, 3]).variance());
}

#[test]
fn unsorted_repeated_queries_stable() {
    let mut u = Unsorted::from_vec(&vec![9, 1, 5, 3]);
    let first = u.median();
    let second = u.median();
    assert_eq!(first, second);
    assert_eq!(first, Some((3 + 5, 2)));
    let m1 = u.mode();
    let m2 = u.mode();
    assert_eq!(m1, m2);
    assert_eq!(m1, None);
    assert_eq!(u.len(), 4);
}

#[test]
fn unsorted_merge_defers_sort() {
    let mut left = Unsorted::from_vec(&vec![5, 1]);
    left.merge(Unsorted::from_vec(&vec![3]));
    assert_eq!(left.len(), 3);
    assert_eq!(left.median(), Some((6, 2)));
    let whole = stats::median(&vec![5, 1, 3]);
    assert_eq!(whole, Some((6, 2)));
}

#[test]
fn unsorted_cardinality_counts_distinct() {
    let u = Unsorted::from_vec(&vec![1, 1, 2, 3, 3, 3]);
    assert_eq!(u.cardinality(), 3);
    assert_eq!(Unsorted::new().cardinality(), 0);
}

#[test]
fn unsorted_clear_empties() {
    let mut u = Unsorted::from_vec(&vec![1, 2]);
    u.clear();
    assert_eq!(u.len(), 0);
    assert_eq!(u.median(), None);
    assert_eq!(u.mode(), None);
}

#[test]
fn unsorted_add_and_extend() {
    let mut u = Unsorted::new();
    u.add(7);
    u.extend(&vec![5, 7]);
    assert_eq!(u.len(), 3);
    assert_eq!(u.mode(), Some(7));
    assert_eq!(u.median(), Some((14, 2)));
}

#[test]
fn partial_orders_by_key() {
    let a = stats::Partial(1);
    let b = stats::Partial(2);
    assert!(a.le(&b));
    assert!(!b.le(&a));
    assert!(a.le(&a));
}

#[test]
fn frequencies_add_one_by_one() {
    let mut counts = Frequencies::new();
    counts.add(4);
    counts.add(4);
    counts.add(9);
    assert_eq!(counts.count(4), 2);
    assert_eq!(counts.count(9), 1);
    assert_eq!(counts.cardinality(), 2);
    assert_eq!(counts.most_frequent()[0], (4, 2));
}

#[test]
fn minmax_add_updates_bounds() {
    let mut mm = MinMax::new();
    mm.add(5);
    mm.add(-2);
    mm.add(3);
    assert_eq!(mm.min(), Some(-2));
    assert_eq!(mm.max(), Some(5));
}
