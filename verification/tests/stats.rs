use zmq_arena::config::{
    default_mad_k, default_max_outlier_frac, default_max_replicates, default_min_replicates,
    default_target_rel_iqr, default_warmup_replicates, Replication,
};
use zmq_arena::stats::{
    cv_squared, hampel_mask, hampel_partition, iqr, mad, median, middle, quantile, Frac, Ratio,
    Stability,
};

// Samples are counts of a tenth.
const UNIT: f64 = 10.0;

fn fixed(xs: &[f64]) -> Vec<i64> {
    xs.iter().map(|x| (x * UNIT).round() as i64).collect()
}

fn value(r: Ratio) -> f64 {
    r.num as f64 / r.den as f64 / UNIT
}

fn frac(num: i32, den: u32) -> Frac {
    Frac { num, den }
}

#[test]
fn quantile_matches_type7() {
    let xs = fixed(&[1.0, 2.0, 3.0, 4.0]);
    assert_eq!(value(median(&xs)), 2.5);
    assert!((value(quantile(&xs, frac(1, 4))) - 1.75).abs() < 1e-9);
    assert!((value(quantile(&xs, frac(3, 4))) - 3.25).abs() < 1e-9);
}

#[test]
fn hampel_rejects_lone_spike() {
    let xs = fixed(&[100.0, 101.0, 99.0, 100.5, 5000.0]);
    let (kept, dropped) = hampel_partition(&xs, frac(3, 1));
    assert_eq!(dropped, fixed(&[5000.0]));
    assert_eq!(kept.len(), 4);
}

#[test]
fn identical_counts_keep_all() {
    let xs = fixed(&[42.0, 42.0, 42.0, 42.0]);
    let (kept, dropped) = hampel_partition(&xs, frac(3, 1));
    assert!(dropped.is_empty());
    assert_eq!(kept.len(), 4);
}

#[test]
fn summarize_flags_stable_and_unstable() {
    let tight = Stability::summarize(
        &fixed(&[100.0, 101.0, 99.0, 100.5, 100.2]),
        frac(3, 1),
        frac(1, 20),
        frac(1, 4),
    );
    assert!(tight.stable);
    assert_eq!(tight.outliers_dropped, 0);

    let noisy = Stability::summarize(
        &fixed(&[100.0, 180.0, 60.0, 140.0, 90.0]),
        frac(3, 1),
        frac(1, 20),
        frac(1, 4),
    );
    assert!(!noisy.stable);
}

#[test]
fn heavy_outlier_rejection_is_not_called_stable() {
    let s = Stability::summarize(
        &fixed(&[6756.0, 7018.0, 6716.0, 11378.0, 15530.0]),
        frac(3, 1),
        frac(1, 20),
        frac(1, 4),
    );
    assert_eq!(s.outliers_dropped, 2);
    assert!(!s.stable, "40% dropped should void the stable flag");
}

#[test]
fn empty_is_safe() {
    let s = Stability::summarize(&fixed(&[]), frac(3, 1), frac(1, 20), frac(1, 4));
    assert_eq!(s.n, 0);
    assert_eq!(value(s.median), 0.0);
    assert!(!s.stable);
}

#[test]
fn quantile_is_held_to_the_unit_interval() {
    let xs = [7, 3, 5];
    assert_eq!(quantile(&xs, frac(-3, 4)), Ratio { num: 3 * 4, den: 4 });
    assert_eq!(quantile(&xs, frac(9, 4)), Ratio { num: 7 * 4, den: 4 });
    assert_eq!(quantile(&[11], frac(1, 3)), Ratio { num: 33, den: 3 });
}

#[test]
fn quantile_ignores_the_order_of_the_samples() {
    let a = quantile(&[9, -4, 2, 30, 8], frac(1, 3));
    let b = quantile(&[30, 8, 9, 2, -4], frac(1, 3));
    assert_eq!(a, b);
    // Position 4/3 of the way: 2 + (8 - 2) / 3 = 4.
    assert_eq!(a, Ratio { num: 12, den: 3 });
}

#[test]
fn quantile_rises_with_its_share() {
    let xs = [5, -5, 10, 0, 7, 7];
    let mut last = quantile(&xs, frac(0, 20)).num;
    for k in 1..=20 {
        let q = quantile(&xs, frac(k, 20)).num;
        assert!(last <= q);
        last = q;
    }
}

#[test]
fn spread_of_a_known_sample() {
    // Median 3, distances 2 1 0 1 2, their median 1: 1.4826.
    assert_eq!(mad(&[1, 2, 3, 4, 5]), Ratio { num: 4 * 7413, den: 20000 });
    assert_eq!(iqr(&[1, 2, 3, 4, 5]), Ratio { num: 8, den: 4 });
    assert_eq!(iqr(&[i64::MIN, i64::MAX]).num, (i64::MAX as i128 - i64::MIN as i128) * 2);
}

#[test]
fn few_samples_are_all_kept() {
    assert_eq!(hampel_mask(&[1, 1_000_000], frac(3, 1)), vec![true, true]);
    assert_eq!(hampel_mask(&[], frac(3, 1)), Vec::<bool>::new());
}

#[test]
fn a_zero_threshold_keeps_only_the_median() {
    assert_eq!(hampel_mask(&[1, 2, 3], frac(0, 1)), vec![false, true, false]);
    assert_eq!(hampel_mask(&[1, 2, 3], frac(-1, 1)), vec![false, false, false]);
}

#[test]
fn the_filter_loses_nothing_and_keeps_half() {
    let xs = [10, 11, 9, 500, 10, -500, 12, 480];
    let (kept, dropped) = hampel_partition(&xs, frac(1, 1));
    let mut both: Vec<i64> = kept.iter().chain(dropped.iter()).copied().collect();
    let mut all = xs.to_vec();
    both.sort_unstable();
    all.sort_unstable();
    assert_eq!(both, all);
    assert!(2 * kept.len() >= xs.len());
}

#[test]
fn a_summary_in_numbers() {
    let s = Stability::summarize(&[104, 100, 96, 9000], frac(3, 1), frac(1, 20), frac(1, 4));
    assert_eq!((s.n, s.replicates, s.outliers_dropped), (3, 4, 1));
    assert_eq!(s.median, Ratio { num: 200, den: 2 });
    assert_eq!(s.iqr, Ratio { num: 16, den: 4 });
    assert_eq!(s.mad, Ratio { num: 4 * 4 * 7413, den: 20000 });
    assert_eq!((s.min, s.max), (96, 104));
    assert_eq!(s.rel_iqr, Ratio { num: 16, den: 400 });
    assert!(s.stable);
    assert_eq!(s.samples, vec![104, 100, 96, 9000]);
}

#[test]
fn a_summary_of_nothing_and_of_zeros() {
    let s = Stability::summarize(&[], frac(3, 1), frac(1, 20), frac(1, 4));
    assert_eq!((s.n, s.replicates, s.outliers_dropped, s.min, s.max), (0, 0, 0, 0, 0));
    assert_eq!((median(&[]).num, mad(&[]).num, iqr(&[]).num), (0, 0, 0));
    assert_eq!(s.rel_iqr, Ratio { num: 0, den: 1 });
    let z = Stability::summarize(&[0, 0, 0], frac(3, 1), frac(0, 1), frac(0, 1));
    assert_eq!(z.rel_iqr, Ratio { num: 0, den: 1 });
    assert!(z.stable);
}

#[test]
fn looser_tolerances_keep_the_flag() {
    let xs = [100, 105, 95, 102, 98];
    let strict = Stability::summarize(&xs, frac(3, 1), frac(1, 20), frac(1, 4));
    let loose = Stability::summarize(&xs, frac(3, 1), frac(1, 10), frac(1, 2));
    assert!(strict.stable);
    assert!(loose.stable);
    assert!(!Stability::summarize(&xs, frac(3, 1), frac(1, 40), frac(1, 4)).stable);
}

#[test]
fn two_samples_are_never_stable() {
    assert!(!Stability::summarize(&[5, 5], frac(3, 1), frac(1, 1), frac(1, 1)).stable);
}

#[test]
fn the_replication_policy_defaults() {
    let r = Replication::default();
    assert_eq!(r.min_replicates, 5);
    assert_eq!(r.max_replicates, 11);
    assert_eq!(r.warmup_replicates, 1);
    assert_eq!(r.target_rel_iqr, frac(1, 20));
    assert_eq!(r.mad_k, frac(3, 1));
    assert_eq!(r.max_outlier_frac, frac(1, 4));
    assert_eq!(default_min_replicates(), r.min_replicates);
    assert_eq!(default_max_replicates(), r.max_replicates);
    assert_eq!(default_warmup_replicates(), r.warmup_replicates);
    assert_eq!(default_target_rel_iqr(), r.target_rel_iqr);
    assert_eq!(default_mad_k(), r.mad_k);
    assert_eq!(default_max_outlier_frac(), r.max_outlier_frac);
}

#[test]
fn the_middle_of_counts() {
    assert_eq!(middle(&[]), 0);
    assert_eq!(middle(&[7]), 7);
    assert_eq!(middle(&[9, 2]), 5);
    assert_eq!(middle(&[5, 1, 3]), 3);
    assert_eq!(middle(&[u64::MAX, u64::MAX]), u64::MAX);
}

#[test]
fn the_coefficient_of_variation() {
    // Mean 2.5, variance 5/3.
    assert_eq!(cv_squared(&[1, 2, 3, 4]), Some(Ratio { num: 80, den: 300 }));
    assert_eq!(cv_squared(&[-1, -2, -3, -4]), Some(Ratio { num: 80, den: 300 }));
    for xs in [&[][..], &[5], &[-3, 3], &[0, 0, 0]] {
        assert_eq!(cv_squared(xs), Some(Ratio { num: 0, den: 1 }));
    }
    assert_eq!(cv_squared(&[7, 7, 7]).map(|r| r.num), Some(0));
    assert_eq!(cv_squared(&[i64::MIN, i64::MIN, i64::MIN]), None);
    assert_eq!(cv_squared(&[i64::MIN, i64::MAX, i64::MAX]), None);
    // Of the samples that survive: the spike does not count.
    let s = Stability::summarize(&[104, 100, 96, 9000], frac(3, 1), frac(1, 20), frac(1, 4));
    assert_eq!(s.cv_squared, cv_squared(&[104, 100, 96]));
    assert_eq!(s.n + s.outliers_dropped, s.replicates);
}
