//! What holds of the statistics as a whole: of any two quantiles of the same
//! data, of the two buckets of the filter together, and of every summary.
use vstd::prelude::*;
use crate::stats::Frac;

verus! {

/// The order of the samples does not matter to a quantile.
pub proof fn law_quantile_ignores_order(s: Seq<int>, t: Seq<int>, a: int, den: int)
    requires
        s.to_multiset() == t.to_multiset(),
    ensures
        crate::stats::quantile_num(s, a, den) == crate::stats::quantile_num(t, a, den),
{
    broadcast use vstd::seq_lib::group_to_multiset_ensures;

    assert(s.to_multiset().len() == s.len());
    assert(t.to_multiset().len() == t.len());
    crate::sort::lemma_sort(s);
    crate::sort::lemma_sort(t);
    crate::sort::lemma_sort_is(t, s.sort());
}

/// A higher quantile of the same data is no lower.
pub proof fn law_quantile_monotone(s: Seq<int>, a: int, b: int, den: int)
    requires
        0 <= a <= b <= den,
        den > 0,
    ensures
        crate::stats::quantile_num(s, a, den) <= crate::stats::quantile_num(s, b, den),
{
    if s.len() > 0 {
        let v = s.sort();
        crate::sort::lemma_sort(s);
        let n = v.len() as int;
        crate::stats::lemma_position(n, a, den);
        crate::stats::lemma_position(n, b, den);
        let pa = a * (n - 1);
        let pb = b * (n - 1);
        assert(pa <= pb) by (nonlinear_arith)
            requires
                pa == a * (n - 1),
                pb == b * (n - 1),
                0 <= a <= b,
                n > 0,
        ;
        vstd::arithmetic::div_mod::lemma_fundamental_div_mod(pa, den);
        vstd::arithmetic::div_mod::lemma_fundamental_div_mod(pb, den);
        let la = pa / den;
        let lb = pb / den;
        let ra = pa % den;
        let rb = pb % den;
        assert(la <= lb && (la == lb ==> ra <= rb)) by (nonlinear_arith)
            requires
                pa == den * la + ra,
                pb == den * lb + rb,
                0 <= ra < den,
                0 <= rb < den,
                pa <= pb,
        ;
        if la == lb {
            if rb != 0 {
                let step = v[la + 1] - v[la];
                assert(0 <= step * ra <= step * rb) by (nonlinear_arith)
                    requires
                        0 <= step,
                        0 <= ra <= rb,
                ;
            }
        } else {
            if ra != 0 {
                crate::stats::lemma_between(v[la], v[la + 1], ra, den);
            }
            let top = if ra != 0 {
                v[la + 1]
            } else {
                v[la]
            };
            assert(top <= v[lb]);
            assert(top * den <= v[lb] * den) by (nonlinear_arith)
                requires
                    top <= v[lb],
                    den > 0,
            ;
            if rb != 0 {
                crate::stats::lemma_between(v[lb], v[lb + 1], rb, den);
            }
        }
    }
}

/// The interquartile range is not negative.
pub proof fn law_iqr_not_negative(s: Seq<int>)
    ensures
        crate::stats::iqr4(s) >= 0,
{
    law_quantile_monotone(s, 1, 3, 4);
}

/// The least and the greatest sample bound every sample, and are samples.
pub proof fn law_extremes_bound(xs: Seq<i64>)
    requires
        xs.len() > 0,
    ensures
        xs.contains(crate::stats::least(xs)),
        xs.contains(crate::stats::greatest(xs)),
        forall|i: int|
            0 <= i < xs.len() ==> crate::stats::least(xs) <= #[trigger] xs[i]
                <= crate::stats::greatest(xs),
    decreases xs.len(),
{
    let rest = xs.drop_last();
    assert(xs[xs.len() - 1] == xs.last());
    if xs.len() > 1 {
        law_extremes_bound(rest);
        assert forall|x: i64| rest.contains(x) implies xs.contains(x) by {
            let i = choose|i: int| 0 <= i < rest.len() && rest[i] == x;
            assert(xs[i] == x);
        }
        assert forall|i: int| 0 <= i < xs.len() implies crate::stats::least(xs)
            <= #[trigger] xs[i] <= crate::stats::greatest(xs) by {
            if i < rest.len() {
                assert(rest[i] == xs[i]);
            }
        }
    }
}

/// The median of samples that survive lies between the least and the greatest
/// of them.
pub proof fn law_median_between_extremes(xs: Seq<i64>)
    requires
        xs.len() > 0,
    ensures
        2 * crate::stats::least(xs) <= crate::stats::median2(crate::stats::values(xs)) <= 2
            * crate::stats::greatest(xs),
{
    let s = crate::stats::values(xs);
    law_extremes_bound(xs);
    assert forall|i: int| 0 <= i < s.len() implies crate::stats::least(xs) as int
        <= #[trigger] s[i] <= crate::stats::greatest(xs) as int by {
        assert(s[i] == xs[i] as int);
    }
    crate::stats::law_quantile_within_data(
        s,
        1,
        2,
        crate::stats::least(xs) as int,
        crate::stats::greatest(xs) as int,
    );
}

proof fn lemma_select_parts(xs: Seq<i64>, mask: Seq<bool>)
    requires
        xs.len() == mask.len(),
    ensures
        crate::stats::select(xs, mask, true).len() + crate::stats::select(xs, mask, false).len()
            == xs.len(),
        crate::stats::select(xs, mask, true).to_multiset().add(
            crate::stats::select(xs, mask, false).to_multiset(),
        ) == xs.to_multiset(),
    decreases xs.len(),
{
    broadcast use vstd::seq_lib::group_to_multiset_ensures;

    let kept = crate::stats::select(xs, mask, true);
    let dropped = crate::stats::select(xs, mask, false);
    if xs.len() == 0 {
        assert(xs =~= Seq::<i64>::empty());
        assert(kept =~= xs && dropped =~= xs);
        assert(kept.to_multiset().len() == 0);
        assert(kept.to_multiset().add(dropped.to_multiset()) =~= xs.to_multiset());
    } else {
        lemma_select_parts(xs.drop_last(), mask.drop_last());
        assert(xs =~= xs.drop_last().push(xs.last()));
        assert(kept.to_multiset().add(dropped.to_multiset()) =~= xs.to_multiset());
    }
}

/// The filter loses nothing and adds nothing: the two buckets together are the
/// samples.
pub proof fn law_partition_is_complete(xs: Seq<i64>, k: Frac)
    ensures
        crate::stats::kept_of(xs, k).len() + crate::stats::dropped_of(xs, k).len() == xs.len(),
        crate::stats::kept_of(xs, k).to_multiset().add(
            crate::stats::dropped_of(xs, k).to_multiset(),
        ) == xs.to_multiset(),
{
    lemma_select_parts(xs, crate::stats::mask_of(xs, k));
}

proof fn lemma_select_members(xs: Seq<i64>, mask: Seq<bool>, want: bool, j: int) -> (i: int)
    requires
        xs.len() == mask.len(),
        0 <= j < crate::stats::select(xs, mask, want).len(),
    ensures
        0 <= i < xs.len(),
        mask[i] == want,
        xs[i] == crate::stats::select(xs, mask, want)[j],
    decreases xs.len(),
{
    let rest = crate::stats::select(xs.drop_last(), mask.drop_last(), want);
    if j < rest.len() {
        lemma_select_members(xs.drop_last(), mask.drop_last(), want, j)
    } else {
        xs.len() - 1
    }
}

/// Every kept sample passes the rule and every dropped one fails it.
pub proof fn law_partition_follows_the_rule(xs: Seq<i64>, k: Frac)
    ensures
        forall|j: int|
            0 <= j < crate::stats::kept_of(xs, k).len() ==> crate::stats::kept_by_rule(
                crate::stats::values(xs),
                k,
                #[trigger] crate::stats::kept_of(xs, k)[j] as int,
            ),
        forall|j: int|
            0 <= j < crate::stats::dropped_of(xs, k).len() ==> !crate::stats::kept_by_rule(
                crate::stats::values(xs),
                k,
                #[trigger] crate::stats::dropped_of(xs, k)[j] as int,
            ),
{
    let mask = crate::stats::mask_of(xs, k);
    assert forall|j: int|
        0 <= j < crate::stats::kept_of(xs, k).len() implies crate::stats::kept_by_rule(
        crate::stats::values(xs),
        k,
        #[trigger] crate::stats::kept_of(xs, k)[j] as int,
    ) by {
        let i = lemma_select_members(xs, mask, true, j);
        assert(mask[i]);
    }
    assert forall|j: int|
        0 <= j < crate::stats::dropped_of(xs, k).len() implies !crate::stats::kept_by_rule(
        crate::stats::values(xs),
        k,
        #[trigger] crate::stats::dropped_of(xs, k)[j] as int,
    ) by {
        let i = lemma_select_members(xs, mask, false, j);
        assert(!mask[i]);
    }
}

proof fn lemma_select_all(xs: Seq<i64>, mask: Seq<bool>)
    requires
        xs.len() == mask.len(),
        forall|i: int| 0 <= i < mask.len() ==> #[trigger] mask[i],
    ensures
        crate::stats::select(xs, mask, true) == xs,
        crate::stats::select(xs, mask, false).len() == 0,
    decreases xs.len(),
{
    if xs.len() > 0 {
        assert(mask[mask.len() - 1]);
        assert forall|i: int| 0 <= i < mask.drop_last().len() implies #[trigger] mask.drop_last()[i] by {
            assert(mask[i]);
        }
        lemma_select_all(xs.drop_last(), mask.drop_last());
        assert(xs =~= xs.drop_last().push(xs.last()));
    } else {
        assert(crate::stats::select(xs, mask, true) =~= xs);
    }
}

/// Fewer than three samples are too few to call anything an outlier.
pub proof fn law_few_samples_all_kept(xs: Seq<i64>, k: Frac)
    requires
        xs.len() < 3,
    ensures
        crate::stats::kept_of(xs, k) == xs,
        crate::stats::dropped_of(xs, k).len() == 0,
{
    lemma_select_all(xs, crate::stats::mask_of(xs, k));
}

/// Identical replicates are all kept, whatever the threshold.
pub proof fn law_identical_samples_all_kept(xs: Seq<i64>, k: Frac, x: i64)
    requires
        forall|i: int| 0 <= i < xs.len() ==> #[trigger] xs[i] == x,
    ensures
        crate::stats::kept_of(xs, k) == xs,
        crate::stats::dropped_of(xs, k).len() == 0,
{
    let s = crate::stats::values(xs);
    if xs.len() > 0 {
        assert forall|i: int| 0 <= i < s.len() implies x as int <= #[trigger] s[i] <= x as int by {
            assert(s[i] == xs[i] as int);
        }
        crate::stats::law_quantile_within_data(s, 1, 2, x as int, x as int);
        let d = crate::stats::deviations(s);
        assert forall|i: int| 0 <= i < d.len() implies 0 <= #[trigger] d[i] <= 0 by {
            assert(d[i] == crate::stats::abs(2 * s[i] - crate::stats::median2(s)));
        }
        crate::stats::law_quantile_within_data(d, 1, 2, 0, 0);
    }
    lemma_select_all(xs, crate::stats::mask_of(xs, k));
}

/// How many elements of `s` are at most `t`.
pub open spec fn count_up_to(s: Seq<int>, t: int) -> nat
    decreases s.len(),
{
    if s.len() == 0 {
        0
    } else {
        count_up_to(s.drop_last(), t) + (if s.last() <= t {
            1nat
        } else {
            0nat
        })
    }
}

pub proof fn lemma_count_of_multiset(s: Seq<int>, t: int)
    ensures
        count_up_to(s, t) == s.to_multiset().filter(|x: int| x <= t).len(),
    decreases s.len(),
{
    broadcast use vstd::seq_lib::group_to_multiset_ensures;
    broadcast use vstd::multiset::group_multiset_axioms;

    let f = |x: int| x <= t;
    if s.len() == 0 {
        assert(s.to_multiset().len() == 0);
        assert(s.to_multiset().filter(f).len() == 0) by {
            assert(s.to_multiset() =~= vstd::multiset::Multiset::<int>::empty());
            assert(s.to_multiset().filter(f) =~= vstd::multiset::Multiset::<int>::empty());
        }
    } else {
        let rest = s.drop_last();
        let x = s.last();
        lemma_count_of_multiset(rest, t);
        assert(s =~= rest.push(x));
        if x <= t {
            assert(s.to_multiset().filter(f) =~= rest.to_multiset().filter(f).insert(x));
        } else {
            assert(s.to_multiset().filter(f) =~= rest.to_multiset().filter(f));
        }
    }
}

pub proof fn lemma_count_of_prefix(v: Seq<int>, t: int, n: int)
    requires
        0 <= n <= v.len(),
        forall|i: int| 0 <= i < n ==> #[trigger] v[i] <= t,
    ensures
        count_up_to(v, t) >= n,
    decreases v.len(),
{
    if v.len() > 0 {
        if n == v.len() {
            assert(v[n - 1] <= t);
            lemma_count_of_prefix(v.drop_last(), t, n - 1);
        } else {
            lemma_count_of_prefix(v.drop_last(), t, n);
        }
    }
}

pub proof fn lemma_count_before_suffix(v: Seq<int>, t: int, n: int)
    requires
        0 <= n <= v.len(),
        forall|i: int| n <= i < v.len() ==> #[trigger] v[i] > t,
    ensures
        count_up_to(v, t) <= n,
    decreases v.len(),
{
    if v.len() > 0 {
        let last = v.len() - 1;
        if n == v.len() {
            lemma_count_before_suffix(v.drop_last(), t, n - 1);
        } else {
            assert(v[last] > t);
            lemma_count_before_suffix(v.drop_last(), t, n);
        }
    }
}

/// The value at a position of the ascending order has the values up to there at
/// or below it, and no more than the ones before it strictly below.
pub proof fn lemma_count_at_rank(s: Seq<int>, k: int)
    requires
        0 <= k < s.len(),
    ensures
        s.sort().len() == s.len(),
        count_up_to(s, s.sort()[k]) >= k + 1,
        count_up_to(s, s.sort()[k] - 1) <= k,
{
    let v = s.sort();
    crate::sort::lemma_sort(s);
    lemma_count_of_multiset(s, v[k]);
    lemma_count_of_multiset(v, v[k]);
    lemma_count_of_multiset(s, v[k] - 1);
    lemma_count_of_multiset(v, v[k] - 1);
    assert forall|i: int| 0 <= i < k + 1 implies #[trigger] v[i] <= v[k] by {}
    assert forall|i: int| k <= i < v.len() implies #[trigger] v[i] > v[k] - 1 by {}
    lemma_count_of_prefix(v, v[k], k + 1);
    lemma_count_before_suffix(v, v[k] - 1, k);
}

/// At least half of all the data lies at or below its median.
pub proof fn law_half_lies_below_the_median(s: Seq<int>, t: int)
    requires
        2 * t >= crate::stats::median2(s) - 1,
    ensures
        2 * count_up_to(s, t) >= s.len(),
{
    if s.len() > 0 {
        let v = s.sort();
        crate::sort::lemma_sort(s);
        lemma_count_of_multiset(s, t);
        lemma_count_of_multiset(v, t);
        let n = s.len() as int;
        crate::stats::lemma_position(n, 1, 2);
        let lo = (n - 1) / 2;
        assert((1 * (n - 1)) == n - 1);
        assert(2 * v[lo] <= crate::stats::median2(s)) by {
            if (n - 1) % 2 != 0 {
                assert(v[lo] <= v[lo + 1]);
            }
        }
        assert forall|i: int| 0 <= i < lo + 1 implies #[trigger] v[i] <= t by {
            assert(v[i] <= v[lo]);
        }
        lemma_count_of_prefix(v, t, lo + 1);
    }
}

proof fn lemma_select_counts(
    xs: Seq<i64>,
    mask: Seq<bool>,
    d: Seq<int>,
    t: int,
)
    requires
        xs.len() == mask.len() == d.len(),
        forall|i: int| 0 <= i < d.len() && #[trigger] d[i] <= t ==> mask[i],
    ensures
        crate::stats::select(xs, mask, true).len() >= count_up_to(d, t),
    decreases xs.len(),
{
    if xs.len() > 0 {
        let n = xs.len() - 1;
        assert(d[n] == d.last());
        assert forall|i: int|
            0 <= i < d.drop_last().len() && #[trigger] d.drop_last()[i] <= t implies mask.drop_last()[i] by {
            assert(d[i] <= t);
        }
        lemma_select_counts(xs.drop_last(), mask.drop_last(), d.drop_last(), t);
    }
}

/// With a threshold of at least one deviation, the filter keeps at least half
/// of the samples: it can only ever reject a minority.
pub proof fn law_filter_keeps_half(xs: Seq<i64>, k: Frac)
    requires
        k.wf(),
        k.num >= k.den,
    ensures
        2 * crate::stats::kept_of(xs, k).len() >= xs.len(),
{
    let s = crate::stats::values(xs);
    let mask = crate::stats::mask_of(xs, k);
    let d = crate::stats::deviations(s);
    let d4 = crate::stats::deviation4(s);
    if xs.len() < 3 || d4 == 0 {
        lemma_select_all(xs, mask);
    } else {
        crate::stats::lemma_deviation_bounds(xs);
        let t = d4 / 2;
        law_half_lies_below_the_median(d, t);
        assert forall|i: int| 0 <= i < d.len() && #[trigger] d[i] <= t implies mask[i] by {
            assert(d[i] == crate::stats::abs(2 * s[i] - crate::stats::median2(s)));
            assert(s[i] == xs[i] as int);
            let e = d[i];
            let num = k.num as int;
            let den = k.den as int;
            assert(e * (10000 * den) <= num * 7413 * d4) by (nonlinear_arith)
                requires
                    0 <= e,
                    2 * e <= d4,
                    0 < den <= num,
            ;
        }
        lemma_select_counts(xs, mask, d, t);
    }
}

/// A summary of nothing is never called stable, and neither is one of fewer
/// than three replicates: with too few points the spread is itself meaningless.
pub proof fn law_few_samples_never_stable(xs: Seq<i64>, k: Frac, target: Frac, max_outliers: Frac)
    requires
        xs.len() < 3,
    ensures
        !crate::stats::trustworthy(xs, k, target, max_outliers),
{
    law_partition_is_complete(xs, k);
}

/// Loosening the two tolerances never takes the stable flag away.
pub proof fn law_stable_is_monotone(
    xs: Seq<i64>,
    k: Frac,
    target: Frac,
    looser: Frac,
    max_outliers: Frac,
    more_outliers: Frac,
)
    requires
        target.wf(),
        looser.wf(),
        max_outliers.wf(),
        more_outliers.wf(),
        target.num * looser.den <= looser.num * target.den,
        max_outliers.num * more_outliers.den <= more_outliers.num * max_outliers.den,
        crate::stats::trustworthy(xs, k, target, max_outliers),
    ensures
        crate::stats::trustworthy(xs, k, looser, more_outliers),
{
    let kept = crate::stats::values(crate::stats::kept_of(xs, k));
    let rn = crate::stats::rel_num(kept);
    let rd = crate::stats::rel_den(kept);
    lemma_fraction_chain(
        rn,
        rd,
        target.num as int,
        target.den as int,
        looser.num as int,
        looser.den as int,
    );
    lemma_fraction_chain(
        crate::stats::dropped_of(xs, k).len() as int,
        xs.len() as int,
        max_outliers.num as int,
        max_outliers.den as int,
        more_outliers.num as int,
        more_outliers.den as int,
    );
}

proof fn lemma_fraction_chain(a: int, b: int, n: int, d: int, n2: int, d2: int)
    requires
        b >= 0,
        d > 0,
        d2 > 0,
        a * d <= n * b,
        n * d2 <= n2 * d,
    ensures
        a * d2 <= n2 * b,
{
    assert(a * d * d2 <= n * b * d2) by (nonlinear_arith)
        requires
            a * d <= n * b,
            d2 > 0,
    ;
    assert(n * d2 * b <= n2 * d * b) by (nonlinear_arith)
        requires
            n * d2 <= n2 * d,
            b >= 0,
    ;
    assert(a * d2 <= n2 * b) by (nonlinear_arith)
        requires
            a * d * d2 <= n * b * d2,
            n * d2 * b <= n2 * d * b,
            d > 0,
    ;
}

/// The median is the mean of the two middle values of the data in ascending
/// order, which are one and the same where their number is odd.
pub proof fn law_median_is_the_middle(s: Seq<int>, v: Seq<int>)
    requires
        s.len() > 0,
        v.to_multiset() == s.to_multiset(),
        forall|i: int, j: int| 0 <= i <= j < v.len() ==> v[i] <= v[j],
    ensures
        v.len() == s.len(),
        crate::stats::median2(s) == v[(s.len() - 1) / 2] + v[s.len() as int / 2],
{
    crate::sort::lemma_sort(s);
    crate::sort::lemma_sort_is(s, v);
    let n = s.len() as int;
    assert(1 * (n - 1) == n - 1);
    let lo = (n - 1) / 2;
    if (n - 1) % 2 == 0 {
        assert(n / 2 == lo);
        assert(crate::stats::interpolated(v, 1, 2) == v[lo] * 2);
    } else {
        assert(n / 2 == lo + 1);
        assert(crate::stats::interpolated(v, 1, 2) == v[lo] * 2 + (v[lo + 1] - v[lo]) * 1);
    }
}

/// A quantile lies on the straight line between the two values around its
/// position: with `a / den` of the way from the first to the last of `n` values
/// between the positions `i` and `i + 1`, it is their mean, weighted by how near
/// each of them is.
pub proof fn law_quantile_is_on_the_line(s: Seq<int>, v: Seq<int>, a: int, den: int, i: int)
    requires
        v.to_multiset() == s.to_multiset(),
        forall|k: int, j: int| 0 <= k <= j < v.len() ==> v[k] <= v[j],
        0 <= a <= den,
        den > 0,
        0 <= i,
        i + 1 < s.len(),
        i * den <= a * (s.len() - 1) <= (i + 1) * den,
    ensures
        v.len() == s.len(),
        crate::stats::quantile_num(s, a, den) == v[i] * ((i + 1) * den - a * (s.len() - 1)) + v[i
            + 1] * (a * (s.len() - 1) - i * den),
{
    crate::sort::lemma_sort(s);
    crate::sort::lemma_sort_is(s, v);
    let pos = a * (s.len() - 1);
    let lo = pos / den;
    let part = pos % den;
    vstd::arithmetic::div_mod::lemma_fundamental_div_mod(pos, den);
    assert(lo == i || (lo == i + 1 && part == 0)) by (nonlinear_arith)
        requires
            pos == den * lo + part,
            0 <= part < den,
            i * den <= pos <= (i + 1) * den,
            den > 0,
    ;
    let x = v[i];
    let y = v[i + 1];
    if lo == i {
        assert(x * den + (y - x) * part == x * ((i + 1) * den - pos) + y * (pos - i * den))
            by (nonlinear_arith)
            requires
                pos == den * i + part,
        ;
        if part == 0 {
            assert((y - x) * part == 0) by (nonlinear_arith)
                requires
                    part == 0,
            ;
        }
    } else {
        assert(y * den == x * ((i + 1) * den - pos) + y * (pos - i * den)) by (nonlinear_arith)
            requires
                pos == den * (i + 1),
        ;
    }
}

/// The quantile zero is the least value and the quantile one the greatest.
pub proof fn law_end_quantiles_are_extremes(xs: Seq<i64>, den: int)
    requires
        xs.len() > 0,
        den > 0,
    ensures
        crate::stats::quantile_num(crate::stats::values(xs), 0, den) == crate::stats::least(xs)
            * den,
        crate::stats::quantile_num(crate::stats::values(xs), den, den) == crate::stats::greatest(
            xs,
        ) * den,
{
    let s = crate::stats::values(xs);
    let v = s.sort();
    let n = s.len() as int;
    crate::sort::lemma_sort(s);
    law_extremes_bound(xs);
    assert(0 * (n - 1) == 0);
    assert((den * (n - 1)) / den == n - 1 && (den * (n - 1)) % den == 0) by {
        vstd::arithmetic::div_mod::lemma_div_multiples_vanish(n - 1, den);
        vstd::arithmetic::div_mod::lemma_mod_multiples_basic(n - 1, den);
        assert(den * (n - 1) == (n - 1) * den) by (nonlinear_arith);
    }
    assert(0int / den == 0 && 0int % den == 0) by {
        vstd::arithmetic::div_mod::lemma_div_multiples_vanish(0, den);
        vstd::arithmetic::div_mod::lemma_mod_multiples_basic(0, den);
        assert(den * 0 == 0 && 0 * den == 0);
    }
    let lo = crate::stats::least(xs);
    let hi = crate::stats::greatest(xs);
    let a = choose|a: int| 0 <= a < xs.len() && xs[a] == lo;
    let b = choose|b: int| 0 <= b < xs.len() && xs[b] == hi;
    assert(s[a] == lo && s[b] == hi);
    crate::sort::lemma_sort_member(s, a);
    crate::sort::lemma_sort_member(s, b);
    let c = choose|c: int| 0 <= c < v.len() && v[c] == s[a];
    let d = choose|d: int| 0 <= d < v.len() && v[d] == s[b];
    assert(v[0] <= v[c] && v[d] <= v[n - 1]);
    crate::sort::lemma_sort_member(s, 0);
    crate::sort::lemma_sort_member(s, n - 1);
    let e = choose|e: int| 0 <= e < s.len() && s[e] == v[0];
    let f = choose|f: int| 0 <= f < s.len() && s[f] == v[n - 1];
    assert(s[e] == xs[e] && s[f] == xs[f]);
}

/// The median deviation is the median of the distances from the median, whether
/// a value lies above or below it.
pub proof fn law_deviation_is_the_middle_distance(s: Seq<int>, d: Seq<int>)
    requires
        d.len() == s.len(),
        forall|i: int|
            0 <= i < s.len() ==> 0 <= #[trigger] d[i] && (d[i] == 2 * s[i] - crate::stats::median2(s)
                || d[i] == crate::stats::median2(s) - 2 * s[i]),
    ensures
        crate::stats::deviation4(s) == crate::stats::median2(d),
{
    assert(crate::stats::deviations(s) =~= d);
}

/// A sample is kept exactly where its distance from the median, in either
/// direction, is at most `k` times 1.4826 times the median distance; with fewer
/// than three samples, or where the median distance is zero, every one is.
pub proof fn law_filter_measures_the_distance(xs: Seq<i64>, k: Frac, i: int)
    requires
        k.wf(),
        0 <= i < xs.len(),
    ensures
        ({
            let m = crate::stats::median2(crate::stats::values(xs));
            let d = crate::stats::deviation4(crate::stats::values(xs));
            let reach = k.num * 14826 * d;
            crate::stats::mask_of(xs, k)[i] <==> {
                ||| xs.len() < 3
                ||| d == 0
                ||| {
                    &&& (2 * xs[i] - m) * 20000 * k.den <= reach
                    &&& (m - 2 * xs[i]) * 20000 * k.den <= reach
                }
            }
        }),
{
    let m = crate::stats::median2(crate::stats::values(xs));
    let d = crate::stats::deviation4(crate::stats::values(xs));
    let e = 2 * xs[i] - m;
    let a = crate::stats::abs(e);
    let den = k.den as int;
    let num = k.num as int;
    assert((a * (10000 * den) <= num * 7413 * d) <==> (e * 20000 * den <= num * 14826 * d && (-e)
        * 20000 * den <= num * 14826 * d)) by (nonlinear_arith)
        requires
            a == e || a == -e,
            a >= 0,
            den > 0,
    {
        assert((-e) * 20000 * den == -(e * 20000 * den));
        assert(num * 14826 * d == 2 * (num * 7413 * d));
        assert(e * 20000 * den == 2 * (e * (10000 * den)));
        assert((-e) * (10000 * den) == -(e * (10000 * den)));
        assert(a * (10000 * den) >= 0);
    }
    assert(2 * crate::stats::MAD_DEN * k.den == 10000 * den);
}

/// The data mirrored at `c / 2`, or moved by `c`.
pub open spec fn moved(s: Seq<int>, mirrored: bool, c: int) -> Seq<int> {
    s.map_values(
        |x: int|
            if mirrored {
                c - x
            } else {
                c + x
            },
    )
}

proof fn lemma_moved_counts(s: Seq<int>, mirrored: bool, c: int, y: int)
    ensures
        moved(s, mirrored, c).to_multiset().count(y) == s.to_multiset().count(
            if mirrored {
                c - y
            } else {
                y - c
            },
        ),
    decreases s.len(),
{
    broadcast use vstd::seq_lib::group_to_multiset_ensures;
    broadcast use vstd::multiset::group_multiset_axioms;

    let t = moved(s, mirrored, c);
    if s.len() > 0 {
        lemma_moved_counts(s.drop_last(), mirrored, c, y);
        assert(s =~= s.drop_last().push(s.last()));
        assert(t =~= moved(s.drop_last(), mirrored, c).push(t.last()));
    } else {
        assert(s =~= Seq::empty());
        assert(t =~= Seq::empty());
        assert(s.to_multiset().len() == 0);
        assert(t.to_multiset().len() == 0);
    }
}

proof fn lemma_moved_sort(s: Seq<int>, mirrored: bool, c: int)
    ensures
        moved(s, mirrored, c).sort() == (if mirrored {
            moved(s.sort(), true, c).reverse()
        } else {
            moved(s.sort(), false, c)
        }),
{
    let v = s.sort();
    let t = moved(s, mirrored, c);
    crate::sort::lemma_sort(s);
    let w = if mirrored {
        moved(v, true, c).reverse()
    } else {
        moved(v, false, c)
    };
    assert(w.to_multiset() =~= t.to_multiset()) by {
        moved(v, true, c).lemma_reverse_to_multiset();
        assert forall|y: int| #[trigger] w.to_multiset().count(y) == t.to_multiset().count(y) by {
            lemma_moved_counts(s, mirrored, c, y);
            lemma_moved_counts(v, mirrored, c, y);
        }
    }
    assert(crate::sort::ascending(w));
    crate::sort::lemma_sort_is(t, w);
}

/// The median goes with its data: mirrored data has the mirrored median, and
/// data that is moved has the median moved as far.
pub proof fn law_median_moves_along(s: Seq<int>, mirrored: bool, c: int)
    requires
        s.len() > 0,
    ensures
        crate::stats::median2(moved(s, mirrored, c)) == (if mirrored {
            2 * c - crate::stats::median2(s)
        } else {
            2 * c + crate::stats::median2(s)
        }),
{
    let v = s.sort();
    let t = moved(s, mirrored, c);
    let n = s.len() as int;
    crate::sort::lemma_sort(s);
    crate::sort::lemma_sort(t);
    lemma_moved_sort(s, mirrored, c);
    law_median_is_the_middle(s, v);
    law_median_is_the_middle(t, t.sort());
    assert(n - 1 - (n - 1) / 2 == n / 2);
    assert(n - 1 - n / 2 == (n - 1) / 2);
}

/// Where the data lies and which way it points does not matter to its spread.
pub proof fn law_deviation_stays(s: Seq<int>, mirrored: bool, c: int)
    ensures
        crate::stats::deviation4(moved(s, mirrored, c)) == crate::stats::deviation4(s),
        forall|i: int|
            0 <= i < s.len() ==> #[trigger] crate::stats::deviations(moved(s, mirrored, c))[i]
                == crate::stats::deviations(s)[i],
{
    let t = moved(s, mirrored, c);
    if s.len() > 0 {
        law_median_moves_along(s, mirrored, c);
    }
    assert(crate::stats::deviations(t) =~= crate::stats::deviations(s));
}

/// The filter treats both sides of the median alike, and does not care where
/// zero is: samples that are mirrored, negated for one, or moved as a whole have
/// the mask that they had.
pub proof fn law_filter_is_symmetric(
    xs: Seq<i64>,
    ys: Seq<i64>,
    k: Frac,
    mirrored: bool,
    c: int,
)
    requires
        ys.len() == xs.len(),
        forall|i: int|
            0 <= i < xs.len() ==> #[trigger] ys[i] == (if mirrored {
                c - xs[i]
            } else {
                c + xs[i]
            }),
    ensures
        crate::stats::mask_of(ys, k) == crate::stats::mask_of(xs, k),
{
    let s = crate::stats::values(xs);
    let t = crate::stats::values(ys);
    assert(t =~= moved(s, mirrored, c));
    law_deviation_stays(s, mirrored, c);
    assert forall|i: int| 0 <= i < xs.len() implies crate::stats::kept_by_rule(t, k, ys[i] as int)
        == crate::stats::kept_by_rule(s, k, xs[i] as int) by {
        assert(crate::stats::deviations(t)[i] == crate::stats::deviations(s)[i]);
        assert(t[i] == ys[i] && s[i] == xs[i]);
    }
    assert(crate::stats::mask_of(ys, k) =~= crate::stats::mask_of(xs, k));
}

/// A sample nearer to the median than one that is kept is kept too, on whichever
/// side of the median the two lie.
pub proof fn law_nearer_samples_are_kept(xs: Seq<i64>, k: Frac, i: int, j: int)
    requires
        k.wf(),
        0 <= i < xs.len(),
        0 <= j < xs.len(),
        crate::stats::mask_of(xs, k)[i],
        ({
            let m = crate::stats::median2(crate::stats::values(xs));
            let e = 2 * xs[i] - m;
            let f = 2 * xs[j] - m;
            (-e <= f <= e) || (e <= f <= -e)
        }),
    ensures
        crate::stats::mask_of(xs, k)[j],
{
    let m = crate::stats::median2(crate::stats::values(xs));
    let e = 2 * xs[i] - m;
    let f = 2 * xs[j] - m;
    let den = k.den as int;
    law_filter_measures_the_distance(xs, k, i);
    law_filter_measures_the_distance(xs, k, j);
    assert(f * 20000 * den <= e * 20000 * den || f * 20000 * den <= (-e) * 20000 * den)
        by (nonlinear_arith)
        requires
            f <= e || f <= -e,
            den > 0,
    ;
    assert((-f) * 20000 * den <= e * 20000 * den || (-f) * 20000 * den <= (-e) * 20000 * den)
        by (nonlinear_arith)
        requires
            -f <= e || -f <= -e,
            den > 0,
    ;
}

/// The interquartile range of `4 * m + 1` values is the distance between the
/// values at the positions `m` and `3 * m` of their ascending order.
pub proof fn law_quartiles_of_whole_positions(s: Seq<int>, v: Seq<int>, m: int)
    requires
        m >= 0,
        s.len() == 4 * m + 1,
        v.to_multiset() == s.to_multiset(),
        forall|i: int, j: int| 0 <= i <= j < v.len() ==> v[i] <= v[j],
    ensures
        v.len() == s.len(),
        crate::stats::iqr4(s) == 4 * (v[3 * m] - v[m]),
{
    crate::sort::lemma_sort(s);
    crate::sort::lemma_sort_is(s, v);
    assert(3 * (s.len() - 1) == 12 * m);
    assert(1 * (s.len() - 1) == 4 * m);
}

proof fn lemma_quarters(v: Seq<int>, i: int, part: int)
    requires
        0 <= part < 4,
    ensures
        part == 0 ==> (v[i + 1] - v[i]) * part == 0,
        part == 1 ==> (v[i + 1] - v[i]) * part == v[i + 1] - v[i],
        part == 2 ==> (v[i + 1] - v[i]) * part == 2 * (v[i + 1] - v[i]),
        part == 3 ==> (v[i + 1] - v[i]) * part == 3 * (v[i + 1] - v[i]),
{
}

/// The spread of the quartiles stays where the data is mirrored or moved.
pub proof fn law_iqr_stays(s: Seq<int>, mirrored: bool, c: int)
    ensures
        crate::stats::iqr4(moved(s, mirrored, c)) == crate::stats::iqr4(s),
{
    let t = moved(s, mirrored, c);
    let n = s.len() as int;
    if n > 0 {
        let v = s.sort();
        let w = t.sort();
        crate::sort::lemma_sort(s);
        crate::sort::lemma_sort(t);
        lemma_moved_sort(s, mirrored, c);
        let a = n - 1;
        assert(1 * a == a);
        let l = a / 4;
        let p = a % 4;
        let h = (3 * a) / 4;
        let q = (3 * a) % 4;
        assert(p == 0 ==> h == a - l && q == 0);
        assert(p != 0 ==> h == a - l - 1 && q == 4 - p);
        lemma_quarters(v, l, p);
        lemma_quarters(w, l, p);
        lemma_quarters(v, h, q);
        lemma_quarters(w, h, q);
        if mirrored {
            assert(forall|i: int| 0 <= i < n ==> #[trigger] w[i] == c - v[n - 1 - i]);
        }
    }
}

/// The relative spread is the interquartile range over the median, both without
/// their sign; it is zero where the median is.
pub proof fn law_relative_spread(s: Seq<int>)
    ensures
        crate::stats::rel_num(s) >= 0,
        crate::stats::rel_den(s) > 0,
        crate::stats::median2(s) == 0 ==> crate::stats::rel_num(s) == 0,
        crate::stats::median2(s) > 0 ==> crate::stats::rel_num(s) * crate::stats::median2(s) * 2
            == crate::stats::iqr4(s) * crate::stats::rel_den(s),
        crate::stats::median2(s) < 0 ==> crate::stats::rel_num(s) * -crate::stats::median2(s) * 2
            == crate::stats::iqr4(s) * crate::stats::rel_den(s),
{
    law_iqr_not_negative(s);
    let m = crate::stats::median2(s);
    let q = crate::stats::iqr4(s);
    assert(q * m * 2 == q * (2 * m)) by (nonlinear_arith);
    assert(q * (-m) * 2 == q * (2 * (-m))) by (nonlinear_arith);
}

/// What a relative spread is held against: the samples that the filter keeps are
/// tight exactly where their interquartile range is at most the target's share
/// of their median, both without their sign. Where the median is zero any target
/// that is not negative will do.
pub proof fn law_tight_is_a_share_of_the_median(xs: Seq<i64>, k: Frac, target: Frac)
    ensures
        ({
            let kept = crate::stats::values(crate::stats::kept_of(xs, k));
            let m = crate::stats::median2(kept);
            let q = crate::stats::iqr4(kept);
            crate::stats::tight(xs, k, target) <==> if m == 0 {
                target.num >= 0
            } else if m > 0 {
                q * target.den <= target.num * (2 * m)
            } else {
                q * target.den <= target.num * (2 * -m)
            }
        }),
{
    law_iqr_not_negative(crate::stats::values(crate::stats::kept_of(xs, k)));
}

/// A cell is trusted exactly where three samples at least are left, they are
/// tight, and the rejected ones are at most the tolerated share of all.
pub proof fn law_stable_has_three_reasons(
    xs: Seq<i64>,
    k: Frac,
    target: Frac,
    max_outliers: Frac,
)
    ensures
        crate::stats::trustworthy(xs, k, target, max_outliers) <==> {
            &&& xs.len() - crate::stats::dropped_of(xs, k).len() >= 3
            &&& crate::stats::tight(xs, k, target)
            &&& (xs.len() - crate::stats::kept_of(xs, k).len()) * max_outliers.den
                <= max_outliers.num * xs.len()
        },
{
    law_partition_is_complete(xs, k);
}

/// The sum of the squares of the elements.
pub open spec fn squares_of(s: Seq<int>) -> int
    decreases s.len(),
{
    if s.len() == 0 {
        0
    } else {
        squares_of(s.drop_last()) + s.last() * s.last()
    }
}

proof fn lemma_squared_distances(s: Seq<int>, n: int, total: int)
    ensures
        crate::stats::squared_distances(s, n, total) == n * n * squares_of(s) - 2 * n * total
            * crate::stats::total_of(s) + s.len() * (total * total),
    decreases s.len(),
{
    if s.len() > 0 {
        let rest = s.drop_last();
        lemma_squared_distances(rest, n, total);
        let x = s.last();
        let q = squares_of(rest);
        let t = crate::stats::total_of(rest);
        let l = rest.len() as int;
        assert(n * n * q - 2 * n * total * t + l * (total * total) + (n * x - total) * (n * x
            - total) == n * n * (q + x * x) - 2 * n * total * (t + x) + (l + 1) * (total * total))
            by (nonlinear_arith);
    }
}

/// The squared coefficient of variation is the sample variance over the squared
/// mean: with `n` elements, their sum `t` and the sum `q` of their squares, it
/// is `n * (n * q - t * t)` over `(n - 1) * t * t`.
pub proof fn law_variation_is_variance_over_mean(s: Seq<int>)
    ensures
        ({
            let n = s.len() as int;
            let t = crate::stats::total_of(s);
            let q = squares_of(s);
            if n >= 2 && t != 0 {
                &&& crate::stats::cv2_num(s) == n * (n * q - t * t)
                &&& crate::stats::cv2_den(s) == (n - 1) * t * t
            } else {
                &&& crate::stats::cv2_num(s) == 0
                &&& crate::stats::cv2_den(s) == 1
            }
        }),
{
    let n = s.len() as int;
    let t = crate::stats::total_of(s);
    let q = squares_of(s);
    lemma_squared_distances(s, n, t);
    assert(n * n * q - 2 * n * t * t + n * (t * t) == n * (n * q - t * t)) by (nonlinear_arith);
    assert((n - 1) * (t * t) == (n - 1) * t * t) by (nonlinear_arith);
}

/// The sum of data in two parts is the sum of both, and that of one element is
/// the element.
pub proof fn law_total_is_a_sum(s: Seq<int>, t: Seq<int>, x: int)
    ensures
        crate::stats::total_of(s + t) == crate::stats::total_of(s) + crate::stats::total_of(t),
        crate::stats::total_of(seq![x]) == x,
    decreases t.len(),
{
    assert(seq![x].drop_last() =~= Seq::<int>::empty());
    assert(crate::stats::total_of(Seq::<int>::empty()) == 0);
    if t.len() == 0 {
        assert(s + t =~= s);
    } else {
        law_total_is_a_sum(s, t.drop_last(), x);
        assert((s + t).drop_last() =~= s + t.drop_last());
    }
}

/// The middle of counts is the whole part of the mean of the two middle ones in
/// ascending order.
pub proof fn law_middle_is_the_whole_part(xs: Seq<u64>, v: Seq<int>)
    requires
        xs.len() > 0,
        v.to_multiset() == xs.map_values(|x: u64| x as int).to_multiset(),
        forall|i: int, j: int| 0 <= i <= j < v.len() ==> v[i] <= v[j],
    ensures
        ({
            let sum = v[(xs.len() - 1) / 2] + v[xs.len() as int / 2];
            2 * crate::stats::middle_of(xs) <= sum <= 2 * crate::stats::middle_of(xs) + 1
        }),
{
    assert(crate::stats::counts(xs) =~= xs.map_values(|x: u64| x as int));
    law_median_is_the_middle(crate::stats::counts(xs), v);
}

/// The two buckets of the filter keep the order of the samples: a bucket of what
/// is in front and what is behind is the two buckets one after the other, and one
/// sample is in the bucket of its own flag alone.
pub proof fn law_selection_keeps_the_order(
    xs: Seq<i64>,
    ys: Seq<i64>,
    a: Seq<bool>,
    b: Seq<bool>,
    want: bool,
    x: i64,
)
    requires
        xs.len() == a.len(),
        ys.len() == b.len(),
    ensures
        crate::stats::select(xs + ys, a + b, want) == crate::stats::select(xs, a, want)
            + crate::stats::select(ys, b, want),
        crate::stats::select(seq![x], seq![want], want) == seq![x],
        crate::stats::select(seq![x], seq![!want], want).len() == 0,
    decreases ys.len(),
{
    assert(seq![x].drop_last() =~= Seq::<i64>::empty());
    assert(seq![want].last() == want && seq![!want].last() == !want);
    reveal_with_fuel(crate::stats::select, 2);
    assert(crate::stats::select(seq![x], seq![want], want) =~= seq![x]);
    if ys.len() == 0 {
        assert(xs + ys =~= xs);
        assert(a + b =~= a);
        assert(crate::stats::select(xs, a, want) + crate::stats::select(ys, b, want)
            =~= crate::stats::select(xs, a, want));
    } else {
        law_selection_keeps_the_order(xs, ys.drop_last(), a, b.drop_last(), want, x);
        assert((xs + ys).drop_last() =~= xs + ys.drop_last());
        assert((a + b).drop_last() =~= a + b.drop_last());
        assert(crate::stats::select(xs + ys, a + b, want) =~= crate::stats::select(xs, a, want)
            + crate::stats::select(ys, b, want));
    }
}

/// A fraction is held to what lies between nothing and the whole: one in between
/// stays, one below is nothing and one above is the whole.
pub proof fn law_fractions_are_held(num: int, den: int)
    requires
        den > 0,
    ensures
        0 <= crate::stats::clamped(num, den) <= den,
        0 <= num <= den ==> crate::stats::clamped(num, den) == num,
        num < 0 ==> crate::stats::clamped(num, den) == 0,
        num > den ==> crate::stats::clamped(num, den) == den,
{
}

/// The deviation is scaled by 1.4826, the factor for normal data.
pub proof fn law_scale_is_that_of_normal_data()
    ensures
        crate::stats::MAD_NUM * 10000 == 14826 * crate::stats::MAD_DEN,
        crate::stats::MAD_DEN > 0,
{
}

/// A looser threshold keeps all that a tighter one does.
pub proof fn law_looser_threshold_keeps_more(xs: Seq<i64>, k: Frac, looser: Frac, i: int)
    requires
        k.wf(),
        looser.wf(),
        k.num * looser.den <= looser.num * k.den,
        0 <= i < xs.len(),
        crate::stats::mask_of(xs, k)[i],
    ensures
        crate::stats::mask_of(xs, looser)[i],
{
    law_filter_measures_the_distance(xs, k, i);
    law_filter_measures_the_distance(xs, looser, i);
    crate::stats::lemma_deviation_bounds(xs);
    let m = crate::stats::median2(crate::stats::values(xs));
    let d = crate::stats::deviation4(crate::stats::values(xs));
    if xs.len() >= 3 && d != 0 {
        lemma_looser(2 * xs[i] - m, d, k.num as int, k.den as int, looser.num as int, looser.den as int);
        lemma_looser(m - 2 * xs[i], d, k.num as int, k.den as int, looser.num as int, looser.den as int);
    }
}

proof fn lemma_looser(e: int, d: int, n: int, q: int, n2: int, q2: int)
    requires
        d >= 0,
        q > 0,
        q2 > 0,
        n * q2 <= n2 * q,
        e * 20000 * q <= n * 14826 * d,
    ensures
        e * 20000 * q2 <= n2 * 14826 * d,
{
    let a = e * 20000;
    let b = 14826 * d;
    assert(n * 14826 * d == n * b) by (nonlinear_arith)
        requires
            b == 14826 * d,
    ;
    assert(n2 * 14826 * d == n2 * b) by (nonlinear_arith)
        requires
            b == 14826 * d,
    ;
    assert(a * q * q2 <= n * b * q2) by (nonlinear_arith)
        requires
            a * q <= n * b,
            q2 > 0,
    ;
    assert(n * q2 * b <= n2 * q * b) by (nonlinear_arith)
        requires
            n * q2 <= n2 * q,
            b >= 0,
    ;
    assert(a * q2 <= n2 * b) by (nonlinear_arith)
        requires
            a * q * q2 <= n * b * q2,
            n * q2 * b <= n2 * q * b,
            q > 0,
    ;
}

/// A summary has its coefficient of variation wherever the machine's integers hold
/// it, and it is the right one.
pub proof fn law_variation_is_given_where_it_fits(r: Option<crate::stats::Ratio>, s: Seq<int>)
    requires
        crate::stats::is_cv_squared(r, s),
    ensures
        crate::stats::cv2_num(s) <= i128::MAX && crate::stats::cv2_den(s) <= u128::MAX
            ==> r is Some,
        r matches Some(q) ==> q.num == crate::stats::cv2_num(s) && q.den == crate::stats::cv2_den(s),
{
}

/// Without a sample there is nothing to estimate: every quantile, the spread, the
/// extremes and the middle are zero.
pub proof fn law_nothing_is_zero(a: int, den: int)
    ensures
        crate::stats::quantile_num(Seq::empty(), a, den) == 0,
        crate::stats::median2(Seq::empty()) == 0,
        crate::stats::iqr4(Seq::empty()) == 0,
        crate::stats::deviation4(Seq::empty()) == 0,
        crate::stats::least(Seq::empty()) == 0,
        crate::stats::greatest(Seq::empty()) == 0,
        crate::stats::middle_of(Seq::empty()) == 0,
{
    assert(crate::stats::counts(Seq::empty()).len() == 0);
    assert(crate::stats::deviations(Seq::empty()).len() == 0);
}

} // verus!
