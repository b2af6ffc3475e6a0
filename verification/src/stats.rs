//! Robust summary statistics for replicated measurements.
//!
//! A single benchmark run is one noisy draw. Each cell is replicated and the
//! draws are reduced with estimators that resist outliers instead of chasing
//! them: the median for central tendency, the interquartile range and the
//! median absolute deviation for spread, and a Hampel filter that rejects the
//! replicates a background transient spiked, before the final estimate is
//! taken.
//!
//! A sample is an integer count of a fixed small unit, and every statistic is
//! computed exactly, as a quotient of integers in that same unit. "No data" is
//! an empty slice, on which every statistic is zero.
use vstd::prelude::*;
use crate::sort::sort;

verus! {

/// A fraction that tunes a statistic: a quantile, a threshold, a share.
#[derive(Clone, Copy, Debug, PartialEq, Eq, Structural)]
pub struct Frac {
    pub num: i32,
    pub den: u32,
}

impl Frac {
    /// A fraction divides by something.
    pub open spec fn wf(self) -> bool {
        self.den > 0
    }
}

/// An exact result: `num / den`.
#[derive(Clone, Copy, Debug, PartialEq, Eq, Structural)]
pub struct Ratio {
    pub num: i128,
    pub den: u128,
}

impl Ratio {
    pub open spec fn wf(self) -> bool {
        self.den > 0
    }
}

/// The samples as mathematical integers.
pub open spec fn values(xs: Seq<i64>) -> Seq<int> {
    xs.map_values(|x: i64| x as int)
}

pub open spec fn abs(x: int) -> int {
    if x < 0 {
        -x
    } else {
        x
    }
}

/// `num / den` held to `0..=1`, times `den`.
pub open spec fn clamped(num: int, den: int) -> int {
    if num <= 0 {
        0
    } else if num >= den {
        den
    } else {
        num
    }
}

/// `den` times the value between the elements of the ascending `v` at the
/// position `a / den` of the way from the first to the last, on the straight
/// line between the two elements around it.
pub open spec fn interpolated(v: Seq<int>, a: int, den: int) -> int {
    let pos = a * (v.len() - 1);
    let lo = pos / den;
    let part = pos % den;
    if part == 0 {
        v[lo] * den
    } else {
        v[lo] * den + (v[lo + 1] - v[lo]) * part
    }
}

/// `den` times the quantile `a / den` of `s` ("type 7", linear interpolation
/// between order statistics), zero where there is no data.
pub open spec fn quantile_num(s: Seq<int>, a: int, den: int) -> int {
    if s.len() == 0 {
        0
    } else {
        interpolated(s.sort(), a, den)
    }
}

/// Twice the median of `s`.
pub open spec fn median2(s: Seq<int>) -> int {
    quantile_num(s, 1, 2)
}

/// Twice the distance of each element from the median.
pub open spec fn deviations(s: Seq<int>) -> Seq<int> {
    let m = median2(s);
    s.map_values(|x: int| abs(2 * x - m))
}

/// Four times the median distance from the median.
pub open spec fn deviation4(s: Seq<int>) -> int {
    median2(deviations(s))
}

/// Four times the interquartile range.
pub open spec fn iqr4(s: Seq<int>) -> int {
    quantile_num(s, 3, 4) - quantile_num(s, 1, 4)
}

/// The factor that turns a median absolute deviation into an estimate of the
/// standard deviation of normal data, 1.4826, as `MAD_NUM / MAD_DEN`.
pub const MAD_NUM: i128 = 7413;

pub const MAD_DEN: i128 = 5000;

/// Whether the sample `x` is within `k` scaled deviations of the median.
pub open spec fn within(s: Seq<int>, k: Frac, x: int) -> bool {
    abs(2 * x - median2(s)) * (2 * MAD_DEN * k.den) <= k.num * MAD_NUM * deviation4(s)
}

/// The Hampel rule: an element is kept unless it lies more than `k` scaled
/// deviations from the median; with fewer than three elements, or where the
/// deviation is zero, all are kept.
pub open spec fn kept_by_rule(s: Seq<int>, k: Frac, x: int) -> bool {
    s.len() < 3 || deviation4(s) == 0 || within(s, k, x)
}

/// The elements whose flag is `want`, in their order.
pub open spec fn select(xs: Seq<i64>, mask: Seq<bool>, want: bool) -> Seq<i64>
    decreases xs.len(),
{
    if xs.len() == 0 || mask.len() != xs.len() {
        Seq::<i64>::empty()
    } else {
        let rest = select(xs.drop_last(), mask.drop_last(), want);
        if mask.last() == want {
            rest.push(xs.last())
        } else {
            rest
        }
    }
}

/// The flags of the Hampel rule.
pub open spec fn mask_of(xs: Seq<i64>, k: Frac) -> Seq<bool> {
    Seq::new(xs.len(), |i: int| kept_by_rule(values(xs), k, xs[i] as int))
}

/// The samples that the Hampel rule keeps.
pub open spec fn kept_of(xs: Seq<i64>, k: Frac) -> Seq<i64> {
    select(xs, mask_of(xs, k), true)
}

/// The samples that the Hampel rule rejects.
pub open spec fn dropped_of(xs: Seq<i64>, k: Frac) -> Seq<i64> {
    select(xs, mask_of(xs, k), false)
}

// What the arithmetic below has to fit: a sample has 64 bits, twice its
// distance from twice the median 67 at most.
spec fn bound() -> int {
    0x4_0000_0000_0000_0000_0000
}

spec fn bounded(s: Seq<int>) -> bool {
    forall|i: int| 0 <= i < s.len() ==> -bound() <= #[trigger] s[i] <= bound()
}

pub proof fn lemma_position(n: int, a: int, den: int)
    requires
        n > 0,
        0 <= a <= den,
        den > 0,
    ensures
        0 <= (a * (n - 1)) / den <= n - 1,
        0 <= (a * (n - 1)) % den < den,
        (a * (n - 1)) % den != 0 ==> (a * (n - 1)) / den + 1 <= n - 1,
{
    let pos = a * (n - 1);
    assert(0 <= pos <= den * (n - 1)) by (nonlinear_arith)
        requires
            pos == a * (n - 1),
            n > 0,
            0 <= a <= den,
    ;
    vstd::arithmetic::div_mod::lemma_fundamental_div_mod(pos, den);
    let lo = pos / den;
    let part = pos % den;
    assert(0 <= lo <= n - 1 && (part != 0 ==> lo + 1 <= n - 1)) by (nonlinear_arith)
        requires
            pos == den * lo + part,
            0 <= part < den,
            0 <= pos <= den * (n - 1),
    ;
}

/// A quantile lies between the two elements around its position.
pub proof fn lemma_between(x: int, y: int, part: int, den: int)
    requires
        x <= y,
        0 <= part <= den,
    ensures
        x * den <= x * den + (y - x) * part <= y * den,
{
    assert(0 <= (y - x) * part <= (y - x) * den) by (nonlinear_arith)
        requires
            x <= y,
            0 <= part <= den,
    ;
    assert((y - x) * den == y * den - x * den) by (nonlinear_arith);
}

fn quantile_of_sorted(v: &Vec<i128>, a: u32, den: u32) -> (r: i128)
    requires
        v@.len() > 0,
        a <= den,
        den > 0,
        crate::sort::ascending(crate::sort::ints(v@)),
        bounded(crate::sort::ints(v@)),
    ensures
        r == interpolated(crate::sort::ints(v@), a as int, den as int),
{
    let ghost s = crate::sort::ints(v@);
    let n: u128 = v.len() as u128;
    proof {
        lemma_position(v@.len() as int, a as int, den as int);
        assert(0 <= a * (v@.len() - 1) <= 0xffff_ffff * 0xffff_ffff_ffff_ffff) by (nonlinear_arith)
            requires
                0 <= a <= 0xffff_ffff,
                0 < v@.len() <= 0xffff_ffff_ffff_ffff,
        ;
    }
    let pos: u128 = a as u128 * (n - 1);
    let lo: usize = (pos / den as u128) as usize;
    let part: i128 = (pos % den as u128) as i128;
    let x: i128 = v[lo];
    assert(s[lo as int] == x);
    assert(-bound() * 0xffff_ffff <= x * den <= bound() * 0xffff_ffff) by (nonlinear_arith)
        requires
            -bound() <= x <= bound(),
            0 < den <= 0xffff_ffff,
    ;
    let base: i128 = x * den as i128;
    if part == 0 {
        base
    } else {
        let y: i128 = v[lo + 1];
        assert(s[lo + 1] == y);
        assert(s[lo as int] <= s[lo + 1]);
        proof {
            lemma_between(x as int, y as int, part as int, den as int);
            assert(y * den <= bound() * 0xffff_ffff) by (nonlinear_arith)
                requires
                    y <= bound(),
                    0 < den <= 0xffff_ffff,
            ;
        }
        base + (y - x) * part
    }
}

/// `den` times the quantile `a / den` of `v`.
fn quantile_of(v: &Vec<i128>, a: u32, den: u32) -> (r: i128)
    requires
        a <= den,
        den > 0,
        bounded(crate::sort::ints(v@)),
    ensures
        r == quantile_num(crate::sort::ints(v@), a as int, den as int),
{
    if v.len() == 0 {
        return 0;
    }
    let sorted = sort(v);
    proof {
        let s = crate::sort::ints(v@);
        crate::sort::lemma_sort(s);
        assert forall|i: int| 0 <= i < s.sort().len() implies -bound() <= #[trigger] s.sort()[i]
            <= bound() by {
            crate::sort::lemma_sort_member(s, i);
        }
    }
    quantile_of_sorted(&sorted, a, den)
}

fn widened(xs: &[i64]) -> (r: Vec<i128>)
    ensures
        crate::sort::ints(r@) == values(xs@),
        r@.len() == xs@.len(),
        forall|i: int| 0 <= i < xs@.len() ==> r@[i] == xs@[i],
{
    let mut r: Vec<i128> = Vec::new();
    let mut i: usize = 0;
    while i < xs.len()
        invariant
            i <= xs@.len(),
            r@.len() == i,
            forall|k: int| 0 <= k < i ==> r@[k] == xs@[k],
        decreases xs@.len() - i,
    {
        r.push(xs[i] as i128);
        i += 1;
    }
    assert(crate::sort::ints(r@) =~= values(xs@));
    r
}

/// Linear-interpolated quantile of the samples, `q` held to `0..=1`. Zero for
/// an empty slice.
pub fn quantile(xs: &[i64], q: Frac) -> (r: Ratio)
    requires
        q.wf(),
    ensures
        r.den == q.den,
        r.num == quantile_num(values(xs@), clamped(q.num as int, q.den as int), q.den as int),
{
    let a: u32 = if q.num <= 0 {
        0
    } else if q.num as u32 >= q.den {
        q.den
    } else {
        q.num as u32
    };
    let v = widened(xs);
    Ratio { num: quantile_of(&v, a, q.den), den: q.den as u128 }
}

/// Median (the one-half quantile).
pub fn median(xs: &[i64]) -> (r: Ratio)
    ensures
        r.den == 2,
        r.num == median2(values(xs@)),
{
    quantile(xs, Frac { num: 1, den: 2 })
}

/// Counts as mathematical integers.
pub open spec fn counts(xs: Seq<u64>) -> Seq<int> {
    xs.map_values(|x: u64| x as int)
}

/// The whole part of the median of counts, zero where there are none.
pub open spec fn middle_of(xs: Seq<u64>) -> int {
    median2(counts(xs)) / 2
}

/// The whole part of the median of counts, zero where there are none.
pub fn middle(xs: &[u64]) -> (r: u64)
    ensures
        r == middle_of(xs@),
{
    let mut v: Vec<i128> = Vec::new();
    let mut i: usize = 0;
    while i < xs.len()
        invariant
            i <= xs@.len(),
            v@.len() == i,
            forall|k: int| 0 <= k < i ==> v@[k] == xs@[k],
        decreases xs@.len() - i,
    {
        v.push(xs[i] as i128);
        i += 1;
    }
    let ghost s = counts(xs@);
    assert(crate::sort::ints(v@) =~= s);
    let m: i128 = quantile_of(&v, 1, 2);
    proof {
        if s.len() > 0 {
            law_quantile_within_data(s, 1, 2, 0, u64::MAX as int);
        }
    }
    (m / 2) as u64
}

/// Median of numbers that are wider than samples.
pub fn wide_median(xs: &Vec<i128>) -> (r: Ratio)
    requires
        forall|i: int|
            0 <= i < xs@.len() ==> -0x1_0000_0000_0000_0000_0000_0000_0000 <= #[trigger] xs@[i]
                <= 0x1_0000_0000_0000_0000_0000_0000_0000,
    ensures
        r.den == 2,
        r.num == median2(crate::sort::ints(xs@)),
{
    if xs.len() == 0 {
        return Ratio { num: 0, den: 2 };
    }
    let v = sort(xs);
    let ghost s = crate::sort::ints(xs@);
    let last: usize = v.len() - 1;
    let lo: usize = last / 2;
    proof {
        crate::sort::lemma_sort(s);
        assert forall|i: int| 0 <= i < v@.len() implies
            -0x1_0000_0000_0000_0000_0000_0000_0000 <= #[trigger] v@[i]
            <= 0x1_0000_0000_0000_0000_0000_0000_0000 by {
            assert(s.sort()[i] == v@[i]);
            crate::sort::lemma_sort_member(s, i);
            let k = choose|k: int| 0 <= k < s.len() && s[k] == s.sort()[i];
            assert(s[k] == xs@[k]);
        }
        assert(s.sort()[lo as int] == v@[lo as int]);
    }
    let ghost t = s.sort();
    assert(1 * (t.len() - 1) == last);
    if last % 2 == 0 {
        assert(interpolated(t, 1, 2) == t[lo as int] * 2);
        Ratio { num: 2 * v[lo], den: 2 }
    } else {
        assert(t[lo + 1] == v@[lo + 1]);
        assert(interpolated(t, 1, 2) == t[lo as int] * 2 + (t[lo + 1] - t[lo as int]) * 1);
        Ratio { num: v[lo] + v[lo + 1], den: 2 }
    }
}

/// A quantile lies within any bounds that all the data lies within.
pub proof fn law_quantile_within_data(s: Seq<int>, a: int, den: int, low: int, high: int)
    requires
        s.len() > 0,
        0 <= a <= den,
        den > 0,
        forall|i: int| 0 <= i < s.len() ==> low <= #[trigger] s[i] <= high,
    ensures
        low * den <= quantile_num(s, a, den) <= high * den,
{
    let v = s.sort();
    crate::sort::lemma_sort(s);
    lemma_position(s.len() as int, a, den);
    let pos = a * (v.len() - 1);
    let lo = pos / den;
    let part = pos % den;
    crate::sort::lemma_sort_member(s, lo);
    assert(low <= v[lo] <= high) by {
        let i = choose|i: int| 0 <= i < s.len() && s[i] == v[lo];
        assert(low <= s[i] <= high);
    }
    assert(low * den <= v[lo] * den && v[lo] * den <= high * den) by (nonlinear_arith)
        requires
            low <= v[lo] <= high,
            den > 0,
    ;
    if part != 0 {
        crate::sort::lemma_sort_member(s, lo + 1);
        assert(v[lo + 1] <= high) by {
            let i = choose|i: int| 0 <= i < s.len() && s[i] == v[lo + 1];
            assert(low <= s[i] <= high);
        }
        lemma_between(v[lo], v[lo + 1], part, den);
        assert(v[lo + 1] * den <= high * den) by (nonlinear_arith)
            requires
                v[lo + 1] <= high,
                den > 0,
        ;
    }
}

proof fn lemma_median2_bounds(xs: Seq<i64>)
    ensures
        -0x1_0000_0000_0000_0000 <= median2(values(xs)) <= 0x1_0000_0000_0000_0000,
{
    let s = values(xs);
    if s.len() > 0 {
        law_quantile_within_data(s, 1, 2, i64::MIN as int, i64::MAX as int);
    }
}

pub proof fn lemma_deviation_bounds(xs: Seq<i64>)
    ensures
        deviations(values(xs)).len() == xs.len(),
        forall|i: int|
            0 <= i < xs.len() ==> 0 <= #[trigger] deviations(values(xs))[i]
                <= 0x2_0000_0000_0000_0000,
        0 <= deviation4(values(xs)) <= 0x4_0000_0000_0000_0000,
{
    let d = deviations(values(xs));
    lemma_median2_bounds(xs);
    assert forall|i: int| 0 <= i < xs.len() implies 0 <= #[trigger] d[i]
        <= 0x2_0000_0000_0000_0000 by {
        assert(d[i] == abs(2 * values(xs)[i] - median2(values(xs))));
        assert(values(xs)[i] == xs[i] as int);
    }
    if d.len() > 0 {
        law_quantile_within_data(d, 1, 2, 0, 0x2_0000_0000_0000_0000);
    }
}

/// Twice the distances from the median, given twice the median.
fn distances(xs: &[i64], m: i128) -> (r: Vec<i128>)
    requires
        m == median2(values(xs@)),
    ensures
        crate::sort::ints(r@) == deviations(values(xs@)),
        r@.len() == xs@.len(),
        bounded(crate::sort::ints(r@)),
{
    let mut r: Vec<i128> = Vec::new();
    let mut i: usize = 0;
    proof {
        lemma_median2_bounds(xs@);
    }
    while i < xs.len()
        invariant
            i <= xs@.len(),
            r@.len() == i,
            m == median2(values(xs@)),
            -0x1_0000_0000_0000_0000 <= m <= 0x1_0000_0000_0000_0000,
            forall|k: int| 0 <= k < i ==> r@[k] == abs(2 * xs@[k] - m),
        decreases xs@.len() - i,
    {
        let d: i128 = 2 * (xs[i] as i128) - m;
        let a: i128 = if d < 0 {
            -d
        } else {
            d
        };
        r.push(a);
        i += 1;
    }
    proof {
        assert(crate::sort::ints(r@) =~= deviations(values(xs@)));
        lemma_deviation_bounds(xs@);
    }
    r
}

/// Four times the median distance from the median.
fn quadruple_deviation(xs: &[i64], m: i128) -> (d: i128)
    requires
        m == median2(values(xs@)),
    ensures
        d == deviation4(values(xs@)),
        0 <= d <= 0x4_0000_0000_0000_0000,
{
    let dev = distances(xs, m);
    proof {
        lemma_deviation_bounds(xs@);
    }
    quantile_of(&dev, 1, 2)
}

/// Median absolute deviation, scaled by 1.4826 so that it estimates the
/// standard deviation of normally distributed data. This is the dispersion that
/// the Hampel filter thresholds on.
pub fn mad(xs: &[i64]) -> (r: Ratio)
    ensures
        r.num == MAD_NUM * deviation4(values(xs@)),
        r.den == 4 * MAD_DEN,
{
    let m: i128 = median(xs).num;
    let d: i128 = quadruple_deviation(xs, m);
    Ratio { num: MAD_NUM * d, den: 20000 }
}

/// Interquartile range, the three-quarter quantile less the one-quarter one.
pub fn iqr(xs: &[i64]) -> (r: Ratio)
    ensures
        r.num == iqr4(values(xs@)),
        r.den == 4,
        -0x4_0000_0000_0000_0000 <= r.num <= 0x4_0000_0000_0000_0000,
{
    let hi: i128 = quantile(xs, Frac { num: 3, den: 4 }).num;
    let lo: i128 = quantile(xs, Frac { num: 1, den: 4 }).num;
    proof {
        let s = values(xs@);
        if s.len() > 0 {
            law_quantile_within_data(s, 3, 4, i64::MIN as int, i64::MAX as int);
            law_quantile_within_data(s, 1, 4, i64::MIN as int, i64::MAX as int);
        }
    }
    Ratio { num: hi - lo, den: 4 }
}

/// The sum of the elements.
pub open spec fn total_of(s: Seq<int>) -> int
    decreases s.len(),
{
    if s.len() == 0 {
        0
    } else {
        total_of(s.drop_last()) + s.last()
    }
}

/// The sum of the squared distances of `n` times each element from `total`.
pub open spec fn squared_distances(s: Seq<int>, n: int, total: int) -> int
    decreases s.len(),
{
    if s.len() == 0 {
        0
    } else {
        let d = n * s.last() - total;
        squared_distances(s.drop_last(), n, total) + d * d
    }
}

/// The numerator of the squared coefficient of variation: the sum of the squared
/// distances from the mean, scaled by the squared number of elements. Zero with
/// fewer than two elements, or where the mean is zero.
pub open spec fn cv2_num(s: Seq<int>) -> int {
    if s.len() < 2 || total_of(s) == 0 {
        0
    } else {
        squared_distances(s, s.len() as int, total_of(s))
    }
}

/// The denominator of the squared coefficient of variation: the squared mean,
/// scaled alike, times one less than the number of elements. One with fewer than
/// two elements, or where the mean is zero.
pub open spec fn cv2_den(s: Seq<int>) -> int {
    if s.len() < 2 || total_of(s) == 0 {
        1
    } else {
        (s.len() - 1) * (total_of(s) * total_of(s))
    }
}

/// Whether a ratio, if there is one, is the squared coefficient of variation;
/// there is none exactly where it takes more than the machine's integers.
pub open spec fn is_cv_squared(r: Option<Ratio>, s: Seq<int>) -> bool {
    match r {
        Some(q) => q.num == cv2_num(s) && q.den == cv2_den(s),
        None => cv2_num(s) > i128::MAX || cv2_den(s) > u128::MAX,
    }
}

fn total(xs: &[i64]) -> (r: i128)
    ensures
        r == total_of(values(xs@)),
        -0x8000_0000_0000_0000 * xs@.len() <= r <= 0x8000_0000_0000_0000 * xs@.len(),
{
    let mut sum: i128 = 0;
    let mut i: usize = 0;
    let ghost s = values(xs@);
    assert(s.take(0) =~= Seq::empty());
    while i < xs.len()
        invariant
            i <= xs@.len(),
            s == values(xs@),
            sum == total_of(s.take(i as int)),
            -0x8000_0000_0000_0000 * i <= sum <= 0x8000_0000_0000_0000 * i,
        decreases xs@.len() - i,
    {
        assert(s.take(i + 1).drop_last() =~= s.take(i as int));
        assert(s.take(i + 1).last() == xs@[i as int]);
        sum = sum + xs[i] as i128;
        i += 1;
    }
    assert(s.take(xs@.len() as int) =~= s);
    sum
}

// How far apart two numbers are, where that is below the square root of what a
// machine integer holds.
fn gap(p: i128, q: i128) -> (r: Option<u128>)
    ensures
        match r {
            Some(d) => d == abs(p - q) && d < 0x1_0000_0000_0000_0000,
            None => abs(p - q) >= 0x1_0000_0000_0000_0000,
        },
{
    let (lo, hi) = if p <= q {
        (p, q)
    } else {
        (q, p)
    };
    if lo <= i128::MAX - 0x1_0000_0000_0000_0000 && hi >= lo + 0x1_0000_0000_0000_0000 {
        None
    } else {
        Some((hi - lo) as u128)
    }
}

proof fn lemma_squares_grow(s: Seq<int>, n: int, total: int, i: int)
    requires
        0 <= i <= s.len(),
    ensures
        0 <= squared_distances(s.take(i), n, total) <= squared_distances(s, n, total),
    decreases s.len(),
{
    if s.len() == 0 {
        assert(s.take(i) =~= s);
    } else {
        let d = n * s.last() - total;
        assert(d * d >= 0) by (nonlinear_arith);
        let rest = s.drop_last();
        if i < s.len() {
            lemma_squares_grow(rest, n, total, i);
            assert(rest.take(i) =~= s.take(i));
        } else {
            lemma_squares_grow(rest, n, total, rest.len() as int);
            assert(rest.take(rest.len() as int) =~= rest);
            assert(s.take(i) =~= s);
        }
    }
}

proof fn lemma_far_squares(d: int)
    requires
        abs(d) >= 0x1_0000_0000_0000_0000,
    ensures
        d * d > u128::MAX,
{
    assert(d * d >= 0x1_0000_0000_0000_0000 * 0x1_0000_0000_0000_0000) by (nonlinear_arith)
        requires
            d >= 0x1_0000_0000_0000_0000 || d <= -0x1_0000_0000_0000_0000,
    ;
}

fn squares(xs: &[i64], total: i128) -> (r: Option<i128>)
    ensures
        match r {
            Some(q) => q == squared_distances(values(xs@), xs@.len() as int, total as int),
            None => squared_distances(values(xs@), xs@.len() as int, total as int) > i128::MAX,
        },
{
    let ghost s = values(xs@);
    let n: i128 = xs.len() as i128;
    let mut sum: u128 = 0;
    let mut i: usize = 0;
    assert(s.take(0) =~= Seq::empty());
    while i < xs.len()
        invariant
            i <= xs@.len(),
            s == values(xs@),
            n == xs@.len(),
            sum == squared_distances(s.take(i as int), n as int, total as int),
            sum <= i128::MAX,
        decreases xs@.len() - i,
    {
        let x: i128 = xs[i] as i128;
        proof {
            assert(s.take(i + 1).drop_last() =~= s.take(i as int));
            assert(s.take(i + 1).last() == x);
            lemma_squares_grow(s, n as int, total as int, i + 1);
            assert(-0xffff_ffff_ffff_ffff * 0x8000_0000_0000_0000 <= n * x <= 0xffff_ffff_ffff_ffff
                * 0x8000_0000_0000_0000) by (nonlinear_arith)
                requires
                    0 <= n <= 0xffff_ffff_ffff_ffff,
                    -0x8000_0000_0000_0000 <= x <= 0x8000_0000_0000_0000,
            ;
        }
        let ghost e = n * x - total;
        match gap(n * x, total) {
            None => {
                proof {
                    lemma_far_squares(e);
                }
                return None;
            },
            Some(d) => {
                assert(d * d == e * e && d * d <= 0xffff_ffff_ffff_ffff * 0xffff_ffff_ffff_ffff)
                    by (nonlinear_arith)
                    requires
                        d == e || d == -e,
                        0 <= d <= 0xffff_ffff_ffff_ffff,
                ;
                let square: u128 = d * d;
                if square > i128::MAX as u128 {
                    return None;
                }
                sum = sum + square;
                if sum > i128::MAX as u128 {
                    return None;
                }
            },
        }
        i += 1;
    }
    assert(s.take(xs@.len() as int) =~= s);
    Some(sum as i128)
}

/// The square of the sample coefficient of variation (standard deviation over
/// mean), the familiar cross-check of the relative spread. Zero with fewer than
/// two samples or where their mean is zero; none where it takes more than the
/// machine's integers.
pub fn cv_squared(xs: &[i64]) -> (r: Option<Ratio>)
    ensures
        is_cv_squared(r, values(xs@)),
{
    let ghost s = values(xs@);
    let sum: i128 = total(xs);
    if xs.len() < 2 || sum == 0 {
        return Some(Ratio { num: 0, den: 1 });
    }
    let others: u128 = xs.len() as u128 - 1;
    let size: u128 = match gap(sum, 0) {
        Some(d) => d,
        None => {
            proof {
                lemma_far_squares(sum as int);
                lemma_den_covers(others as int, sum * sum);
            }
            return None;
        },
    };
    assert(size * size == sum * sum && 1 <= size * size <= 0xffff_ffff_ffff_ffff
        * 0xffff_ffff_ffff_ffff) by (nonlinear_arith)
        requires
            size == sum || size == -sum,
            1 <= size <= 0xffff_ffff_ffff_ffff,
    ;
    let square: u128 = size * size;
    if others > u128::MAX / square {
        assert(others * square > u128::MAX) by (nonlinear_arith)
            requires
                others > u128::MAX as int / square as int,
                square >= 1,
        ;
        return None;
    }
    assert(0 <= others * square <= u128::MAX) by (nonlinear_arith)
        requires
            0 <= others <= u128::MAX as int / square as int,
            square >= 1,
    ;
    match squares(xs, sum) {
        Some(q) => Some(Ratio { num: q, den: others * square }),
        None => None,
    }
}

proof fn lemma_den_covers(others: int, square: int)
    requires
        others >= 1,
        square >= 0,
    ensures
        others * square >= square,
{
    assert(others * square >= square) by (nonlinear_arith)
        requires
            others >= 1,
            square >= 0,
    ;
}

/// Per-element keep/reject mask under the Hampel rule.
///
/// A mask, and not just the values, lets the caller select the whole replicate
/// records that survived, so that an outlier in the primary metric drops that
/// replicate's telemetry too.
pub fn hampel_mask(xs: &[i64], k: Frac) -> (r: Vec<bool>)
    requires
        k.wf(),
    ensures
        r@ == mask_of(xs@, k),
{
    let m: i128 = median(xs).num;
    let d: i128 = quadruple_deviation(xs, m);
    let all: bool = xs.len() < 3 || d == 0;
    let scaled: i128 = k.num as i128 * MAD_NUM;
    assert(-0x8000_0000 * 7413 * 0x4_0000_0000_0000_0000 <= scaled * d <= 0x8000_0000 * 7413
        * 0x4_0000_0000_0000_0000) by (nonlinear_arith)
        requires
            -0x8000_0000 * 7413 <= scaled <= 0x8000_0000 * 7413,
            0 <= d <= 0x4_0000_0000_0000_0000,
    ;
    let threshold: i128 = scaled * d;
    let unit: i128 = (2 * MAD_DEN) * k.den as i128;
    let mut r: Vec<bool> = Vec::new();
    let mut i: usize = 0;
    proof {
        lemma_median2_bounds(xs@);
    }
    while i < xs.len()
        invariant
            i <= xs@.len(),
            r@.len() == i,
            m == median2(values(xs@)),
            d == deviation4(values(xs@)),
            all == (xs@.len() < 3 || d == 0),
            threshold == k.num * MAD_NUM * d,
            unit == 2 * MAD_DEN * k.den,
            0 < unit <= 10000 * 0xffff_ffff,
            -0x1_0000_0000_0000_0000 <= m <= 0x1_0000_0000_0000_0000,
            forall|j: int| 0 <= j < i ==> r@[j] == mask_of(xs@, k)[j],
        decreases xs@.len() - i,
    {
        let e: i128 = 2 * (xs[i] as i128) - m;
        let a: i128 = if e < 0 {
            -e
        } else {
            e
        };
        assert(0 <= a * unit <= 0x2_0000_0000_0000_0000 * (10000 * 0xffff_ffff)) by (nonlinear_arith)
            requires
                0 <= a <= 0x2_0000_0000_0000_0000,
                0 < unit <= 10000 * 0xffff_ffff,
        ;
        r.push(all || a * unit <= threshold);
        i += 1;
    }
    assert(r@ =~= mask_of(xs@, k));
    r
}

/// Partition the samples into (kept, dropped) by the Hampel rule. The order
/// within each bucket follows the input.
pub fn hampel_partition(xs: &[i64], k: Frac) -> (r: (Vec<i64>, Vec<i64>))
    requires
        k.wf(),
    ensures
        r.0@ == kept_of(xs@, k),
        r.1@ == dropped_of(xs@, k),
{
    let mask = hampel_mask(xs, k);
    let mut kept: Vec<i64> = Vec::new();
    let mut dropped: Vec<i64> = Vec::new();
    let mut i: usize = 0;
    while i < xs.len()
        invariant
            i <= xs@.len(),
            mask@.len() == xs@.len(),
            kept@ == select(xs@.take(i as int), mask@.take(i as int), true),
            dropped@ == select(xs@.take(i as int), mask@.take(i as int), false),
        decreases xs@.len() - i,
    {
        if mask[i] {
            kept.push(xs[i]);
        } else {
            dropped.push(xs[i]);
        }
        proof {
            assert(xs@.take(i + 1).drop_last() =~= xs@.take(i as int));
            assert(mask@.take(i + 1).drop_last() =~= mask@.take(i as int));
        }
        i += 1;
    }
    assert(xs@.take(xs@.len() as int) =~= xs@);
    assert(mask@.take(xs@.len() as int) =~= mask@);
    (kept, dropped)
}

/// The least of the samples, zero where there are none.
pub open spec fn least(xs: Seq<i64>) -> i64
    decreases xs.len(),
{
    if xs.len() == 0 {
        0
    } else if xs.len() == 1 || xs.last() < least(xs.drop_last()) {
        xs.last()
    } else {
        least(xs.drop_last())
    }
}

/// The greatest of the samples, zero where there are none.
pub open spec fn greatest(xs: Seq<i64>) -> i64
    decreases xs.len(),
{
    if xs.len() == 0 {
        0
    } else if xs.len() == 1 || xs.last() > greatest(xs.drop_last()) {
        xs.last()
    } else {
        greatest(xs.drop_last())
    }
}

fn extremes(xs: &Vec<i64>) -> (r: (i64, i64))
    ensures
        r.0 == least(xs@),
        r.1 == greatest(xs@),
{
    if xs.len() == 0 {
        return (0, 0);
    }
    let mut lo: i64 = xs[0];
    let mut hi: i64 = xs[0];
    let mut i: usize = 1;
    assert(xs@.take(1).last() == xs@[0]);
    while i < xs.len()
        invariant
            1 <= i <= xs@.len(),
            lo == least(xs@.take(i as int)),
            hi == greatest(xs@.take(i as int)),
        decreases xs@.len() - i,
    {
        assert(xs@.take(i + 1).drop_last() =~= xs@.take(i as int));
        assert(xs@.take(i + 1).last() == xs@[i as int]);
        if xs[i] < lo {
            lo = xs[i];
        }
        if xs[i] > hi {
            hi = xs[i];
        }
        i += 1;
    }
    assert(xs@.take(xs@.len() as int) =~= xs@);
    (lo, hi)
}

/// Robust summary of one metric across a cell's replicates, after outlier
/// rejection: a central estimate with an honest spread and a confidence flag.
#[derive(Clone, Debug)]
pub struct Stability {
    /// Replicates that survived the Hampel filter and fed the final estimate.
    pub n: usize,
    /// Measured replicates run for this cell (warmup rounds not counted).
    pub replicates: usize,
    /// Replicates rejected as outliers by the Hampel filter.
    pub outliers_dropped: usize,
    /// Median of the kept replicates' primary metric.
    pub median: Ratio,
    /// Scaled median absolute deviation of the kept replicates.
    pub mad: Ratio,
    /// Interquartile range of the kept replicates.
    pub iqr: Ratio,
    pub min: i64,
    pub max: i64,
    /// IQR over median: the dimensionless spread that the stability gate keys
    /// on.
    pub rel_iqr: Ratio,
    /// Square of the coefficient of variation of the kept replicates; none where
    /// it takes more than the machine's integers.
    pub cv_squared: Option<Ratio>,
    /// Whether the cell's number is reproducible enough to trust.
    pub stable: bool,
    /// Every measured replicate's primary value, in execution order, with the
    /// points later dropped as outliers.
    pub samples: Vec<i64>,
}

/// The numerator of the relative spread: four times the interquartile range
/// without its sign, zero where the median is zero.
pub open spec fn rel_num(s: Seq<int>) -> int {
    if median2(s) != 0 {
        abs(iqr4(s))
    } else {
        0
    }
}

/// The denominator of the relative spread: four times the median without its
/// sign, one where the median is zero.
pub open spec fn rel_den(s: Seq<int>) -> int {
    if median2(s) != 0 {
        2 * abs(median2(s))
    } else {
        1
    }
}

/// A cell is trustworthy only if enough replicates survived, the surviving
/// spread is tight, and the filter did not have to reject a large share of the
/// draws: a tight spread over a heavily filtered sample is false confidence.
pub open spec fn trustworthy(xs: Seq<i64>, k: Frac, target: Frac, max_outliers: Frac) -> bool {
    &&& kept_of(xs, k).len() >= 3
    &&& tight(xs, k, target)
    &&& dropped_of(xs, k).len() * max_outliers.den <= max_outliers.num * xs.len()
}

// What a relative spread of samples fits in.
spec fn is_spread(r: Ratio) -> bool {
    0 <= r.num <= 0x4_0000_0000_0000_0000 && 0 < r.den <= 0x2_0000_0000_0000_0000
}

// IQR over median, without its sign; zero where the median is zero.
fn relative_spread(kept: &[i64]) -> (r: Ratio)
    ensures
        r.num == rel_num(values(kept@)),
        r.den == rel_den(values(kept@)),
        is_spread(r),
{
    let median = median(kept);
    let iqr = iqr(kept);
    proof {
        lemma_median2_bounds(kept@);
    }
    if median.num != 0 {
        let top: i128 = if iqr.num < 0 {
            -iqr.num
        } else {
            iqr.num
        };
        let bottom: i128 = if median.num < 0 {
            -median.num
        } else {
            median.num
        };
        Ratio { num: top, den: 2 * bottom as u128 }
    } else {
        Ratio { num: 0, den: 1 }
    }
}

fn at_most(rel: Ratio, target: Frac) -> (r: bool)
    requires
        is_spread(rel),
        target.wf(),
    ensures
        r == (rel.num * target.den <= target.num * rel.den),
{
    let bottom: i128 = rel.den as i128;
    assert(0 <= rel.num * target.den <= 0x4_0000_0000_0000_0000 * 0xffff_ffff)
        by (nonlinear_arith)
        requires
            0 <= rel.num <= 0x4_0000_0000_0000_0000,
            0 <= target.den <= 0xffff_ffff,
    ;
    assert(-0x8000_0000 * 0x2_0000_0000_0000_0000 <= target.num * bottom <= 0x8000_0000
        * 0x2_0000_0000_0000_0000) by (nonlinear_arith)
        requires
            0 <= bottom <= 0x2_0000_0000_0000_0000,
            -0x8000_0000 <= target.num <= 0x8000_0000,
    ;
    rel.num * target.den as i128 <= target.num as i128 * bottom
}

/// Whether the relative spread of the samples that the Hampel rule keeps is at
/// or below the target.
pub open spec fn tight(xs: Seq<i64>, k: Frac, target: Frac) -> bool {
    let kept = values(kept_of(xs, k));
    rel_num(kept) * target.den <= target.num * rel_den(kept)
}

/// Whether the relative spread of the samples that the Hampel rule keeps is at
/// or below the target.
pub fn spread_within(samples: &[i64], k: Frac, target: Frac) -> (r: bool)
    requires
        k.wf(),
        target.wf(),
    ensures
        r == tight(samples@, k, target),
{
    let (kept, _dropped) = hampel_partition(samples, k);
    at_most(relative_spread(kept.as_slice()), target)
}

impl Stability {
    /// Summarize measured primary-metric `samples` (in execution order) with
    /// the given Hampel `k`, stability `target_rel_iqr`, and `max_outlier_frac`
    /// (the share of replicates that the filter may reject before the cell is
    /// deemed too dirty to trust).
    pub fn summarize(
        samples: &[i64],
        k: Frac,
        target_rel_iqr: Frac,
        max_outlier_frac: Frac,
    ) -> (r: Stability)
        requires
            k.wf(),
            target_rel_iqr.wf(),
            max_outlier_frac.wf(),
        ensures
            r.n == kept_of(samples@, k).len(),
            r.replicates == samples@.len(),
            r.outliers_dropped == dropped_of(samples@, k).len(),
            r.n + r.outliers_dropped == r.replicates,
            r.median.num == median2(values(kept_of(samples@, k))) && r.median.den == 2,
            r.mad.num == MAD_NUM * deviation4(values(kept_of(samples@, k))),
            r.mad.den == 4 * MAD_DEN,
            r.iqr.num == iqr4(values(kept_of(samples@, k))) && r.iqr.den == 4,
            r.min == least(kept_of(samples@, k)),
            r.max == greatest(kept_of(samples@, k)),
            r.rel_iqr.num == rel_num(values(kept_of(samples@, k))),
            r.rel_iqr.den == rel_den(values(kept_of(samples@, k))),
            is_cv_squared(r.cv_squared, values(kept_of(samples@, k))),
            r.stable == trustworthy(samples@, k, target_rel_iqr, max_outlier_frac),
            r.samples@ == samples@,
            r.n > 0 ==> 2 * r.min <= r.median.num <= 2 * r.max,
            r.n > 0 ==> r.iqr.num <= 4 * (r.max - r.min),
            0 <= r.iqr.num,
            0 <= r.rel_iqr.num,
            r.stable ==> r.n >= 3,
    {
        let (kept, dropped) = hampel_partition(samples, k);
        proof {
            crate::stats_laws::law_partition_is_complete(samples@, k);
            let s = values(kept@);
            crate::stats_laws::law_iqr_not_negative(s);
            if kept@.len() > 0 {
                let lo = least(kept@) as int;
                let hi = greatest(kept@) as int;
                crate::stats_laws::law_median_between_extremes(kept@);
                crate::stats_laws::law_extremes_bound(kept@);
                assert forall|i: int| 0 <= i < s.len() implies lo <= #[trigger] s[i] <= hi by {
                    assert(s[i] == kept@[i] as int);
                }
                law_quantile_within_data(s, 3, 4, lo, hi);
                law_quantile_within_data(s, 1, 4, lo, hi);
            }
        }
        let median = median(kept.as_slice());
        let iqr = iqr(kept.as_slice());
        let mad = mad(kept.as_slice());
        let rel = relative_spread(kept.as_slice());
        let (min, max) = extremes(&kept);
        let tight: bool = at_most(rel, target_rel_iqr);
        let all_n: usize = samples.len();
        let dropped_n: usize = dropped.len();
        assert(0 <= dropped_n * max_outlier_frac.den <= 0xffff_ffff_ffff_ffff * 0xffff_ffff)
            by (nonlinear_arith)
            requires
                0 <= dropped_n <= 0xffff_ffff_ffff_ffff,
                0 <= max_outlier_frac.den <= 0xffff_ffff,
        ;
        assert(-0x8000_0000 * 0xffff_ffff_ffff_ffff <= max_outlier_frac.num * all_n
            <= 0x8000_0000 * 0xffff_ffff_ffff_ffff) by (nonlinear_arith)
            requires
                0 <= all_n <= 0xffff_ffff_ffff_ffff,
                -0x8000_0000 <= max_outlier_frac.num <= 0x8000_0000,
        ;
        let clean: bool = dropped_n as i128 * max_outlier_frac.den as i128
            <= max_outlier_frac.num as i128 * all_n as i128;
        let mut all: Vec<i64> = Vec::new();
        let mut i: usize = 0;
        while i < samples.len()
            invariant
                i <= samples@.len(),
                all@ == samples@.take(i as int),
            decreases samples@.len() - i,
        {
            all.push(samples[i]);
            i += 1;
            assert(all@ =~= samples@.take(i as int));
        }
        assert(samples@.take(samples@.len() as int) =~= samples@);
        Stability {
            n: kept.len(),
            replicates: samples.len(),
            outliers_dropped: dropped.len(),
            median,
            mad,
            iqr,
            min,
            max,
            rel_iqr: rel,
            cv_squared: cv_squared(kept.as_slice()),
            stable: kept.len() >= 3 && tight && clean,
            samples: all,
        }
    }
}

} // verus!
