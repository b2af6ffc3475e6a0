//! What a measured target writes, and the harness reads: one line of words.
use vstd::prelude::*;
use crate::number::decimal;
use crate::sort::sort;
use crate::text::{join, push_string, push_text};

verus! {

/// The round trips as mathematical integers.
pub open spec fn trips(rtts: Seq<u64>) -> Seq<int> {
    rtts.map_values(|x: u64| x as int)
}

/// The position of the quantile `num / den` among `n` ascending values: the
/// whole part of that share of them, the last one at most.
pub open spec fn rank_of(n: nat, num: nat, den: nat) -> int {
    let i = (n * num) / den;
    if i < n {
        i as int
    } else {
        n - 1
    }
}

/// The numbers of a latency report: how many round trips, the least, the p50,
/// p90, p99 and p99.9 quantiles, and the greatest; all zero where there are
/// none.
pub open spec fn latency_report(rtts: Seq<u64>) -> Seq<nat> {
    let v = trips(rtts).sort();
    let n = rtts.len();
    if n == 0 {
        seq![0, 0, 0, 0, 0, 0, 0]
    } else {
        seq![
            n,
            v[0] as nat,
            v[rank_of(n, 1, 2)] as nat,
            v[rank_of(n, 9, 10)] as nat,
            v[rank_of(n, 99, 100)] as nat,
            v[rank_of(n, 999, 1000)] as nat,
            v[n - 1] as nat,
        ]
    }
}

/// The decimals of a list of numbers.
pub open spec fn decimals(numbers: Seq<nat>) -> Seq<Seq<char>> {
    numbers.map_values(|n: nat| crate::number::decimal_of(n))
}

/// The line of a latency report.
pub open spec fn latency_line_of(numbers: Seq<nat>) -> Seq<char> {
    crate::text::joined(seq!["LATENCY"@] + decimals(numbers), " "@)
}

fn rank(n: usize, num: u64, den: u64) -> (r: usize)
    requires
        n >= 1,
        1 <= den <= 1000,
        num <= 1000,
    ensures
        r == rank_of(n as nat, num as nat, den as nat),
        r < n,
{
    assert(0 <= n * num <= 0xffff_ffff_ffff_ffff * 1000) by (nonlinear_arith)
        requires
            n <= 0xffff_ffff_ffff_ffff,
            0 <= num <= 1000,
    ;
    let i: u128 = (n as u128 * num as u128) / den as u128;
    if i < n as u128 {
        i as usize
    } else {
        n - 1
    }
}

fn ascending_trips(rtts: &Vec<u64>) -> (r: Vec<i128>)
    ensures
        crate::sort::ints(r@) == trips(rtts@).sort(),
        r@.len() == rtts@.len(),
        forall|i: int| 0 <= i < r@.len() ==> 0 <= #[trigger] r@[i] <= u64::MAX,
{
    let mut wide: Vec<i128> = Vec::new();
    let mut i: usize = 0;
    while i < rtts.len()
        invariant
            i <= rtts@.len(),
            wide@.len() == i,
            forall|k: int| 0 <= k < i ==> wide@[k] == rtts@[k],
        decreases rtts@.len() - i,
    {
        wide.push(rtts[i] as i128);
        i += 1;
    }
    assert(crate::sort::ints(wide@) =~= trips(rtts@));
    let v = sort(&wide);
    proof {
        let s = trips(rtts@);
        crate::sort::lemma_sort(s);
        assert forall|k: int| 0 <= k < v@.len() implies 0 <= #[trigger] v@[k] <= u64::MAX by {
            assert(crate::sort::ints(v@)[k] == v@[k]);
            crate::sort::lemma_sort_member(s, k);
            let j = choose|j: int| 0 <= j < s.len() && s[j] == s.sort()[k];
            assert(s[j] == rtts@[j] as int);
        }
    }
    v
}

// Puts numbers in the place of the round trips.
fn put_back(rtts: &mut Vec<u64>, v: &Vec<i128>)
    requires
        v@.len() == old(rtts)@.len(),
        forall|i: int| 0 <= i < v@.len() ==> 0 <= #[trigger] v@[i] <= u64::MAX,
    ensures
        trips(final(rtts)@) == crate::sort::ints(v@),
{
    let mut i: usize = 0;
    while i < v.len()
        invariant
            i <= v@.len(),
            rtts@.len() == v@.len(),
            forall|k: int| 0 <= k < v@.len() ==> 0 <= #[trigger] v@[k] <= u64::MAX,
            forall|k: int| 0 <= k < i ==> rtts@[k] == v@[k],
        decreases v@.len() - i,
    {
        rtts.set(i, v[i] as u64);
        i += 1;
    }
    assert(trips(rtts@) =~= crate::sort::ints(v@));
}

fn push_number(list: &mut Vec<String>, n: u64)
    ensures
        crate::text::views(final(list)@) == crate::text::views(old(list)@).push(
            crate::number::decimal_of(n as nat),
        ),
{
    push_string(list, decimal(n));
}

/// The line that reports the quantiles of the timed round trips, in
/// nanoseconds: `LATENCY <count> <min> <p50> <p90> <p99> <p999> <max>`. The
/// round trips are left in ascending order.
pub fn latency_line(rtts: &mut Vec<u64>) -> (r: String)
    ensures
        r@ == latency_line_of(latency_report(old(rtts)@)),
        trips(final(rtts)@) == trips(old(rtts)@).sort(),
{
    let mut w: Vec<String> = Vec::new();
    push_text(&mut w, "LATENCY");
    let ghost numbers = latency_report(rtts@);
    if rtts.len() == 0 {
        push_number(&mut w, 0);
        push_number(&mut w, 0);
        push_number(&mut w, 0);
        push_number(&mut w, 0);
        push_number(&mut w, 0);
        push_number(&mut w, 0);
        push_number(&mut w, 0);
        proof {
            crate::sort::lemma_sort(trips(rtts@));
            assert(trips(rtts@) =~= trips(rtts@).sort());
        }
    } else {
        let v = ascending_trips(rtts);
        put_back(rtts, &v);
        let n: usize = v.len();
        let ghost s = crate::sort::ints(v@);
        let a: usize = rank(n, 1, 2);
        let b: usize = rank(n, 9, 10);
        let c: usize = rank(n, 99, 100);
        let d: usize = rank(n, 999, 1000);
        assert(s[0] == v@[0] && s[a as int] == v@[a as int] && s[b as int] == v@[b as int]
            && s[c as int] == v@[c as int] && s[d as int] == v@[d as int] && s[n - 1] == v@[n
            - 1]);
        push_number(&mut w, n as u64);
        push_number(&mut w, v[0] as u64);
        push_number(&mut w, v[a] as u64);
        push_number(&mut w, v[b] as u64);
        push_number(&mut w, v[c] as u64);
        push_number(&mut w, v[d] as u64);
        push_number(&mut w, v[n - 1] as u64);
    }
    assert(crate::text::views(w@) =~= seq!["LATENCY"@] + decimals(numbers));
    join(&w, " ")
}

/// The line that reports a count of messages and the seconds that they took, as
/// they are written.
pub open spec fn throughput_line_of(count: nat, elapsed: Seq<char>) -> Seq<char> {
    crate::text::joined(seq!["THROUGHPUT"@, crate::number::decimal_of(count), elapsed], " "@)
}

/// The line that reports a count of messages and the seconds that they took:
/// `THROUGHPUT <count> <elapsed_secs>`.
pub fn throughput_line(count: u64, elapsed: &str) -> (r: String)
    ensures
        r@ == throughput_line_of(count as nat, elapsed@),
{
    let mut w: Vec<String> = Vec::new();
    push_text(&mut w, "THROUGHPUT");
    push_number(&mut w, count);
    push_text(&mut w, elapsed);
    assert(crate::text::views(w@) =~= seq![
        "THROUGHPUT"@,
        crate::number::decimal_of(count as nat),
        elapsed@,
    ]);
    join(&w, " ")
}

/// The line of a consumer that received nothing.
pub fn nothing_line() -> (r: String)
    ensures
        r@ == throughput_line_of(0, "0.000001"@),
{
    throughput_line(0, "0.000001")
}

/// Whether a text is one word.
pub open spec fn is_word(s: Seq<char>) -> bool {
    s.len() > 0 && forall|i: int| 0 <= i < s.len() ==> !crate::text::is_space(#[trigger] s[i])
}

// A word behind a space is one more word.
proof fn lemma_words_push(a: Seq<char>, w: Seq<char>, i: int)
    requires
        is_word(w),
        0 <= i <= a.len(),
    ensures
        crate::text::words_from(a + seq![' '] + w, i) == crate::text::words_from(a, i).push(w),
    decreases a.len() - i,
{
    let p = a + seq![' '] + w;
    let n = a.len() as int;
    assert(crate::text::is_space(' '));
    crate::text::lemma_find_space(a, false, i);
    let x = crate::text::find_space(a, false, i);
    if x >= n {
        assert forall|k: int| i <= k < n + 1 implies crate::text::is_space(#[trigger] p[k]) by {
            if k < n {
                assert(p[k] == a[k]);
            }
        }
        assert(p[n + 1] == w[0]);
        crate::text::lemma_find_space_is(p, false, i, n + 1);
        assert forall|k: int| n + 1 <= k < p.len() implies !crate::text::is_space(
            #[trigger] p[k],
        ) by {
            assert(p[k] == w[k - n - 1]);
        }
        crate::text::lemma_find_space_is(p, true, n + 1, p.len() as int);
        assert(p.subrange(n + 1, p.len() as int) =~= w);
        assert(crate::text::words_from(p, p.len() as int) =~= Seq::empty());
        assert(crate::text::words_from(a, i) =~= Seq::empty());
        assert(crate::text::words_from(p, i) =~= seq![w]);
    } else {
        assert forall|k: int| i <= k < x implies crate::text::is_space(#[trigger] p[k]) by {
            assert(p[k] == a[k]);
        }
        assert(p[x] == a[x]);
        crate::text::lemma_find_space_is(p, false, i, x);
        crate::text::lemma_find_space(a, true, x);
        let y = crate::text::find_space(a, true, x);
        assert forall|k: int| x <= k < y implies !crate::text::is_space(#[trigger] p[k]) by {
            assert(p[k] == a[k]);
        }
        assert(crate::text::is_space(p[y])) by {
            if y < n {
                assert(p[y] == a[y]);
            }
        }
        crate::text::lemma_find_space_is(p, true, x, y);
        assert(y > x);
        assert(p.subrange(x, y) =~= a.subrange(x, y));
        lemma_words_push(a, w, y);
        assert(crate::text::words_from(p, i) =~= crate::text::words_from(a, i).push(w));
    }
}

proof fn lemma_one_word(w: Seq<char>)
    requires
        is_word(w),
    ensures
        crate::text::words_of(w) == seq![w],
{
    crate::text::lemma_find_space_is(w, false, 0, 0);
    crate::text::lemma_find_space_is(w, true, 0, w.len() as int);
    assert(w.subrange(0, w.len() as int) =~= w);
    assert(crate::text::words_from(w, w.len() as int) =~= Seq::empty());
    assert(crate::text::words_of(w) =~= seq![w]);
}

// Words with a space between each two are read back.
proof fn lemma_words_joined(parts: Seq<Seq<char>>)
    requires
        parts.len() > 0,
        forall|i: int| 0 <= i < parts.len() ==> is_word(#[trigger] parts[i]),
    ensures
        crate::text::words_of(crate::text::joined(parts, " "@)) == parts,
    decreases parts.len(),
{
    reveal_strlit(" ");
    assert(" "@ =~= seq![' ']);
    assert(is_word(parts[parts.len() - 1]));
    if parts.len() == 1 {
        lemma_one_word(parts[0]);
        assert(parts =~= seq![parts[0]]);
    } else {
        let front = parts.drop_last();
        assert forall|i: int| 0 <= i < front.len() implies is_word(#[trigger] front[i]) by {
            assert(is_word(parts[i]));
        }
        lemma_words_joined(front);
        lemma_words_push(crate::text::joined(front, " "@), parts.last(), 0);
        assert(parts =~= front.push(parts.last()));
    }
}

// The joined words hold no line break and do not end in a carriage return.
proof fn lemma_no_break(parts: Seq<Seq<char>>)
    requires
        parts.len() > 0,
        forall|i: int| 0 <= i < parts.len() ==> is_word(#[trigger] parts[i]),
    ensures
        crate::text::joined(parts, " "@).len() > 0,
        forall|k: int|
            0 <= k < crate::text::joined(parts, " "@).len() ==> crate::text::joined(
                parts,
                " "@,
            )[k] != '\n',
        crate::text::joined(parts, " "@).last() != '\r',
    decreases parts.len(),
{
    reveal_strlit(" ");
    let w = parts.last();
    assert(is_word(parts[parts.len() - 1]));
    assert(!crate::text::is_space(w[w.len() - 1]));
    assert(crate::text::is_space('\n') && crate::text::is_space('\r'));
    let s = crate::text::joined(parts, " "@);
    if parts.len() == 1 {
        assert(s == w);
        assert forall|k: int| 0 <= k < s.len() implies s[k] != '\n' by {
            assert(!crate::text::is_space(w[k]));
        }
    } else {
        let front = parts.drop_last();
        assert forall|i: int| 0 <= i < front.len() implies is_word(#[trigger] front[i]) by {
            assert(is_word(parts[i]));
        }
        lemma_no_break(front);
        let a = crate::text::joined(front, " "@);
        assert(s == a + " "@ + w);
        assert forall|k: int| 0 <= k < s.len() implies s[k] != '\n' by {
            if k < a.len() {
                assert(s[k] == a[k]);
            } else if k > a.len() {
                assert(s[k] == w[k - a.len() - 1]);
                assert(!crate::text::is_space(w[k - a.len() - 1]));
            }
        }
        assert(s.last() == w.last());
    }
}

// A line and its end are one line.
proof fn lemma_one_line(s: Seq<char>)
    requires
        s.len() > 0,
        forall|k: int| 0 <= k < s.len() ==> s[k] != '\n',
        s.last() != '\r',
    ensures
        crate::text::lines_of(s + seq!['\n']) == seq![s],
{
    let p = s + seq!['\n'];
    let n = s.len() as int;
    assert forall|k: int| 0 <= k < n implies p[k] != '\n' by {
        assert(p[k] == s[k]);
    }
    crate::text::lemma_find_char_is(p, '\n', 0, n);
    assert(p.subrange(0, n) =~= s);
    assert(crate::text::lines_from(p, n + 1) =~= Seq::empty());
    assert(crate::text::lines_of(p) =~= seq![s]);
}

proof fn lemma_decimal_is_word(n: nat)
    ensures
        is_word(crate::number::decimal_of(n)),
{
    crate::number::lemma_decimal_digits(n);
    let d = crate::number::decimal_of(n);
    assert forall|i: int| 0 <= i < d.len() implies !crate::text::is_space(#[trigger] d[i]) by {
        assert(crate::number::is_digit(d[i]));
    }
}

/// The harness reads back the count and the seconds that a consumer reports,
/// whatever numbers they are.
pub proof fn law_throughput_reads_back(count: nat, elapsed: Seq<char>)
    requires
        count <= u64::MAX,
        crate::number::is_number(elapsed),
    ensures
        crate::cell::throughput_of(throughput_line_of(count, elapsed) + seq!['\n']) == Some(
            (count, elapsed),
        ),
{
    reveal_strlit("THROUGHPUT");
    let parts = seq!["THROUGHPUT"@, crate::number::decimal_of(count), elapsed];
    lemma_decimal_is_word(count);
    crate::number::lemma_number_is_word(elapsed);
    assert(is_word("THROUGHPUT"@));
    lemma_words_joined(parts);
    lemma_no_break(parts);
    let line = throughput_line_of(count, elapsed);
    lemma_one_line(line);
    crate::number::law_decimal_reads_back(count);
    let all = crate::text::lines_of(line + seq!['\n']);
    assert(all[0] == line);
    assert(crate::cell::is_report(all[0], "THROUGHPUT"@, 3));
    assert(crate::cell::first_report(all, "THROUGHPUT"@, 3, 0) == 0);
}

proof fn lemma_report_bounds(rtts: Seq<u64>)
    ensures
        latency_report(rtts).len() == 7,
        rtts.len() <= u64::MAX ==> forall|i: int|
            0 <= i < 7 ==> #[trigger] latency_report(rtts)[i] <= u64::MAX,
{
    if rtts.len() > 0 {
        let s = trips(rtts);
        let v = s.sort();
        let n = rtts.len() as int;
        crate::sort::lemma_sort(s);
        assert forall|k: int| 0 <= k < n implies 0 <= #[trigger] v[k] <= u64::MAX by {
            crate::sort::lemma_sort_member(s, k);
            let j = choose|j: int| 0 <= j < s.len() && s[j] == v[k];
            assert(s[j] == rtts[j] as int);
        }
        lemma_rank(n as nat, 1, 2);
        lemma_rank(n as nat, 9, 10);
        lemma_rank(n as nat, 99, 100);
        lemma_rank(n as nat, 999, 1000);
    }
}

proof fn lemma_rank(n: nat, num: nat, den: nat)
    requires
        n >= 1,
        num < den,
    ensures
        0 <= rank_of(n, num, den) < n,
        rank_of(n, num, den) == (n * num) / den,
{
    assert((n * num) / den < n) by (nonlinear_arith)
        requires
            n >= 1,
            num < den,
    ;
}

/// The harness reads back the quantiles that a client reports, whatever the
/// round trips were.
pub proof fn law_latency_reads_back(rtts: Seq<u64>)
    requires
        rtts.len() <= u64::MAX,
    ensures
        crate::cell::latency_numbers(
            latency_line_of(latency_report(rtts)) + seq!['\n'],
        ) == Some(latency_report(rtts)),
{
    reveal_strlit("LATENCY");
    let numbers = latency_report(rtts);
    lemma_report_bounds(rtts);
    let parts = seq!["LATENCY"@] + decimals(numbers);
    assert forall|i: int| 0 <= i < parts.len() implies is_word(#[trigger] parts[i]) by {
        if i > 0 {
            assert(parts[i] == crate::number::decimal_of(numbers[i - 1]));
            lemma_decimal_is_word(numbers[i - 1]);
        }
    }
    lemma_words_joined(parts);
    lemma_no_break(parts);
    let line = latency_line_of(numbers);
    lemma_one_line(line);
    let out = line + seq!['\n'];
    let all = crate::text::lines_of(out);
    assert(all[0] == line);
    assert(parts[0] == "LATENCY"@);
    assert(crate::cell::is_report(all[0], "LATENCY"@, 8));
    assert(crate::cell::first_report(all, "LATENCY"@, 8, 0) == 0);
    assert(crate::cell::report_of(out, "LATENCY"@, 8) == Some(parts));
    let f = |i: int| crate::number::unsigned_up_to(parts[i + 1], u64::MAX as nat);
    assert forall|i: int| 0 <= i < 7 implies #[trigger] f(i) == Some(numbers[i]) by {
        assert(parts[i + 1] == crate::number::decimal_of(numbers[i]));
        crate::number::law_decimal_reads_back(numbers[i]);
        assert(numbers[i] <= u64::MAX);
    }
    assert(Seq::new(7, |i: int| f(i)->0) =~= numbers);
}

/// The quantiles of a report stand in their order: from the least round trip to
/// the greatest none is below the one before it.
pub proof fn law_quantiles_ascend(rtts: Seq<u64>)
    ensures
        forall|i: int, j: int|
            1 <= i <= j < 7 ==> #[trigger] latency_report(rtts)[i] <= #[trigger] latency_report(
                rtts,
            )[j],
{
    let s = trips(rtts);
    let v = s.sort();
    let n = rtts.len();
    let r = latency_report(rtts);
    if n > 0 {
        crate::sort::lemma_sort(s);
        lemma_rank(n, 1, 2);
        lemma_rank(n, 9, 10);
        lemma_rank(n, 99, 100);
        lemma_rank(n, 999, 1000);
        let a = rank_of(n, 1, 2);
        let b = rank_of(n, 9, 10);
        let c = rank_of(n, 99, 100);
        let d = rank_of(n, 999, 1000);
        assert(a <= b <= c <= d) by (nonlinear_arith)
            requires
                a == (n * 1) / 2,
                b == (n * 9) / 10,
                c == (n * 99) / 100,
                d == (n * 999) / 1000,
                n >= 0,
        ;
        assert forall|k: int| 0 <= k < n implies 0 <= #[trigger] v[k] by {
            crate::sort::lemma_sort_member(s, k);
            let j = choose|j: int| 0 <= j < s.len() && s[j] == v[k];
            assert(s[j] == rtts[j] as int);
        }
        assert(v[0] <= v[a] && v[a] <= v[b] && v[b] <= v[c] && v[c] <= v[d] && v[d] <= v[n - 1]);
        assert(r[1] <= r[2] && r[2] <= r[3] && r[3] <= r[4] && r[4] <= r[5] && r[5] <= r[6]);
    }
}

/// Whether `x` is the quantile `num / den` of the round trips: more than that
/// share of them took no longer, and no more than that share took less.
pub open spec fn cuts(rtts: Seq<u64>, x: int, num: int, den: int) -> bool {
    let all = rtts.map_values(|t: u64| t as int);
    &&& crate::stats_laws::count_up_to(all, x) * den > rtts.len() * num
    &&& crate::stats_laws::count_up_to(all, x - 1) * den <= rtts.len() * num
}

proof fn lemma_rank_cuts(rtts: Seq<u64>, num: nat, den: nat)
    requires
        rtts.len() >= 1,
        num < den,
    ensures
        ({
            let x = trips(rtts).sort()[rank_of(rtts.len(), num, den)];
            &&& 0 <= x <= u64::MAX
            &&& cuts(rtts, x, num as int, den as int)
        }),
{
    let s = trips(rtts);
    let n = rtts.len() as int;
    let k = rank_of(rtts.len(), num, den);
    lemma_rank(rtts.len(), num, den);
    assert(s =~= rtts.map_values(|t: u64| t as int));
    crate::stats_laws::lemma_count_at_rank(s, k);
    crate::sort::lemma_sort_member(s, k);
    let j = choose|j: int| 0 <= j < s.len() && s[j] == s.sort()[k];
    assert(s[j] == rtts[j] as int);
    let up = crate::stats_laws::count_up_to(s, s.sort()[k]) as int;
    let below = crate::stats_laws::count_up_to(s, s.sort()[k] - 1) as int;
    assert(up * den > n * num && below * den <= n * num) by (nonlinear_arith)
        requires
            up >= k + 1,
            below <= k,
            k == (n * num) / (den as int),
            den > 0,
    {
        let q = (n * num) / (den as int);
        assert(q * den <= n * num);
        assert((q + 1) * den > n * num);
    }
}

/// The report of some round trips counts them all; its quantiles are those of
/// the round trips, a half, nine in ten, 99 in a hundred and 999 in a thousand;
/// and no round trip took less than the least or more than the greatest, which
/// are two of them.
pub proof fn law_report_cuts_the_trips(rtts: Seq<u64>)
    requires
        rtts.len() > 0,
    ensures
        ({
            let r = latency_report(rtts);
            &&& r.len() == 7
            &&& r[0] == rtts.len()
            &&& cuts(rtts, r[2] as int, 1, 2)
            &&& cuts(rtts, r[3] as int, 9, 10)
            &&& cuts(rtts, r[4] as int, 99, 100)
            &&& cuts(rtts, r[5] as int, 999, 1000)
            &&& r[1] <= u64::MAX && rtts.contains(r[1] as u64)
            &&& r[6] <= u64::MAX && rtts.contains(r[6] as u64)
            &&& forall|i: int| 0 <= i < rtts.len() ==> r[1] <= #[trigger] rtts[i] <= r[6]
        }),
{
    let s = trips(rtts);
    let v = s.sort();
    let n = rtts.len() as int;
    crate::sort::lemma_sort(s);
    lemma_rank_cuts(rtts, 1, 2);
    lemma_rank_cuts(rtts, 9, 10);
    lemma_rank_cuts(rtts, 99, 100);
    lemma_rank_cuts(rtts, 999, 1000);
    assert forall|i: int| 0 <= i < n implies v[0] <= #[trigger] rtts[i] <= v[n - 1] by {
        crate::sort::lemma_sort_member(s, i);
        let k = choose|k: int| 0 <= k < v.len() && v[k] == s[i];
        assert(s[i] == rtts[i] as int);
        assert(v[0] <= v[k] && v[k] <= v[n - 1]);
    }
    crate::sort::lemma_sort_member(s, 0);
    crate::sort::lemma_sort_member(s, n - 1);
    let a = choose|a: int| 0 <= a < s.len() && s[a] == v[0];
    let b = choose|b: int| 0 <= b < s.len() && s[b] == v[n - 1];
    assert(s[a] == rtts[a] as int && s[b] == rtts[b] as int);
    assert(rtts[a] == v[0] as u64 && rtts[b] == v[n - 1] as u64);
}

/// What the harness reads of a client's report is what the round trips were:
/// every field of the snapshot is the quantile that it is named after.
pub proof fn law_report_arrives(rtts: Seq<u64>, l: crate::telemetry::LatencySnapshot)
    requires
        0 < rtts.len() <= u64::MAX,
        crate::cell::latency_numbers(
            latency_line_of(latency_report(rtts)) + seq!['\n'],
        ) == Some(crate::cell::snapshot_numbers(l)),
    ensures
        l.count == rtts.len(),
        cuts(rtts, l.p50_ns as int, 1, 2),
        cuts(rtts, l.p90_ns as int, 9, 10),
        cuts(rtts, l.p99_ns as int, 99, 100),
        cuts(rtts, l.p999_ns as int, 999, 1000),
        rtts.contains(l.min_ns),
        rtts.contains(l.max_ns),
        forall|i: int| 0 <= i < rtts.len() ==> l.min_ns <= #[trigger] rtts[i] <= l.max_ns,
{
    law_latency_reads_back(rtts);
    law_report_cuts_the_trips(rtts);
    let r = latency_report(rtts);
    assert(r == crate::cell::snapshot_numbers(l));
    assert(r[0] == l.count && r[1] == l.min_ns && r[2] == l.p50_ns && r[3] == l.p90_ns && r[4]
        == l.p99_ns && r[5] == l.p999_ns && r[6] == l.max_ns);
}

/// The order in which the round trips were made does not matter to their report.
pub proof fn law_report_ignores_order(a: Seq<u64>, b: Seq<u64>)
    requires
        trips(a).to_multiset() == trips(b).to_multiset(),
    ensures
        latency_report(a) == latency_report(b),
{
    broadcast use vstd::seq_lib::group_to_multiset_ensures;

    assert(trips(a).to_multiset().len() == a.len());
    assert(trips(b).to_multiset().len() == b.len());
    crate::sort::lemma_sort(trips(a));
    crate::sort::lemma_sort_is(trips(b), trips(a).sort());
}

/// Words with a space between each two are those words.
pub proof fn law_words_read_back(parts: Seq<Seq<char>>)
    requires
        parts.len() > 0,
        forall|i: int| 0 <= i < parts.len() ==> is_word(#[trigger] parts[i]),
    ensures
        crate::text::words_of(crate::text::joined(parts, " "@)) == parts,
{
    lemma_words_joined(parts);
}

/// An amount of kibibytes is two words, the number and the unit.
pub proof fn law_amount_is_two_words(n: nat)
    ensures
        crate::text::words_of(crate::number::decimal_of(n) + " kB"@) == seq![
            crate::number::decimal_of(n),
            "kB"@,
        ],
{
    reveal_strlit(" kB");
    reveal_strlit("kB");
    reveal_strlit(" ");
    let d = crate::number::decimal_of(n);
    lemma_decimal_is_word(n);
    assert(is_word("kB"@));
    let parts = seq![d, "kB"@];
    lemma_words_joined(parts);
    assert(parts.drop_last() =~= seq![d]);
    assert(crate::text::joined(seq![d], " "@) == d);
    assert(crate::text::joined(parts, " "@) =~= d + " kB"@);
}

/// Without a round trip there is nothing to report, and every number is zero.
pub proof fn law_no_trips_are_zeros(rtts: Seq<u64>, i: int)
    requires
        0 <= i < 7,
    ensures
        rtts.len() == 0 ==> latency_report(rtts)[i] == 0,
        latency_report(rtts).len() == 7,
{
}

} // verus!
