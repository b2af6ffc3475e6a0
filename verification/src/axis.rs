//! Readable axes: an axis ends at a whole number of round steps.
//!
//! Values are decimals, and every comparison is made on integers.
use vstd::prelude::*;

verus! {

/// `digits * 10^exp`.
#[derive(Clone, Copy, Debug, PartialEq, Eq, Structural)]
pub struct Decimal {
    pub digits: u64,
    pub exp: i32,
}

/// An axis from zero to `max`, divided into `ticks` equal parts.
#[derive(Clone, Copy, Debug, PartialEq, Eq, Structural)]
pub struct Axis {
    pub max: Decimal,
    pub ticks: u64,
}

/// `10^n`.
pub open spec fn pow10(n: nat) -> nat
    decreases n,
{
    if n == 0 {
        1
    } else {
        10 * pow10((n - 1) as nat)
    }
}

/// The round numbers in ascending order, by their rank: 1, 2 and 5 times a
/// power of ten, which goes up with every third of them.
pub open spec fn mantissa(rank: int) -> nat {
    if rank % 3 == 0 {
        1
    } else if rank % 3 == 1 {
        2
    } else {
        5
    }
}

/// The power of ten of a round number.
pub open spec fn magnitude(rank: int) -> int {
    rank / 3
}

/// `n * 10^e` where that is an integer, else `n`; see `scaled_down`.
pub open spec fn scaled_up(n: nat, e: int) -> nat {
    if e >= 0 {
        n * pow10(e as nat)
    } else {
        n
    }
}

/// `n * 10^-e` where that is an integer, else `n`.
pub open spec fn scaled_down(n: nat, e: int) -> nat {
    scaled_up(n, -e)
}

/// Whether `lines` steps of the round number of that rank reach `digits`.
pub open spec fn reaches(digits: nat, lines: nat, rank: int) -> bool {
    scaled_up(mantissa(rank) * lines, magnitude(rank)) >= scaled_down(digits, magnitude(rank))
}

/// Whether the round number of that rank is the least of which `lines` steps
/// reach `digits`.
pub open spec fn is_step(digits: nat, lines: nat, rank: int) -> bool {
    reaches(digits, lines, rank) && !reaches(digits, lines, rank - 1)
}

/// Whether `ticks` is the least number of steps that reach `digits`.
pub open spec fn is_tick_count(digits: nat, rank: int, ticks: nat) -> bool {
    &&& ticks >= 1
    &&& reaches(digits, ticks, rank)
    &&& ticks > 1 ==> !reaches(digits, (ticks - 1) as nat, rank)
}

fn power(n: u32) -> (r: u128)
    requires
        n <= 20,
    ensures
        r == pow10(n as nat),
        1 <= r <= 100_000_000_000_000_000_000,
{
    let mut r: u128 = 1;
    let mut i: u32 = 0;
    while i < n
        invariant
            i <= n <= 20,
            r == pow10(i as nat),
            r >= 1,
        decreases n - i,
    {
        proof {
            lemma_pow10_monotone((i + 1) as nat, 20);
            lemma_pow10_20();
            assert(pow10((i + 1) as nat) == 10 * pow10(i as nat));
        }
        r = r * 10;
        i += 1;
    }
    proof {
        lemma_pow10_monotone(n as nat, 20);
        lemma_pow10_20();
    }
    r
}

proof fn lemma_pow10_20()
    ensures
        pow10(20) == 100_000_000_000_000_000_000,
        pow10(10) == 10_000_000_000,
{
    reveal_with_fuel(pow10, 21);
}

proof fn lemma_pow10_monotone(a: nat, b: nat)
    requires
        a <= b,
    ensures
        1 <= pow10(a) <= pow10(b),
    decreases b,
{
    if a < b {
        lemma_pow10_monotone(a, (b - 1) as nat);
    } else if b > 0 {
        lemma_pow10_monotone((a - 1) as nat, (b - 1) as nat);
    }
}

fn mantissa_of(rank: i32) -> (r: u64)
    requires
        -30 <= rank <= 62,
    ensures
        r == mantissa(rank as int),
        1 <= r <= 5,
{
    let k: i32 = (rank + 30) % 3;
    if k == 0 {
        1
    } else if k == 1 {
        2
    } else {
        5
    }
}

fn magnitude_of(rank: i32) -> (r: i32)
    requires
        -30 <= rank <= 62,
    ensures
        r == magnitude(rank as int),
        -10 <= r <= 20,
{
    (rank + 30) / 3 - 10
}

fn far_enough(digits: u64, lines: u32, rank: i32) -> (r: bool)
    requires
        -30 <= rank <= 62,
    ensures
        r == reaches(digits as nat, lines as nat, rank as int),
{
    let m: u64 = mantissa_of(rank);
    let f: i32 = magnitude_of(rank);
    assert(m * lines <= 5 * 0xffff_ffff) by (nonlinear_arith)
        requires
            m <= 5,
            lines <= 0xffff_ffff,
    ;
    let product: u128 = m as u128 * lines as u128;
    if f >= 0 {
        let p: u128 = power(f as u32);
        proof {
            assert(product * p <= 0x5_0000_0000 * 100_000_000_000_000_000_000)
                by (nonlinear_arith)
                requires
                    product <= 0x5_0000_0000,
                    p <= 100_000_000_000_000_000_000,
            ;
            lemma_down_zero(digits as nat, f as int);
        }
        product * p >= digits as u128
    } else {
        let p: u128 = power((-f) as u32);
        proof {
            lemma_pow10_monotone((-f) as nat, 10);
            lemma_pow10_20();
            assert(digits * p <= 0x1_0000_0000_0000_0000 * 10_000_000_000) by (nonlinear_arith)
                requires
                    0 <= digits <= 0x1_0000_0000_0000_0000,
                    p <= 10_000_000_000,
            ;
        }
        product >= digits as u128 * p
    }
}

proof fn lemma_down_zero(n: nat, e: int)
    requires
        e >= 0,
    ensures
        scaled_down(n, e) == n,
{
    if e == 0 {
        assert(pow10(0) == 1);
        assert(n * 1 == n);
    }
}

/// The least step for a value above zero is among the ranks that are looked at.
proof fn lemma_ranks(digits: nat, lines: nat)
    requires
        1 <= digits <= u64::MAX,
        1 <= lines <= u32::MAX,
    ensures
        !reaches(digits, lines, -30),
        reaches(digits, lines, 60),
{
    lemma_pow10_20();
    assert(magnitude(-30) == -10);
    assert(mantissa(-30) == 1);
    assert(digits * pow10(10) >= 10_000_000_000) by (nonlinear_arith)
        requires
            digits >= 1,
            pow10(10) == 10_000_000_000,
    ;
    assert(1 * lines == lines);
    assert(magnitude(60) == 20);
    assert(mantissa(60) == 1);
    lemma_down_zero(digits, 20);
    assert((1 * lines) * pow10(20) >= 100_000_000_000_000_000_000) by (nonlinear_arith)
        requires
            lines >= 1,
            pow10(20) == 100_000_000_000_000_000_000,
    ;
}

fn find_step(digits: u64, lines: u32) -> (rank: i32)
    requires
        digits >= 1,
        lines >= 1,
    ensures
        is_step(digits as nat, lines as nat, rank as int),
        -29 <= rank <= 60,
{
    let mut rank: i32 = -29;
    proof {
        lemma_ranks(digits as nat, lines as nat);
    }
    while !far_enough(digits, lines, rank)
        invariant
            -29 <= rank <= 60,
            !reaches(digits as nat, lines as nat, rank - 1),
            reaches(digits as nat, lines as nat, 60),
        decreases 60 - rank,
    {
        rank += 1;
    }
    rank
}

/// `ceil(a / b)`, one at least.
fn quotient_up(a: u128, b: u128) -> (r: u128)
    requires
        b >= 1,
        a >= 1,
        a <= 0x1_0000_0000_0000_0000 * 10_000_000_000,
        b <= 500_000_000_000_000_000_000,
    ensures
        r >= 1,
        r * b >= a,
        (r - 1) * b < a,
{
    let r: u128 = (a + (b - 1)) / b;
    assert(r >= 1 && r * b >= a && (r - 1) * b < a) by (nonlinear_arith)
        requires
            r == (a + (b - 1)) as int / b as int,
            a >= 1,
            b >= 1,
    ;
    r
}

/// The fewest steps of the round number of that rank that reach `digits`.
fn count_ticks(digits: u64, lines: u32, rank: i32) -> (ticks: u64)
    requires
        digits >= 1,
        lines >= 1,
        -29 <= rank <= 60,
        reaches(digits as nat, lines as nat, rank as int),
    ensures
        is_tick_count(digits as nat, rank as int, ticks as nat),
        ticks <= lines,
{
    let m: u64 = mantissa_of(rank);
    let f: i32 = magnitude_of(rank);
    if f >= 0 {
        let p: u128 = power(f as u32);
        assert(m * p <= 5 * 100_000_000_000_000_000_000 && m * p >= 1) by (nonlinear_arith)
            requires
                1 <= m <= 5,
                1 <= p <= 100_000_000_000_000_000_000,
        ;
        let step: u128 = m as u128 * p;
        let r: u128 = quotient_up(digits as u128, step);
        proof {
            lemma_down_zero(digits as nat, f as int);
            assert((m * r) * p == r * step && (m * (r - 1)) * p == (r - 1) * step && (m * lines) * p
                == lines * step) by (nonlinear_arith)
                requires
                    step == m * p,
            ;
            assert(r <= lines) by (nonlinear_arith)
                requires
                    (r - 1) * step < digits,
                    lines * step >= digits,
                    step >= 1,
            ;
            assert(mantissa(rank as int) * (r as nat) == m * r);
        }
        r as u64
    } else {
        let p: u128 = power((-f) as u32);
        proof {
            lemma_pow10_monotone((-f) as nat, 10);
            lemma_pow10_20();
            assert(1 <= digits * p <= 0x1_0000_0000_0000_0000 * 10_000_000_000)
                by (nonlinear_arith)
                requires
                    1 <= digits <= 0x1_0000_0000_0000_0000,
                    1 <= p <= 10_000_000_000,
            ;
        }
        let goal: u128 = digits as u128 * p;
        let r: u128 = quotient_up(goal, m as u128);
        proof {
            assert(r * m == m * r && (r - 1) * m == m * (r - 1)) by (nonlinear_arith);
            assert(r <= lines) by (nonlinear_arith)
                requires
                    (r - 1) * m < goal,
                    m * lines >= goal,
                    m >= 1,
            ;
        }
        r as u64
    }
}

/// The number of parts that is asked for, one at least.
pub open spec fn parts(lines: nat) -> nat {
    if lines >= 1 {
        lines
    } else {
        1
    }
}

/// Whether an axis is the readable one for a value: it ends at the fewest
/// steps that reach the value, of the least round number of which `lines` steps
/// do; from zero to one in two parts where the value is zero.
pub open spec fn is_axis(axis: Axis, value: Decimal, lines: nat) -> bool {
    if value.digits == 0 {
        axis == (Axis { max: Decimal { digits: 1, exp: 0 }, ticks: 2 })
    } else {
        exists|rank: int|
            {
                &&& #[trigger] is_step(value.digits as nat, parts(lines), rank)
                &&& is_tick_count(value.digits as nat, rank, axis.ticks as nat)
                &&& axis.ticks <= parts(lines)
                &&& axis.max.digits == mantissa(rank) * axis.ticks
                &&& axis.max.exp == magnitude(rank) + value.exp
            }
    }
}

/// Round an axis maximum up to a readable step, with the tick count. Without
/// this the axis would end at the data's maximum and its labels would land on
/// values like "3.7M/s".
pub fn nice_axis(value: Decimal, target_lines: u32) -> (axis: Axis)
    requires
        i32::MIN + 10 <= value.exp <= i32::MAX - 20,
    ensures
        is_axis(axis, value, target_lines as nat),
{
    if value.digits == 0 {
        return Axis { max: Decimal { digits: 1, exp: 0 }, ticks: 2 };
    }
    let lines: u32 = if target_lines >= 1 {
        target_lines
    } else {
        1
    };
    let rank: i32 = find_step(value.digits, lines);
    let ticks: u64 = count_ticks(value.digits, lines, rank);
    let m: u64 = mantissa_of(rank);
    assert(m * ticks <= 5 * 0xffff_ffff) by (nonlinear_arith)
        requires
            m <= 5,
            ticks <= 0xffff_ffff,
    ;
    let f: i32 = magnitude_of(rank);
    let axis = Axis { max: Decimal { digits: m * ticks, exp: f + value.exp }, ticks };
    assert(is_step(value.digits as nat, parts(target_lines as nat), rank as int));
    axis
}

/// Whether `a * 10^e` is at least `b`.
pub open spec fn at_least(a: nat, e: int, b: nat) -> bool {
    scaled_up(a, e) >= scaled_down(b, e)
}

/// A readable axis never cuts the data off, and never has more parts than were
/// asked for: it reaches the value, in at most `lines` steps, one at least.
pub proof fn law_axis_reaches_the_value(axis: Axis, value: Decimal, lines: nat)
    requires
        is_axis(axis, value, lines),
        value.digits > 0,
    ensures
        at_least(axis.max.digits as nat, axis.max.exp - value.exp, value.digits as nat),
        1 <= axis.ticks,
        axis.ticks <= lines || axis.ticks == 1,
{
}

/// The powers of ten are those of arithmetic.
pub proof fn law_powers_of_ten(n: nat)
    ensures
        pow10(n) == vstd::arithmetic::power::pow(10, n),
    decreases n,
{
    reveal(vstd::arithmetic::power::pow);
    if n > 0 {
        law_powers_of_ten((n - 1) as nat);
    }
}

/// Whether `a * 10^e` is `b` or more, on integers.
pub open spec fn is_up_to(a: int, e: int, b: int) -> bool {
    if e >= 0 {
        a * vstd::arithmetic::power::pow(10, e as nat) >= b
    } else {
        a >= b * vstd::arithmetic::power::pow(10, (-e) as nat)
    }
}

proof fn lemma_reaches(digits: nat, lines: nat, rank: int)
    ensures
        reaches(digits, lines, rank) == is_up_to(
            (mantissa(rank) * lines) as int,
            magnitude(rank),
            digits as int,
        ),
{
    let f = magnitude(rank);
    if f >= 0 {
        law_powers_of_ten(f as nat);
        lemma_down_zero(digits, f);
    } else {
        law_powers_of_ten((-f) as nat);
    }
}

/// A readable axis has a round step, one, two or five times a power of ten. So
/// many steps as parts were asked for reach the value, and of the next smaller
/// round step they would not; and the axis ends with the first step that reaches
/// it.
pub proof fn law_axis_has_the_least_round_step(axis: Axis, value: Decimal, lines: nat) -> (step: (
    int,
    int,
))
    requires
        is_axis(axis, value, lines),
        value.digits > 0,
    ensures
        ({
            let (m, e) = step;
            let parts: int = if lines >= 1 {
                lines as int
            } else {
                1
            };
            &&& m == 1 || m == 2 || m == 5
            &&& axis.max.digits == m * axis.ticks
            &&& axis.max.exp == e + value.exp
            &&& is_up_to(m * parts, e, value.digits as int)
            &&& m == 1 ==> !is_up_to(5 * parts, e - 1, value.digits as int)
            &&& m == 2 ==> !is_up_to(1 * parts, e, value.digits as int)
            &&& m == 5 ==> !is_up_to(2 * parts, e, value.digits as int)
            &&& is_up_to(m * axis.ticks, e, value.digits as int)
            &&& axis.ticks > 1 ==> !is_up_to(m * (axis.ticks - 1), e, value.digits as int)
        }),
{
    let d = value.digits as nat;
    let n = parts(lines);
    let rank = choose|rank: int|
        {
            &&& #[trigger] is_step(d, n, rank)
            &&& is_tick_count(d, rank, axis.ticks as nat)
            &&& axis.ticks <= n
            &&& axis.max.digits == mantissa(rank) * axis.ticks
            &&& axis.max.exp == magnitude(rank) + value.exp
        };
    lemma_reaches(d, n, rank);
    lemma_reaches(d, n, rank - 1);
    lemma_reaches(d, axis.ticks as nat, rank);
    if axis.ticks > 1 {
        lemma_reaches(d, (axis.ticks - 1) as nat, rank);
    }
    let m = mantissa(rank) as int;
    let e = magnitude(rank);
    if rank % 3 == 0 {
        assert((rank - 1) % 3 == 2 && (rank - 1) / 3 == e - 1);
    } else {
        assert((rank - 1) / 3 == e && (rank - 1) % 3 == rank % 3 - 1);
    }
    assert((mantissa(rank) * (axis.ticks as nat)) as int == m * axis.ticks);
    (m, e)
}

/// The axis of a value that is zero goes from zero to one, in two parts.
pub proof fn law_empty_axis(axis: Axis, exp: i32, lines: nat)
    requires
        is_axis(axis, Decimal { digits: 0, exp }, lines),
    ensures
        axis.max.digits == 1,
        axis.max.exp == 0,
        axis.ticks == 2,
{
}

/// Ten times the value has an axis with the same parts, ten times as long.
pub proof fn law_axis_scales_with_the_value(axis: Axis, value: Decimal, lines: nat)
    requires
        is_axis(axis, value, lines),
        value.digits > 0,
        value.exp < i32::MAX,
        axis.max.exp < i32::MAX,
    ensures
        is_axis(
            Axis {
                max: Decimal { digits: axis.max.digits, exp: (axis.max.exp + 1) as i32 },
                ticks: axis.ticks,
            },
            Decimal { digits: value.digits, exp: (value.exp + 1) as i32 },
            lines,
        ),
{
    let d = value.digits as nat;
    let n = parts(lines);
    let rank = choose|rank: int|
        {
            &&& #[trigger] is_step(d, n, rank)
            &&& is_tick_count(d, rank, axis.ticks as nat)
            &&& axis.ticks <= n
            &&& axis.max.digits == mantissa(rank) * axis.ticks
            &&& axis.max.exp == magnitude(rank) + value.exp
        };
    assert(is_step(d, n, rank));
}

} // verus!
