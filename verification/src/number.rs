//! Integers as decimal text, in both directions, and what reads as a number
//! with a fraction.
use vstd::prelude::*;
use crate::text::{ascii_lowercase, chars_of, same, split_once, string_of};

verus! {

/// The digit of a number below ten.
pub open spec fn digit(d: nat) -> char {
    (48 + d) as char
}

/// Whether `c` is one of the ten ASCII digits.
pub open spec fn is_digit(c: char) -> bool {
    48 <= c as int <= 57
}

/// The decimal digits of `n`, without leading zeros.
pub open spec fn decimal_of(n: nat) -> Seq<char>
    decreases n,
{
    if n < 10 {
        seq![digit(n)]
    } else {
        decimal_of(n / 10).push(digit(n % 10))
    }
}

/// The number that a run of digits stands for.
pub open spec fn value_of(s: Seq<char>) -> nat
    decreases s.len(),
{
    if s.len() == 0 {
        0
    } else {
        10 * value_of(s.drop_last()) + (s.last() as int - 48) as nat
    }
}

/// Whether every character is a digit.
pub open spec fn all_digits(s: Seq<char>) -> bool {
    forall|i: int| 0 <= i < s.len() ==> is_digit(#[trigger] s[i])
}

/// The number that an unsigned decimal stands for: digits, one at least, with
/// at most one `+` in front.
pub open spec fn unsigned_of(s: Seq<char>) -> Option<nat> {
    let d = if s.len() > 0 && s[0] == '+' {
        s.skip(1)
    } else {
        s
    };
    if d.len() > 0 && all_digits(d) {
        Some(value_of(d))
    } else {
        None
    }
}

/// The number that a signed decimal stands for: an unsigned one, or a `-` and
/// digits.
pub open spec fn signed_of(s: Seq<char>) -> Option<int> {
    if s.len() > 0 && s[0] == '-' {
        let d = s.skip(1);
        if d.len() > 0 && all_digits(d) {
            Some(-(value_of(d) as int))
        } else {
            None
        }
    } else {
        match unsigned_of(s) {
            Some(n) => Some(n as int),
            None => None,
        }
    }
}

/// The number in `s` where it is a decimal that is at most `max`.
pub open spec fn unsigned_up_to(s: Seq<char>, max: nat) -> Option<nat> {
    match unsigned_of(s) {
        Some(n) => if n <= max {
            Some(n)
        } else {
            None
        },
        None => None,
    }
}

/// A decimal holds digits only, and at least one.
pub proof fn lemma_decimal_digits(n: nat)
    ensures
        decimal_of(n).len() > 0,
        all_digits(decimal_of(n)),
    decreases n,
{
    if n >= 10 {
        lemma_decimal_digits(n / 10);
    }
}

pub proof fn lemma_decimal_value(n: nat)
    ensures
        value_of(decimal_of(n)) == n,
    decreases n,
{
    if n >= 10 {
        lemma_decimal_value(n / 10);
        assert(decimal_of(n).drop_last() =~= decimal_of(n / 10));
        assert(decimal_of(n).last() == digit(n % 10));
    } else {
        assert(decimal_of(n).drop_last() =~= Seq::<char>::empty());
        assert(value_of(Seq::<char>::empty()) == 0);
    }
}

/// Reading a decimal back gives the number that was written.
pub proof fn law_decimal_reads_back(n: nat)
    ensures
        unsigned_of(decimal_of(n)) == Some(n),
        signed_of(decimal_of(n)) == Some(n as int),
{
    lemma_decimal_digits(n);
    lemma_decimal_value(n);
    assert(is_digit(decimal_of(n)[0]));
}

/// Two numbers with the same decimal are the same.
pub proof fn law_decimal_injective(m: nat, n: nat)
    requires
        decimal_of(m) == decimal_of(n),
    ensures
        m == n,
{
    lemma_decimal_value(m);
    lemma_decimal_value(n);
}

/// The decimal of `n`.
pub fn decimal(n: u64) -> (r: String)
    ensures
        r@ == decimal_of(n as nat),
    decreases n,
{
    if n < 10 {
        let mut s = String::new();
        s.push((48 + n as u8) as char);
        assert(s@ =~= decimal_of(n as nat));
        s
    } else {
        let mut s = decimal(n / 10);
        s.push((48 + (n % 10) as u8) as char);
        s
    }
}

/// `n` in decimal with a minus sign where it is below zero.
pub open spec fn signed_decimal_of(n: int) -> Seq<char> {
    if n < 0 {
        seq!['-'] + decimal_of((-n) as nat)
    } else {
        decimal_of(n as nat)
    }
}

/// `n` in decimal with a minus sign where it is below zero.
pub fn signed_decimal(n: i64) -> (r: String)
    ensures
        r@ == signed_decimal_of(n as int),
{
    if n < 0 {
        let mut s = String::new();
        s.push('-');
        let m: i128 = -(n as i128);
        let d = decimal(m as u64);
        s.append(d.as_str());
        assert(s@ =~= signed_decimal_of(n as int));
        s
    } else {
        decimal(n as u64)
    }
}

fn read_digits(s: &Vec<char>, from: usize, max: u64) -> (r: Option<u64>)
    requires
        from <= s@.len(),
    ensures
        ({
            let d = s@.skip(from as int);
            match r {
                Some(n) => d.len() > 0 && all_digits(d) && value_of(d) == n && n <= max,
                None => !(d.len() > 0 && all_digits(d)) || value_of(d) > max,
            }
        }),
{
    let ghost d = s@.skip(from as int);
    if from == s.len() {
        return None;
    }
    let mut n: u64 = 0;
    let mut i: usize = from;
    assert(d.take(0) =~= Seq::<char>::empty());
    let mut over: bool = false;
    while i < s.len()
        invariant
            from <= i <= s@.len(),
            d == s@.skip(from as int),
            forall|k: int| 0 <= k < i - from ==> is_digit(#[trigger] d[k]),
            !over ==> n == value_of(d.take(i - from)) && n <= max,
            over ==> value_of(d.take(i - from)) > max,
        decreases s@.len() - i,
    {
        let c: char = s[i];
        assert(d[i - from] == c);
        if !('0' <= c && c <= '9') {
            assert(!is_digit(d[i - from]));
            return None;
        }
        let v: u64 = (c as u8 - 48) as u64;
        assert(d.take(i + 1 - from).drop_last() =~= d.take(i - from));
        assert(d.take(i + 1 - from).last() == c);
        if !over {
            let wide: u128 = n as u128 * 10 + v as u128;
            if wide > max as u128 {
                over = true;
            } else {
                n = wide as u64;
            }
        }
        i += 1;
    }
    assert(d.take(d.len() as int) =~= d);
    if over {
        None
    } else {
        Some(n)
    }
}

/// The number in `s` where it is an unsigned decimal that is at most `max`.
pub fn parse_unsigned(s: &str, max: u64) -> (r: Option<u64>)
    ensures
        match r {
            Some(n) => unsigned_up_to(s@, max as nat) == Some(n as nat),
            None => unsigned_up_to(s@, max as nat) is None,
        },
{
    let x = chars_of(s);
    if x.len() > 0 && x[0] == '+' {
        read_digits(&x, 1, max)
    } else {
        assert(s@.skip(0) =~= s@);
        read_digits(&x, 0, max)
    }
}

/// The number in `s` where it is an unsigned decimal of 64 bits.
pub fn parse_u64(s: &str) -> (r: Option<u64>)
    ensures
        match r {
            Some(n) => unsigned_up_to(s@, u64::MAX as nat) == Some(n as nat),
            None => unsigned_up_to(s@, u64::MAX as nat) is None,
        },
{
    parse_unsigned(s, u64::MAX)
}

/// The number in `s` where it is a signed decimal of 32 bits.
pub open spec fn i32_of(s: Seq<char>) -> Option<int> {
    match signed_of(s) {
        Some(n) => if i32::MIN <= n <= i32::MAX {
            Some(n)
        } else {
            None
        },
        None => None,
    }
}

/// The number in `s` where it is a signed decimal of 32 bits.
pub fn parse_i32(s: &str) -> (r: Option<i32>)
    ensures
        match r {
            Some(n) => i32_of(s@) == Some(n as int),
            None => i32_of(s@) is None,
        },
{
    let x = chars_of(s);
    if x.len() > 0 && x[0] == '-' {
        match read_digits(&x, 1, 0x8000_0000) {
            Some(n) => Some((-(n as i64)) as i32),
            None => None,
        }
    } else {
        match parse_unsigned(s, 0x7fff_ffff) {
            Some(n) => Some(n as i32),
            None => None,
        }
    }
}

/// What is left of `s` without a sign in front.
pub open spec fn after_sign(s: Seq<char>) -> Seq<char> {
    if s.len() > 0 && (s[0] == '+' || s[0] == '-') {
        s.skip(1)
    } else {
        s
    }
}

/// Whether `s` is a run of digits, with one point at most among them or around
/// them, and one digit at least.
pub open spec fn is_decimal(s: Seq<char>) -> bool {
    match crate::text::parts_at(s, '.') {
        Some((whole, fraction)) => all_digits(whole) && all_digits(fraction) && whole.len()
            + fraction.len() > 0,
        None => all_digits(s) && s.len() > 0,
    }
}

/// Whether `s` is an exponent: digits, one at least, with at most one sign in
/// front.
pub open spec fn is_exponent(s: Seq<char>) -> bool {
    all_digits(after_sign(s)) && after_sign(s).len() > 0
}

/// Whether `s`, in lower case and without its sign, is a number: a decimal, with
/// an exponent behind an `e` or without, an infinity, or no number by name.
pub open spec fn is_magnitude(s: Seq<char>) -> bool {
    ||| s == "inf"@
    ||| s == "infinity"@
    ||| s == "nan"@
    ||| match crate::text::parts_at(s, 'e') {
        Some((decimal, exponent)) => is_decimal(decimal) && is_exponent(exponent),
        None => is_decimal(s),
    }
}

/// A text with its ASCII letters in lower case.
pub open spec fn lower(s: Seq<char>) -> Seq<char> {
    s.map_values(|c: char| crate::text::ascii_lower(c))
}

/// Whether `s` reads as a number with a fraction, by the grammar that
/// `f64::from_str` documents. Letters may be in either case.
pub open spec fn is_number(s: Seq<char>) -> bool {
    is_magnitude(after_sign(lower(s)))
}

fn unsigned_part(s: &str) -> (r: String)
    ensures
        r@ == after_sign(s@),
{
    let x = chars_of(s);
    let from: usize = if x.len() > 0 && (x[0] == '+' || x[0] == '-') {
        1
    } else {
        0
    };
    let r = string_of(&x, from, x.len());
    assert(r@ =~= after_sign(s@));
    r
}

fn only_digits(s: &str) -> (r: bool)
    ensures
        r == all_digits(s@),
{
    let x = chars_of(s);
    let mut i: usize = 0;
    while i < x.len()
        invariant
            i <= x@.len(),
            x@ == s@,
            forall|k: int| 0 <= k < i ==> is_digit(#[trigger] x@[k]),
        decreases x@.len() - i,
    {
        if !('0' <= x[i] && x[i] <= '9') {
            assert(!is_digit(x@[i as int]));
            return false;
        }
        i += 1;
    }
    true
}

fn empty(s: &str) -> (r: bool)
    ensures
        r == (s@.len() == 0),
{
    chars_of(s).len() == 0
}

fn reads_as_decimal(s: &str) -> (r: bool)
    ensures
        r == is_decimal(s@),
{
    match split_once(s, '.') {
        Some((whole, fraction)) => only_digits(whole.as_str()) && only_digits(fraction.as_str())
            && !(empty(whole.as_str()) && empty(fraction.as_str())),
        None => only_digits(s) && !empty(s),
    }
}

/// Whether a text reads as a number with a fraction.
pub fn reads_as_number(s: &str) -> (r: bool)
    ensures
        r == is_number(s@),
{
    let low = ascii_lowercase(s);
    assert(low@ == lower(s@));
    let m = unsigned_part(low.as_str());
    if same(m.as_str(), "inf") || same(m.as_str(), "infinity") || same(m.as_str(), "nan") {
        return true;
    }
    match split_once(m.as_str(), 'e') {
        Some((decimal, exponent)) => {
            let power = unsigned_part(exponent.as_str());
            reads_as_decimal(decimal.as_str()) && only_digits(power.as_str()) && !empty(
                power.as_str(),
            )
        },
        None => reads_as_decimal(m.as_str()),
    }
}

// Digits, points, signs and letters: nothing in a number is white space.
proof fn lemma_decimal_not_space(s: Seq<char>, i: int)
    requires
        is_decimal(s),
        0 <= i < s.len(),
    ensures
        !crate::text::is_space(s[i]),
{
    let j = crate::text::find_char(s, '.', 0);
    crate::text::lemma_find_char(s, '.', 0);
    if j < s.len() {
        let whole = s.take(j);
        let fraction = s.skip(j + 1);
        if i < j {
            assert(is_digit(whole[i]));
        } else if i > j {
            assert(is_digit(fraction[i - j - 1]));
        }
    } else {
        assert(is_digit(s[i]));
    }
}

proof fn lemma_magnitude_not_space(s: Seq<char>, i: int)
    requires
        is_magnitude(s),
        0 <= i < s.len(),
    ensures
        !crate::text::is_space(s[i]),
{
    reveal_strlit("inf");
    reveal_strlit("infinity");
    reveal_strlit("nan");
    if s != "inf"@ && s != "infinity"@ && s != "nan"@ {
        let j = crate::text::find_char(s, 'e', 0);
        crate::text::lemma_find_char(s, 'e', 0);
        if j < s.len() {
            let exponent = s.skip(j + 1);
            if i < j {
                lemma_decimal_not_space(s.take(j), i);
            } else if i > j {
                let power = after_sign(exponent);
                let at = i - j - 1;
                if power.len() == exponent.len() {
                    assert(is_digit(power[at]));
                } else if at > 0 {
                    assert(is_digit(power[at - 1]));
                    assert(power[at - 1] == exponent[at]);
                }
                assert(exponent[at] == s[i]);
            }
        } else {
            lemma_decimal_not_space(s, i);
        }
    }
}

/// What reads as a number holds no white space and is not empty.
pub proof fn lemma_number_is_word(s: Seq<char>)
    requires
        is_number(s),
    ensures
        s.len() > 0,
        forall|i: int| 0 <= i < s.len() ==> !crate::text::is_space(#[trigger] s[i]),
{
    reveal_strlit("inf");
    reveal_strlit("infinity");
    reveal_strlit("nan");
    let t = lower(s);
    let m = after_sign(t);
    if s.len() == 0 {
        crate::text::lemma_find_char(m, 'e', 0);
        crate::text::lemma_find_char(m, '.', 0);
        assert(m.len() == 0);
    }
    assert forall|i: int| 0 <= i < s.len() implies !crate::text::is_space(#[trigger] s[i]) by {
        assert(t[i] == crate::text::ascii_lower(s[i]));
        if m.len() == t.len() {
            lemma_magnitude_not_space(m, i);
        } else if i > 0 {
            lemma_magnitude_not_space(m, i - 1);
            assert(m[i - 1] == t[i]);
        }
    }
}

/// A number with a sign reads back, and two numbers with the same text are the
/// same.
pub proof fn law_signed_decimal_reads_back(n: int)
    ensures
        signed_of(signed_decimal_of(n)) == Some(n),
{
    if n < 0 {
        let m = (-n) as nat;
        lemma_decimal_digits(m);
        lemma_decimal_value(m);
        assert((seq!['-'] + decimal_of(m)).skip(1) =~= decimal_of(m));
    } else {
        law_decimal_reads_back(n as nat);
    }
}

/// A number is read up to the greatest that is allowed, with a plus sign in front
/// or without, and with zeros in front or without.
pub proof fn law_numbers_are_read_up_to_the_limit(n: nat, max: nat)
    ensures
        unsigned_up_to(decimal_of(n), max) == (if n <= max {
            Some(n)
        } else {
            None
        }),
        unsigned_up_to(seq!['+'] + decimal_of(n), max) == unsigned_up_to(decimal_of(n), max),
        unsigned_up_to(seq!['0'] + decimal_of(n), max) == unsigned_up_to(decimal_of(n), max),
{
    law_decimal_reads_back(n);
    lemma_decimal_digits(n);
    let d = decimal_of(n);
    assert((seq!['+'] + d).skip(1) =~= d);
    lemma_zero_in_front(d);
    assert((seq!['0'] + d)[0] == '0');
    assert(is_digit(d[0]));
}

proof fn lemma_zero_in_front(d: Seq<char>)
    requires
        all_digits(d),
    ensures
        all_digits(seq!['0'] + d),
        value_of(seq!['0'] + d) == value_of(d),
    decreases d.len(),
{
    let z = seq!['0'] + d;
    assert forall|i: int| 0 <= i < z.len() implies is_digit(#[trigger] z[i]) by {
        if i > 0 {
            assert(z[i] == d[i - 1]);
        }
    }
    if d.len() == 0 {
        assert(z.drop_last() =~= Seq::<char>::empty());
        assert(z.last() == '0');
        assert(value_of(Seq::<char>::empty()) == 0);
    } else {
        lemma_zero_in_front(d.drop_last());
        assert(z.drop_last() =~= seq!['0'] + d.drop_last());
    }
}

/// What is empty, or holds anything but digits behind its sign, is no number.
pub proof fn law_other_texts_are_no_numbers(s: Seq<char>, i: int)
    requires
        s.len() == 0 || (0 <= i < s.len() && !is_digit(s[i]) && (i > 0 || s[i] != '+')),
    ensures
        unsigned_of(s) is None,
{
    if s.len() > 0 {
        if s[0] == '+' {
            if i > 0 {
                assert(s.skip(1)[i - 1] == s[i]);
            }
        }
    }
}

proof fn lemma_digits_without(d: Seq<char>, c: char)
    requires
        all_digits(d),
        c == '.' || c == 'e',
    ensures
        !d.contains(c),
        lower(d) == d,
        after_sign(d) == d,
{
    if d.contains(c) {
        let i = choose|i: int| 0 <= i < d.len() && d[i] == c;
        assert(is_digit(d[i]));
    }
    assert forall|i: int| 0 <= i < d.len() implies crate::text::ascii_lower(#[trigger] d[i])
        == d[i] by {
        assert(is_digit(d[i]));
    }
    assert(lower(d) =~= d);
    if d.len() > 0 {
        assert(is_digit(d[0]));
    }
}

/// What reads as a number with a fraction: digits, one point among them, before
/// them or behind them, with a sign in front or without, and with an exponent or
/// without.
pub proof fn law_fractions_are_numbers(a: Seq<char>, b: Seq<char>, n: nat)
    requires
        all_digits(a),
        all_digits(b),
        a.len() + b.len() > 0,
    ensures
        ({
            let f = a + seq!['.'] + b;
            let e = decimal_of(n);
            &&& a.len() > 0 ==> is_number(a)
            &&& is_number(f)
            &&& is_number(seq!['-'] + f)
            &&& is_number(seq!['+'] + f)
            &&& is_number(f + seq!['e'] + e)
            &&& is_number(f + seq!['E'] + e)
            &&& is_number(f + seq!['e'] + (seq!['-'] + e))
            &&& !is_number(f + seq!['.'])
        }),
{
    reveal_strlit("inf");
    reveal_strlit("infinity");
    reveal_strlit("nan");
    let f = a + seq!['.'] + b;
    let e = decimal_of(n);
    lemma_decimal_digits(n);
    lemma_digits_without(a, '.');
    lemma_digits_without(a, 'e');
    lemma_digits_without(b, '.');
    lemma_digits_without(b, 'e');
    lemma_digits_without(e, 'e');
    crate::text_laws::law_split_undoes_joining(a, '.', b);
    crate::text_laws::law_split_undoes_joining(a, 'e', b);
    lemma_fraction(a, b, f);
    crate::text_laws::law_split_undoes_joining(f, 'e', e);
    let minus = seq!['-'] + e;
    crate::text_laws::law_split_undoes_joining(f, 'e', minus);
    assert(minus.skip(1) =~= e);
    assert(after_sign(minus) == e);
    let m = seq!['-'] + f;
    let p = seq!['+'] + f;
    assert(lower(m) =~= m);
    assert(lower(p) =~= p);
    assert(m.skip(1) =~= f);
    assert(p.skip(1) =~= f);
    let x = f + seq!['e'] + e;
    let y = f + seq!['E'] + e;
    let z = f + seq!['e'] + minus;
    assert(lower(x) =~= x) by {
        assert(forall|i: int| 0 <= i < e.len() ==> lower(e)[i] == crate::text::ascii_lower(e[i]));
        assert(forall|i: int| 0 <= i < f.len() ==> lower(f)[i] == crate::text::ascii_lower(f[i]));
    }
    assert(lower(y) =~= x) by {
        assert(forall|i: int| 0 <= i < e.len() ==> lower(e)[i] == crate::text::ascii_lower(e[i]));
        assert(forall|i: int| 0 <= i < f.len() ==> lower(f)[i] == crate::text::ascii_lower(f[i]));
    }
    assert(lower(z) =~= z) by {
        assert(forall|i: int| 0 <= i < e.len() ==> lower(e)[i] == crate::text::ascii_lower(e[i]));
        assert(forall|i: int| 0 <= i < f.len() ==> lower(f)[i] == crate::text::ascii_lower(f[i]));
    }
    assert(after_sign(x) == x && after_sign(z) == z);
    lemma_two_points(a, b);
}

// A fraction holds no letter, begins with no sign and is its own lower case.
proof fn lemma_fraction(a: Seq<char>, b: Seq<char>, f: Seq<char>)
    requires
        all_digits(a),
        all_digits(b),
        f == a + seq!['.'] + b,
    ensures
        !f.contains('e'),
        lower(f) == f,
        after_sign(f) == f,
        f.len() > 0,
        f[0] != '+' && f[0] != '-',
{
    lemma_digits_without(a, 'e');
    lemma_digits_without(b, 'e');
    assert forall|i: int| 0 <= i < f.len() implies is_digit(#[trigger] f[i]) || f[i] == '.' by {
        if i < a.len() {
            assert(f[i] == a[i]);
        } else if i > a.len() {
            assert(f[i] == b[i - a.len() - 1]);
        }
    }
    if f.contains('e') {
        let i = choose|i: int| 0 <= i < f.len() && f[i] == 'e';
        assert(is_digit(f[i]) || f[i] == '.');
    }
    assert forall|i: int| 0 <= i < f.len() implies crate::text::ascii_lower(#[trigger] f[i])
        == f[i] by {
        assert(is_digit(f[i]) || f[i] == '.');
    }
    assert(lower(f) =~= f);
    assert(is_digit(f[0]) || f[0] == '.');
}

proof fn lemma_two_points(a: Seq<char>, b: Seq<char>)
    requires
        all_digits(a),
        all_digits(b),
    ensures
        !is_number(a + seq!['.'] + b + seq!['.']),
{
    reveal_strlit("inf");
    reveal_strlit("infinity");
    reveal_strlit("nan");
    let f = a + seq!['.'] + b;
    let g = f + seq!['.'];
    lemma_fraction(a, b, f);
    lemma_digits_without(a, '.');
    let rest = b.push('.');
    assert(g =~= a + seq!['.'] + rest);
    crate::text_laws::law_split_undoes_joining(a, '.', rest);
    assert(lower(g) =~= g) by {
        assert(forall|i: int| 0 <= i < f.len() ==> lower(f)[i] == crate::text::ascii_lower(f[i]));
    }
    assert(g[0] == f[0]);
    assert(after_sign(g) == g);
    assert(!g.contains('e')) by {
        if g.contains('e') {
            let i = choose|i: int| 0 <= i < g.len() && g[i] == 'e';
            assert(f[i] == 'e');
            assert(f.contains(f[i]));
        }
    }
    crate::text_laws::law_split_undoes_joining(g, 'e', b);
    assert(rest[rest.len() - 1] == '.');
    assert(!is_digit('.'));
    assert(!all_digits(rest));
    assert(g[g.len() - 1] == '.');
    assert("inf"@[2] == 'f' && "nan"@[2] == 'n' && "infinity"@[7] == 'y');
    assert("inf"@.len() == 3 && "nan"@.len() == 3 && "infinity"@.len() == 8);
}

/// The infinities and what is no number are numbers by name, in either case and
/// with a sign or without.
pub proof fn law_numbers_have_names(s: Seq<char>)
    requires
        lower(s) == "inf"@ || lower(s) == "infinity"@ || lower(s) == "nan"@,
    ensures
        is_number(s),
        is_number(seq!['-'] + s),
        is_number(seq!['+'] + s),
{
    reveal_strlit("inf");
    reveal_strlit("infinity");
    reveal_strlit("nan");
    let m = seq!['-'] + s;
    let p = seq!['+'] + s;
    assert(lower(m) =~= seq!['-'] + lower(s));
    assert(lower(p) =~= seq!['+'] + lower(s));
    assert(lower(m).skip(1) =~= lower(s));
    assert(lower(p).skip(1) =~= lower(s));
    assert(lower(s)[0] == 'i' || lower(s)[0] == 'n');
}

proof fn lemma_has_digit(s: Seq<char>) -> (i: int)
    requires
        is_decimal(s),
    ensures
        0 <= i < s.len(),
        is_digit(s[i]),
{
    crate::text_laws::law_split_is_at_the_first(s, '.');
    match crate::text::parts_at(s, '.') {
        Some((whole, fraction)) => {
            if whole.len() > 0 {
                assert(is_digit(whole[0]));
                assert(s[0] == whole[0]);
                0
            } else {
                assert(is_digit(fraction[0]));
                let i = s.len() - fraction.len();
                assert(s[i] == fraction[0]);
                i
            }
        },
        None => {
            assert(is_digit(s[0]));
            0
        },
    }
}

/// What may stand in a number that is no name.
pub open spec fn in_number(c: char) -> bool {
    is_digit(c) || c == '.' || c == '+' || c == '-' || c == 'e' || c == 'E'
}

proof fn lemma_digits_in_number(d: Seq<char>, i: int)
    requires
        all_digits(d),
        0 <= i < d.len(),
    ensures
        in_number(d[i]),
{
    assert(is_digit(d[i]));
}

proof fn lemma_decimal_in_number(s: Seq<char>, i: int)
    requires
        is_decimal(s),
        0 <= i < s.len(),
    ensures
        in_number(s[i]),
{
    crate::text_laws::law_split_is_at_the_first(s, '.');
    match crate::text::parts_at(s, '.') {
        Some((whole, fraction)) => {
            if i < whole.len() {
                lemma_digits_in_number(whole, i);
            } else if i > whole.len() {
                lemma_digits_in_number(fraction, i - whole.len() - 1);
            }
        },
        None => {
            lemma_digits_in_number(s, i);
        },
    }
}

proof fn lemma_exponent_in_number(s: Seq<char>, i: int)
    requires
        is_exponent(s),
        0 <= i < s.len(),
    ensures
        in_number(s[i]),
{
    let d = after_sign(s);
    if d.len() < s.len() {
        if i > 0 {
            lemma_digits_in_number(d, i - 1);
        }
    } else {
        lemma_digits_in_number(d, i);
    }
}

/// A number that is no name holds a digit, and nothing but digits, points, signs
/// and the letter before its exponent.
pub proof fn law_numbers_are_made_of_digits(s: Seq<char>, i: int) -> (k: int)
    requires
        is_number(s),
        after_sign(lower(s)) != "inf"@,
        after_sign(lower(s)) != "infinity"@,
        after_sign(lower(s)) != "nan"@,
    ensures
        0 <= k < s.len(),
        is_digit(s[k]),
        0 <= i < s.len() ==> in_number(s[i]),
{
    let low = lower(s);
    let m = after_sign(low);
    let off = low.len() - m.len();
    crate::text_laws::law_split_is_at_the_first(m, 'e');
    if 0 <= i < s.len() {
        let c = low[i];
        assert(c == crate::text::ascii_lower(s[i]));
        if i >= off {
            let j = i - off;
            assert(m[j] == c);
            match crate::text::parts_at(m, 'e') {
                Some((decimal, exponent)) => {
                    if j < decimal.len() {
                        lemma_decimal_in_number(decimal, j);
                    } else if j > decimal.len() {
                        lemma_exponent_in_number(exponent, j - decimal.len() - 1);
                    }
                },
                None => {
                    lemma_decimal_in_number(m, j);
                },
            }
        }
        assert(in_number(c));
    }
    let k = match crate::text::parts_at(m, 'e') {
        Some((decimal, exponent)) => {
            let k = lemma_has_digit(decimal);
            assert(m[k] == decimal[k]);
            k
        },
        None => lemma_has_digit(m),
    };
    assert(low[off + k] == m[k]);
    assert(low[off + k] == crate::text::ascii_lower(s[off + k]));
    off + k
}

/// An exponent needs digits on both of its sides, and may have either sign.
pub proof fn law_exponents_need_digits(a: Seq<char>, b: Seq<char>)
    requires
        all_digits(a),
        all_digits(b),
    ensures
        !is_number(a + seq!['e']),
        !is_number(seq!['e'] + b),
        a.len() > 0 && b.len() > 0 ==> is_number(a + seq!['e'] + (seq!['+'] + b)),
        a.len() > 0 && b.len() > 0 ==> is_number(a + seq!['e'] + (seq!['-'] + b)),
{
    reveal_strlit("inf");
    reveal_strlit("infinity");
    reveal_strlit("nan");
    assert("inf"@[0] == 'i' && "infinity"@[0] == 'i' && "nan"@[0] == 'n');
    assert("inf"@[1] == 'n' && "infinity"@[1] == 'n' && "nan"@[1] == 'a');
    lemma_digits_without(a, 'e');
    lemma_digits_without(b, 'e');
    lemma_digits_without(a, '.');
    let nothing = Seq::<char>::empty();
    let x = a + seq!['e'];
    assert(forall|i: int| 0 <= i < a.len() ==> lower(a)[i] == crate::text::ascii_lower(a[i]));
    assert(forall|i: int| 0 <= i < b.len() ==> lower(b)[i] == crate::text::ascii_lower(b[i]));
    assert(lower(x) =~= x);
    assert(x =~= a + seq!['e'] + nothing);
    crate::text_laws::law_split_undoes_joining(a, 'e', nothing);
    assert(a.len() > 0 ==> x[0] == a[0] && is_digit(a[0]));
    assert(after_sign(x) == x);
    let y = seq!['e'] + b;
    assert(lower(y) =~= y);
    assert(y =~= nothing + seq!['e'] + b);
    crate::text_laws::law_split_undoes_joining(nothing, 'e', b);
    crate::text_laws::law_split_undoes_joining(nothing, '.', b);
    assert(y[0] == 'e');
    assert(after_sign(y) == y);
    if a.len() > 0 && b.len() > 0 {
        crate::text_laws::law_split_undoes_joining(a, '.', b);
        let p = seq!['+'] + b;
        let m = seq!['-'] + b;
        assert(p.skip(1) =~= b && m.skip(1) =~= b);
        let u = a + seq!['e'] + p;
        let v = a + seq!['e'] + m;
        assert(lower(u) =~= u);
        assert(lower(v) =~= v);
        assert(u[0] == a[0] && v[0] == a[0]);
        crate::text_laws::law_split_undoes_joining(a, 'e', p);
        crate::text_laws::law_split_undoes_joining(a, 'e', m);
    }
}

} // verus!
