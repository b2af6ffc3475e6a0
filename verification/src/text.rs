//! Text: the white-space, line and word rules that the arena reads its inputs
//! by, stated over sequences of characters.
use vstd::prelude::*;

verus! {

/// `String::push` appends one character.
pub assume_specification[ String::push ](s: &mut String, ch: char)
    ensures
        final(s)@ == old(s)@.push(ch),
;

/// The characters of a list of strings.
pub open spec fn views(parts: Seq<String>) -> Seq<Seq<char>> {
    parts.map_values(|p: String| p@)
}

/// Unicode's White_Space property.
pub open spec fn is_space(c: char) -> bool {
    let u = c as u32;
    ||| 0x09 <= u <= 0x0d
    ||| u == 0x20
    ||| u == 0x85
    ||| u == 0xa0
    ||| u == 0x1680
    ||| 0x2000 <= u <= 0x200a
    ||| u == 0x2028
    ||| u == 0x2029
    ||| u == 0x202f
    ||| u == 0x205f
    ||| u == 0x3000
}

/// Whether `c` is white space.
pub fn space(c: char) -> (r: bool)
    ensures
        r == is_space(c),
{
    let u: u32 = c as u32;
    (0x09 <= u && u <= 0x0d) || u == 0x20 || u == 0x85 || u == 0xa0 || u == 0x1680 || (0x2000 <= u
        && u <= 0x200a) || u == 0x2028 || u == 0x2029 || u == 0x202f || u == 0x205f || u == 0x3000
}

/// The position of the first `c` at or after `i`, or the length of `s`.
pub open spec fn find_char(s: Seq<char>, c: char, i: int) -> int
    decreases s.len() - i,
{
    if i >= s.len() {
        s.len() as int
    } else if s[i] == c {
        i
    } else {
        find_char(s, c, i + 1)
    }
}

/// The position of the first character at or after `i` that is (`white`) or
/// is not (`!white`) white space, or the length of `s`.
pub open spec fn find_space(s: Seq<char>, white: bool, i: int) -> int
    decreases s.len() - i,
{
    if i >= s.len() {
        s.len() as int
    } else if is_space(s[i]) == white {
        i
    } else {
        find_space(s, white, i + 1)
    }
}

pub proof fn lemma_find_char(s: Seq<char>, c: char, i: int)
    requires
        0 <= i <= s.len(),
    ensures
        i <= find_char(s, c, i) <= s.len(),
        find_char(s, c, i) < s.len() ==> s[find_char(s, c, i)] == c,
        forall|k: int| i <= k < find_char(s, c, i) ==> s[k] != c,
    decreases s.len() - i,
{
    if i < s.len() && s[i] != c {
        lemma_find_char(s, c, i + 1);
    }
}

/// What pins a position down as the one that `find_char` names.
pub proof fn lemma_find_char_is(s: Seq<char>, c: char, i: int, j: int)
    requires
        0 <= i <= j <= s.len(),
        j < s.len() ==> s[j] == c,
        forall|k: int| i <= k < j ==> s[k] != c,
    ensures
        find_char(s, c, i) == j,
    decreases s.len() - i,
{
    if i < j {
        assert(s[i] != c);
        lemma_find_char_is(s, c, i + 1, j);
    }
}

pub proof fn lemma_find_space(s: Seq<char>, white: bool, i: int)
    requires
        0 <= i <= s.len(),
    ensures
        i <= find_space(s, white, i) <= s.len(),
        find_space(s, white, i) < s.len() ==> is_space(s[find_space(s, white, i)]) == white,
        forall|k: int|
            i <= k < find_space(s, white, i) ==> is_space(#[trigger] s[k]) != white,
    decreases s.len() - i,
{
    if i < s.len() && is_space(s[i]) != white {
        lemma_find_space(s, white, i + 1);
    }
}

/// What pins a position down as the one that `find_space` names.
pub proof fn lemma_find_space_is(s: Seq<char>, white: bool, i: int, j: int)
    requires
        0 <= i <= j <= s.len(),
        j < s.len() ==> is_space(s[j]) == white,
        forall|k: int| i <= k < j ==> is_space(#[trigger] s[k]) != white,
    ensures
        find_space(s, white, i) == j,
    decreases s.len() - i,
{
    if i < j {
        assert(is_space(s[i]) != white);
        lemma_find_space_is(s, white, i + 1, j);
    }
}

/// The characters of a string.
pub fn chars_of(s: &str) -> (r: Vec<char>)
    ensures
        r@ == s@,
{
    let mut out: Vec<char> = Vec::new();
    for c in it: s.chars()
        invariant
            out@ == s@.take(it.index() as int),
            it.seq() == s@,
    {
        out.push(c);
        assert(out@ =~= s@.take(it.index() as int + 1));
    }
    assert(s@.take(s@.len() as int) =~= s@);
    out
}

/// The string of the characters `from..to`.
pub fn string_of(cs: &Vec<char>, from: usize, to: usize) -> (r: String)
    requires
        from <= to <= cs@.len(),
    ensures
        r@ == cs@.subrange(from as int, to as int),
{
    let mut out = String::new();
    let mut i: usize = from;
    while i < to
        invariant
            from <= i <= to <= cs@.len(),
            out@ == cs@.subrange(from as int, i as int),
        decreases to - i,
    {
        out.push(cs[i]);
        i += 1;
        assert(out@ =~= cs@.subrange(from as int, i as int));
    }
    out
}

/// Whether two texts are the same.
pub fn same(a: &str, b: &str) -> (r: bool)
    ensures
        r == (a@ == b@),
{
    let x = chars_of(a);
    let y = chars_of(b);
    if x.len() != y.len() {
        return false;
    }
    let mut i: usize = 0;
    while i < x.len()
        invariant
            x@.len() == y@.len(),
            i <= x@.len(),
            x@ == a@,
            y@ == b@,
            forall|k: int| 0 <= k < i ==> x@[k] == y@[k],
        decreases x@.len() - i,
    {
        if x[i] != y[i] {
            return false;
        }
        i += 1;
    }
    assert(a@ =~= b@);
    true
}

/// Whether `p` stands in `s` at position `i`.
pub open spec fn stands_at(s: Seq<char>, p: Seq<char>, i: int) -> bool {
    0 <= i && i + p.len() <= s.len() && s.subrange(i, i + p.len()) == p
}

/// Whether `s` begins with `p`.
pub open spec fn begins(s: Seq<char>, p: Seq<char>) -> bool {
    stands_at(s, p, 0)
}

/// Whether `s` ends with `p`.
pub open spec fn ends(s: Seq<char>, p: Seq<char>) -> bool {
    stands_at(s, p, s.len() - p.len())
}

/// Whether `p` occurs anywhere in `s`.
pub open spec fn holds(s: Seq<char>, p: Seq<char>) -> bool {
    exists|i: int| #[trigger] stands_at(s, p, i)
}

fn match_at(s: &Vec<char>, p: &Vec<char>, i: usize) -> (r: bool)
    requires
        i <= s@.len(),
    ensures
        r == stands_at(s@, p@, i as int),
{
    let n: usize = s.len();
    if n - i < p.len() {
        return false;
    }
    let mut k: usize = 0;
    while k < p.len()
        invariant
            k <= p@.len(),
            n == s@.len(),
            i + p@.len() <= n,
            forall|m: int| 0 <= m < k ==> s@[i + m] == p@[m],
        decreases p@.len() - k,
    {
        if s[i + k] != p[k] {
            assert(s@.subrange(i as int, i + p@.len())[k as int] != p@[k as int]);
            return false;
        }
        k += 1;
    }
    assert(s@.subrange(i as int, i + p@.len()) =~= p@);
    true
}

/// Whether `s` begins with `p`.
pub fn starts_with(s: &str, p: &str) -> (r: bool)
    ensures
        r == begins(s@, p@),
{
    let x = chars_of(s);
    let y = chars_of(p);
    match_at(&x, &y, 0)
}

/// Whether `s` ends with `p`.
pub fn ends_with(s: &str, p: &str) -> (r: bool)
    ensures
        r == ends(s@, p@),
{
    let x = chars_of(s);
    let y = chars_of(p);
    if x.len() < y.len() {
        return false;
    }
    match_at(&x, &y, x.len() - y.len())
}

/// Whether `p` occurs anywhere in `s`.
pub fn contains(s: &str, p: &str) -> (r: bool)
    ensures
        r == holds(s@, p@),
{
    let x = chars_of(s);
    let y = chars_of(p);
    let mut i: usize = 0;
    while i < x.len()
        invariant
            i <= x@.len(),
            x@ == s@,
            y@ == p@,
            forall|k: int| 0 <= k < i ==> !stands_at(s@, p@, k),
        decreases x@.len() - i,
    {
        if match_at(&x, &y, i) {
            return true;
        }
        i += 1;
    }
    match_at(&x, &y, x.len())
}

/// What follows the prefix `p`, where `s` begins with it.
pub open spec fn after_prefix(s: Seq<char>, p: Seq<char>) -> Option<Seq<char>> {
    if begins(s, p) {
        Some(s.skip(p.len() as int))
    } else {
        None
    }
}

/// What follows the prefix `p`, where `s` begins with it.
pub fn strip_prefix(s: &str, p: &str) -> (r: Option<String>)
    ensures
        opt_view(r) == after_prefix(s@, p@),
{
    let x = chars_of(s);
    let y = chars_of(p);
    if match_at(&x, &y, 0) {
        let rest = string_of(&x, y.len(), x.len());
        assert(rest@ =~= s@.skip(p@.len() as int));
        Some(rest)
    } else {
        None
    }
}

/// The text inside an optional string.
pub open spec fn opt_view(s: Option<String>) -> Option<Seq<char>> {
    match s {
        Some(t) => Some(t@),
        None => None,
    }
}

/// The two sides of the first `c` in `s`.
pub open spec fn parts_at(s: Seq<char>, c: char) -> Option<(Seq<char>, Seq<char>)> {
    let j = find_char(s, c, 0);
    if j < s.len() {
        Some((s.take(j), s.skip(j + 1)))
    } else {
        None
    }
}

/// The two sides of the first `c` in `s`.
pub fn split_once(s: &str, c: char) -> (r: Option<(String, String)>)
    ensures
        match r {
            Some((a, b)) => parts_at(s@, c) == Some((a@, b@)),
            None => parts_at(s@, c) is None,
        },
{
    let x = chars_of(s);
    let j = position(&x, c, 0);
    if j < x.len() {
        let a = string_of(&x, 0, j);
        let b = string_of(&x, j + 1, x.len());
        assert(a@ =~= s@.take(j as int));
        assert(b@ =~= s@.skip(j + 1));
        Some((a, b))
    } else {
        None
    }
}

fn position(s: &Vec<char>, c: char, from: usize) -> (j: usize)
    requires
        from <= s@.len(),
    ensures
        j == find_char(s@, c, from as int),
        from <= j <= s@.len(),
{
    let mut j: usize = from;
    while j < s.len() && s[j] != c
        invariant
            from <= j <= s@.len(),
            forall|k: int| from <= k < j ==> s@[k] != c,
        decreases s@.len() - j,
    {
        j += 1;
    }
    proof {
        lemma_find_char_is(s@, c, from as int, j as int);
    }
    j
}

fn space_position(s: &Vec<char>, white: bool, from: usize) -> (j: usize)
    requires
        from <= s@.len(),
    ensures
        j == find_space(s@, white, from as int),
        from <= j <= s@.len(),
{
    let mut j: usize = from;
    while j < s.len() && space(s[j]) != white
        invariant
            from <= j <= s@.len(),
            forall|k: int| from <= k < j ==> is_space(#[trigger] s@[k]) != white,
        decreases s@.len() - j,
    {
        j += 1;
    }
    proof {
        lemma_find_space_is(s@, white, from as int, j as int);
    }
    j
}

/// The end of `s[..n]` without the white space at its end.
pub open spec fn trimmed_end(s: Seq<char>, n: int) -> int
    decreases n,
{
    if 0 < n <= s.len() && is_space(s[n - 1]) {
        trimmed_end(s, n - 1)
    } else {
        n
    }
}

pub proof fn lemma_trimmed_end(s: Seq<char>, n: int)
    requires
        0 <= n <= s.len(),
    ensures
        0 <= trimmed_end(s, n) <= n,
        trimmed_end(s, n) > 0 ==> !is_space(s[trimmed_end(s, n) - 1]),
        forall|k: int| trimmed_end(s, n) <= k < n ==> is_space(#[trigger] s[k]),
    decreases n,
{
    if 0 < n && is_space(s[n - 1]) {
        lemma_trimmed_end(s, n - 1);
    }
}

/// `s` without the white space around it.
pub open spec fn trimmed(s: Seq<char>) -> Seq<char> {
    let a = find_space(s, false, 0);
    if a == s.len() {
        Seq::<char>::empty()
    } else {
        s.subrange(a, trimmed_end(s, s.len() as int))
    }
}

/// `s` without the white space around it.
pub fn trim(s: &str) -> (r: String)
    ensures
        r@ == trimmed(s@),
{
    let x = chars_of(s);
    let a = space_position(&x, false, 0);
    if a == x.len() {
        return String::new();
    }
    let mut b: usize = x.len();
    proof {
        lemma_find_space(s@, false, 0);
        lemma_trimmed_end(s@, s@.len() as int);
    }
    while space(x[b - 1])
        invariant
            a < b <= x@.len(),
            x@ == s@,
            a < s@.len(),
            !is_space(s@[a as int]),
            trimmed_end(s@, s@.len() as int) == trimmed_end(s@, b as int),
        decreases b,
    {
        assert(b - 1 != a);
        b -= 1;
    }
    string_of(&x, a, b)
}

/// `s` without a carriage return at its end.
pub open spec fn without_cr(s: Seq<char>) -> Seq<char> {
    if s.len() > 0 && s.last() == '\r' {
        s.drop_last()
    } else {
        s
    }
}

/// The lines of `s` from position `i` on. A line ends at a newline, which does
/// not belong to it, nor does a carriage return just before that newline; the
/// newline at the end of the last line may be missing.
pub open spec fn lines_from(s: Seq<char>, i: int) -> Seq<Seq<char>>
    decreases s.len() - i,
{
    if i < 0 || i >= s.len() {
        Seq::<Seq<char>>::empty()
    } else {
        let j = find_char(s, '\n', i);
        proof {
            lemma_find_char(s, '\n', i);
        }
        if j >= s.len() {
            seq![s.subrange(i, s.len() as int)]
        } else {
            seq![without_cr(s.subrange(i, j))] + lines_from(s, j + 1)
        }
    }
}

/// The lines of `s`.
pub open spec fn lines_of(s: Seq<char>) -> Seq<Seq<char>> {
    lines_from(s, 0)
}

/// The lines of `s`.
pub fn lines(s: &str) -> (r: Vec<String>)
    ensures
        views(r@) == lines_of(s@),
{
    let x = chars_of(s);
    let mut out: Vec<String> = Vec::new();
    let mut i: usize = 0;
    assert(views(out@) =~= Seq::<Seq<char>>::empty());
    assert(views(out@) + lines_from(s@, 0) =~= lines_of(s@));
    while i < x.len()
        invariant
            x@ == s@,
            i <= x@.len(),
            views(out@) + lines_from(s@, i as int) == lines_of(s@),
        decreases x@.len() - i,
    {
        let j = position(&x, '\n', i);
        let ghost before = out@;
        if j == x.len() {
            out.push(string_of(&x, i, j));
            assert(views(out@) =~= views(before).push(s@.subrange(i as int, j as int)));
            assert(views(out@) + lines_from(s@, j as int) =~= views(before) + lines_from(
                s@,
                i as int,
            ));
            i = j;
        } else {
            let end: usize = if j > i && x[j - 1] == '\r' {
                j - 1
            } else {
                j
            };
            out.push(string_of(&x, i, end));
            assert(s@.subrange(i as int, end as int) =~= without_cr(
                s@.subrange(i as int, j as int),
            ));
            assert(views(out@) =~= views(before).push(s@.subrange(i as int, end as int)));
            assert(views(out@) + lines_from(s@, j + 1) =~= views(before) + lines_from(
                s@,
                i as int,
            ));
            i = j + 1;
        }
    }
    assert(views(out@) + Seq::<Seq<char>>::empty() =~= views(out@));
    out
}

/// The words of `s` from position `i` on: what stands between white space.
pub open spec fn words_from(s: Seq<char>, i: int) -> Seq<Seq<char>>
    decreases s.len() - i,
{
    if i < 0 || i >= s.len() {
        Seq::<Seq<char>>::empty()
    } else {
        let a = find_space(s, false, i);
        let b = find_space(s, true, a);
        proof {
            lemma_find_space(s, false, i);
            lemma_find_space(s, true, a);
        }
        if a >= s.len() {
            Seq::<Seq<char>>::empty()
        } else {
            seq![s.subrange(a, b)] + words_from(s, b)
        }
    }
}

/// The words of `s`.
pub open spec fn words_of(s: Seq<char>) -> Seq<Seq<char>> {
    words_from(s, 0)
}

/// The words of `s`.
pub fn words(s: &str) -> (r: Vec<String>)
    ensures
        views(r@) == words_of(s@),
{
    let x = chars_of(s);
    let mut out: Vec<String> = Vec::new();
    let mut i: usize = 0;
    assert(views(out@) + words_from(s@, 0) =~= words_of(s@));
    while i < x.len()
        invariant
            x@ == s@,
            i <= x@.len(),
            views(out@) + words_from(s@, i as int) == words_of(s@),
        decreases x@.len() - i,
    {
        let a = space_position(&x, false, i);
        proof {
            lemma_find_space(s@, false, i as int);
        }
        if a == x.len() {
            assert(words_from(s@, a as int) =~= words_from(s@, i as int));
            i = a;
        } else {
            let b = space_position(&x, true, a);
            proof {
                lemma_find_space(s@, true, a as int);
            }
            let ghost before = out@;
            out.push(string_of(&x, a, b));
            assert(views(out@) =~= views(before).push(s@.subrange(a as int, b as int)));
            assert(views(out@) + words_from(s@, b as int) =~= views(before) + words_from(
                s@,
                i as int,
            ));
            i = b;
        }
    }
    assert(views(out@) + Seq::<Seq<char>>::empty() =~= views(out@));
    out
}

/// The parts one after another with `sep` between each two.
pub open spec fn joined(parts: Seq<Seq<char>>, sep: Seq<char>) -> Seq<char>
    decreases parts.len(),
{
    if parts.len() == 0 {
        Seq::<char>::empty()
    } else if parts.len() == 1 {
        parts[0]
    } else {
        joined(parts.drop_last(), sep) + sep + parts.last()
    }
}

/// The parts one after another with `sep` between each two.
pub fn join(parts: &Vec<String>, sep: &str) -> (r: String)
    ensures
        r@ == joined(views(parts@), sep@),
{
    let mut out = String::new();
    let mut i: usize = 0;
    let ghost all = views(parts@);
    assert(all.take(0) =~= Seq::<Seq<char>>::empty());
    while i < parts.len()
        invariant
            i <= parts@.len(),
            all == views(parts@),
            out@ == joined(all.take(i as int), sep@),
        decreases parts@.len() - i,
    {
        if i > 0 {
            out.append(sep);
        }
        out.append(parts[i].as_str());
        assert(all.take(i + 1).drop_last() =~= all.take(i as int));
        assert(all.take(i + 1).last() == parts@[i as int]@);
        if i == 0 {
            assert(out@ =~= all[0]);
            assert(all.take(1)[0] == all[0]);
        }
        i += 1;
    }
    assert(all.take(all.len() as int) =~= all);
    out
}

/// Whether `a` comes before `b` in dictionary order of their characters, both
/// compared from position `i` on.
pub open spec fn before_from(a: Seq<char>, b: Seq<char>, i: int) -> bool
    decreases a.len() - i,
{
    if i >= b.len() {
        false
    } else if i >= a.len() {
        true
    } else if a[i] == b[i] {
        before_from(a, b, i + 1)
    } else {
        (a[i] as int) < (b[i] as int)
    }
}

/// Whether `a` comes before `b` in dictionary order of their characters.
pub open spec fn before(a: Seq<char>, b: Seq<char>) -> bool {
    before_from(a, b, 0)
}

/// Whether `a` comes before `b` in dictionary order of their characters.
pub fn less(a: &str, b: &str) -> (r: bool)
    ensures
        r == before(a@, b@),
{
    let x = chars_of(a);
    let y = chars_of(b);
    let mut i: usize = 0;
    while i < x.len() && i < y.len()
        invariant
            x@ == a@,
            y@ == b@,
            i <= x@.len(),
            i <= y@.len(),
            before(a@, b@) == before_from(a@, b@, i as int),
        decreases x@.len() - i,
    {
        if x[i] != y[i] {
            return x[i] < y[i];
        }
        i += 1;
    }
    x.len() < y.len()
}

/// Dictionary order does not put a text before itself.
pub proof fn lemma_before_irreflexive(a: Seq<char>, i: int)
    requires
        0 <= i,
    ensures
        !before_from(a, a, i),
    decreases a.len() - i,
{
    if i < a.len() {
        lemma_before_irreflexive(a, i + 1);
    }
}

/// Dictionary order is transitive.
pub proof fn lemma_before_transitive(a: Seq<char>, b: Seq<char>, c: Seq<char>, i: int)
    requires
        0 <= i,
        before_from(a, b, i),
        before_from(b, c, i),
    ensures
        before_from(a, c, i),
    decreases a.len() - i,
{
    if i < a.len() && i < b.len() && i < c.len() && a[i] == b[i] && b[i] == c[i] {
        lemma_before_transitive(a, b, c, i + 1);
    }
}

/// Of two texts that agree up to `i` and are not the same, one comes first.
pub proof fn lemma_before_total(a: Seq<char>, b: Seq<char>, i: int)
    requires
        0 <= i <= a.len(),
        i <= b.len(),
        forall|k: int| 0 <= k < i ==> a[k] == b[k],
        a != b,
    ensures
        before_from(a, b, i) || before_from(b, a, i),
    decreases a.len() - i,
{
    if i == a.len() && i == b.len() {
        assert(a =~= b);
    } else if i < a.len() && i < b.len() && a[i] == b[i] {
        lemma_before_total(a, b, i + 1);
    }
}

/// The position of the first of `lines` at or after `i` that begins with `p`,
/// or their number.
pub open spec fn first_beginning(lines: Seq<Seq<char>>, p: Seq<char>, i: int) -> int
    decreases lines.len() - i,
{
    if i >= lines.len() {
        lines.len() as int
    } else if begins(lines[i], p) {
        i
    } else {
        first_beginning(lines, p, i + 1)
    }
}

pub proof fn lemma_first_beginning(all: Seq<Seq<char>>, p: Seq<char>, i: int)
    requires
        0 <= i <= all.len(),
    ensures
        i <= first_beginning(all, p, i) <= all.len(),
        first_beginning(all, p, i) < all.len() ==> begins(
            all[first_beginning(all, p, i)],
            p,
        ),
    decreases all.len() - i,
{
    if i < all.len() && !begins(all[i], p) {
        lemma_first_beginning(all, p, i + 1);
    }
}

/// The position of the first of `lines` that begins with `p`, or their number.
pub fn find_beginning(lines: &Vec<String>, p: &str) -> (r: usize)
    ensures
        r == first_beginning(views(lines@), p@, 0),
        r <= lines@.len(),
{
    let mut i: usize = 0;
    while i < lines.len()
        invariant
            i <= lines@.len(),
            first_beginning(views(lines@), p@, 0) == first_beginning(views(lines@), p@, i as int),
        decreases lines@.len() - i,
    {
        if starts_with(lines[i].as_str(), p) {
            return i;
        }
        i += 1;
    }
    i
}

/// The first word of `s`.
pub open spec fn first_word(s: Seq<char>) -> Option<Seq<char>> {
    let w = words_of(s);
    if w.len() > 0 {
        Some(w[0])
    } else {
        None
    }
}

/// Adds a text to a list of texts.
pub fn push_text(list: &mut Vec<String>, s: &str)
    ensures
        views(final(list)@) == views(old(list)@).push(s@),
{
    let ghost before = list@;
    list.push(s.to_owned());
    assert(views(list@) =~= views(before).push(s@));
}

/// Adds a text to a list of texts.
pub fn push_string(list: &mut Vec<String>, s: String)
    ensures
        views(final(list)@) == views(old(list)@).push(s@),
{
    let ghost before = list@;
    list.push(s);
    assert(views(list@) =~= views(before).push(s@));
}

/// A copy of an optional text.
pub fn copied(s: &Option<String>) -> (r: Option<String>)
    ensures
        r == *s,
{
    match s {
        Some(t) => Some(t.clone()),
        None => None,
    }
}

/// The text inside an optional string, or `other`.
pub open spec fn text_or(s: Option<String>, other: Seq<char>) -> Seq<char> {
    match s {
        Some(t) => t@,
        None => other,
    }
}

/// The text inside an optional string, or `other`.
pub fn or_text(s: &Option<String>, other: &str) -> (r: String)
    ensures
        r@ == text_or(*s, other@),
{
    match s {
        Some(t) => t.clone(),
        None => other.to_owned(),
    }
}

/// The ASCII letter `c` in lower case, any other ASCII character as it is.
pub open spec fn ascii_lower(c: char) -> char {
    if 'A' <= c <= 'Z' {
        (c as int + 32) as char
    } else {
        c
    }
}

/// Whether every character of `s` is ASCII.
pub open spec fn all_ascii(s: Seq<char>) -> bool {
    forall|i: int| 0 <= i < s.len() ==> (#[trigger] s[i] as int) < 128
}

/// A text with its ASCII letters in lower case.
pub fn ascii_lowercase(s: &str) -> (r: String)
    ensures
        r@ == s@.map_values(|c: char| ascii_lower(c)),
{
    let x = chars_of(s);
    let mut out = String::new();
    let ghost all = s@.map_values(|c: char| ascii_lower(c));
    let mut i: usize = 0;
    while i < x.len()
        invariant
            i <= x@.len(),
            x@ == s@,
            all == s@.map_values(|c: char| ascii_lower(c)),
            out@ == all.take(i as int),
        decreases x@.len() - i,
    {
        let c: char = x[i];
        if 'A' <= c && c <= 'Z' {
            let u: u8 = c as u8;
            out.push((u + 32) as char);
        } else {
            out.push(c);
        }
        assert(all.take(i + 1) =~= all.take(i as int).push(all[i as int]));
        i += 1;
    }
    assert(all.take(all.len() as int) =~= all);
    out
}

} // verus!
