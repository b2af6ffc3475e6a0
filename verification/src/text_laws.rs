//! What holds of the parts of a text: its lines, its words, what is left of it
//! when it is trimmed or split, and its place in the dictionary.
use vstd::prelude::*;

verus! {

/// The white space among the ASCII characters: the blank, and the tab with the
/// four controls behind it, the line feed and the carriage return among them.
pub proof fn law_ascii_white_space(c: char)
    requires
        (c as int) < 128,
    ensures
        crate::text::is_space(c) <==> c == ' ' || 9 <= c as int <= 13,
{
}

/// Trimming takes away white space alone, and all that is around: the text is
/// some white space, what is left, and some white space; and what is left neither
/// begins nor ends with any.
pub proof fn law_trimmed_is_the_middle(s: Seq<char>) -> (w: (int, int))
    ensures
        0 <= w.0 <= w.1 <= s.len(),
        crate::text::trimmed(s) == s.subrange(w.0, w.1),
        forall|i: int| 0 <= i < w.0 ==> crate::text::is_space(#[trigger] s[i]),
        forall|i: int| w.1 <= i < s.len() ==> crate::text::is_space(#[trigger] s[i]),
        w.0 < w.1 ==> !crate::text::is_space(s[w.0]) && !crate::text::is_space(s[w.1 - 1]),
{
    let a = crate::text::find_space(s, false, 0);
    let b = crate::text::trimmed_end(s, s.len() as int);
    crate::text::lemma_find_space(s, false, 0);
    crate::text::lemma_trimmed_end(s, s.len() as int);
    if a == s.len() {
        assert(s.subrange(a, a) =~= Seq::<char>::empty());
        (a, a)
    } else {
        assert(!crate::text::is_space(s[a]));
        assert(a < b);
        (a, b)
    }
}

/// What has no white space at its ends stays as it is, whatever white space is put
/// around it.
pub proof fn law_trimming_undoes_padding(a: Seq<char>, t: Seq<char>, b: Seq<char>)
    requires
        t.len() > 0,
        !crate::text::is_space(t[0]),
        !crate::text::is_space(t.last()),
        forall|i: int| 0 <= i < a.len() ==> crate::text::is_space(#[trigger] a[i]),
        forall|i: int| 0 <= i < b.len() ==> crate::text::is_space(#[trigger] b[i]),
    ensures
        crate::text::trimmed(a + t + b) == t,
{
    let s = a + t + b;
    let n = a.len() as int;
    let m = n + t.len();
    assert forall|i: int| 0 <= i < n implies crate::text::is_space(#[trigger] s[i]) by {
        assert(s[i] == a[i]);
    }
    assert(s[n] == t[0]);
    crate::text::lemma_find_space_is(s, false, 0, n);
    lemma_trimmed_end_is(s, s.len() as int, m, b);
    assert(s.subrange(n, m) =~= t);
}

proof fn lemma_trimmed_end_is(s: Seq<char>, n: int, m: int, b: Seq<char>)
    requires
        0 < m <= n <= s.len(),
        s.len() == m + b.len(),
        forall|i: int| 0 <= i < b.len() ==> crate::text::is_space(#[trigger] b[i]),
        forall|i: int| m <= i < s.len() ==> s[i] == b[i - m],
        !crate::text::is_space(s[m - 1]),
    ensures
        crate::text::trimmed_end(s, n) == m,
    decreases n,
{
    if m < n {
        assert(crate::text::is_space(b[n - 1 - m]));
        lemma_trimmed_end_is(s, n - 1, m, b);
    }
}

/// A text that is split at a character is what stands before its first occurrence,
/// the character, and the rest; it is not split where the character is not in it.
pub proof fn law_split_is_at_the_first(s: Seq<char>, c: char)
    ensures
        match crate::text::parts_at(s, c) {
            Some((a, b)) => s == a + seq![c] + b && !a.contains(c),
            None => !s.contains(c),
        },
{
    let j = crate::text::find_char(s, c, 0);
    crate::text::lemma_find_char(s, c, 0);
    if j < s.len() {
        assert(s =~= s.take(j) + seq![c] + s.skip(j + 1));
        if s.take(j).contains(c) {
            let k = choose|k: int| 0 <= k < j && s.take(j)[k] == c;
            assert(s[k] == c);
        }
    } else if s.contains(c) {
        let k = choose|k: int| 0 <= k < s.len() && s[k] == c;
        assert(s[k] != c);
    }
}

/// Two parts with a character between them that the first does not hold are
/// split into these parts.
pub proof fn law_split_undoes_joining(a: Seq<char>, c: char, b: Seq<char>)
    requires
        !a.contains(c),
    ensures
        crate::text::parts_at(a + seq![c] + b, c) == Some((a, b)),
        crate::text::parts_at(a, c) is None,
{
    let s = a + seq![c] + b;
    let n = a.len() as int;
    assert forall|i: int| 0 <= i < n implies s[i] != c && a[i] != c by {
        assert(s[i] == a[i]);
        assert(a.contains(a[i]));
    }
    crate::text::lemma_find_char_is(s, c, 0, n);
    crate::text::lemma_find_char_is(a, c, 0, n);
    assert(s.take(n) =~= a);
    assert(s.skip(n + 1) =~= b);
}

proof fn lemma_find_char_behind(p: Seq<char>, q: Seq<char>, c: char, i: int)
    requires
        0 <= i <= q.len(),
    ensures
        crate::text::find_char(p + q, c, p.len() + i) == p.len() + crate::text::find_char(q, c, i),
    decreases q.len() - i,
{
    if i < q.len() {
        assert((p + q)[p.len() + i] == q[i]);
        if q[i] != c {
            lemma_find_char_behind(p, q, c, i + 1);
        }
    }
}

proof fn lemma_lines_behind(p: Seq<char>, q: Seq<char>, i: int)
    requires
        0 <= i <= q.len(),
    ensures
        crate::text::lines_from(p + q, p.len() + i) == crate::text::lines_from(q, i),
    decreases q.len() - i,
{
    if i < q.len() {
        let j = crate::text::find_char(q, '\n', i);
        crate::text::lemma_find_char(q, '\n', i);
        lemma_find_char_behind(p, q, '\n', i);
        let n = p.len() as int;
        assert((p + q).subrange(n + i, n + j) =~= q.subrange(i, j));
        if j < q.len() {
            lemma_lines_behind(p, q, j + 1);
        } else {
            assert((p + q).len() == n + j);
        }
    }
}

/// A line ends at its line feed, with or without a carriage return before that;
/// what follows are the other lines. The last line needs no end.
pub proof fn law_lines_are_what_is_between(line: Seq<char>, rest: Seq<char>)
    requires
        !line.contains('\n'),
        line.len() > 0 ==> line.last() != '\r',
    ensures
        crate::text::lines_of(line + seq!['\n'] + rest) == seq![line] + crate::text::lines_of(rest),
        crate::text::lines_of(line + seq!['\r', '\n'] + rest) == seq![line]
            + crate::text::lines_of(rest),
        line.len() > 0 ==> crate::text::lines_of(line) == seq![line],
        crate::text::lines_of(Seq::empty()).len() == 0,
{
    let n = line.len() as int;
    let a = line + seq!['\n'];
    let b = line + seq!['\r', '\n'];
    let s = a + rest;
    let t = b + rest;
    assert forall|i: int| 0 <= i < n implies line[i] != '\n' by {
        assert(line.contains(line[i]));
    }
    assert(forall|i: int| 0 <= i < n ==> s[i] == line[i] && t[i] == line[i]);
    assert(s[n] == '\n' && t[n] == '\r' && t[n + 1] == '\n');
    crate::text::lemma_find_char_is(s, '\n', 0, n);
    crate::text::lemma_find_char_is(t, '\n', 0, n + 1);
    assert(s.subrange(0, n) =~= line);
    assert(t.subrange(0, n + 1) =~= line.push('\r'));
    assert(line.push('\r').drop_last() =~= line);
    lemma_lines_behind(a, rest, 0);
    lemma_lines_behind(b, rest, 0);
    if n > 0 {
        crate::text::lemma_find_char_is(line, '\n', 0, n);
        assert(line.subrange(0, n) =~= line);
    }
}

proof fn lemma_find_space_behind(p: Seq<char>, q: Seq<char>, white: bool, i: int)
    requires
        0 <= i <= q.len(),
    ensures
        crate::text::find_space(p + q, white, p.len() + i) == p.len() + crate::text::find_space(
            q,
            white,
            i,
        ),
    decreases q.len() - i,
{
    if i < q.len() {
        assert((p + q)[p.len() + i] == q[i]);
        if crate::text::is_space(q[i]) != white {
            lemma_find_space_behind(p, q, white, i + 1);
        }
    }
}

proof fn lemma_words_behind(p: Seq<char>, q: Seq<char>, i: int)
    requires
        0 <= i <= q.len(),
    ensures
        crate::text::words_from(p + q, p.len() + i) == crate::text::words_from(q, i),
    decreases q.len() - i,
{
    if i < q.len() {
        let a = crate::text::find_space(q, false, i);
        crate::text::lemma_find_space(q, false, i);
        lemma_find_space_behind(p, q, false, i);
        if a < q.len() {
            let b = crate::text::find_space(q, true, a);
            crate::text::lemma_find_space(q, true, a);
            lemma_find_space_behind(p, q, true, a);
            let n = p.len() as int;
            assert((p + q).subrange(n + a, n + b) =~= q.subrange(a, b));
            assert(b > a);
            lemma_words_behind(p, q, b);
        }
    }
}

/// White space in front of a text makes no difference to its words.
pub proof fn law_words_ignore_space_in_front(gap: Seq<char>, s: Seq<char>)
    requires
        forall|i: int| 0 <= i < gap.len() ==> crate::text::is_space(#[trigger] gap[i]),
    ensures
        crate::text::words_of(gap + s) == crate::text::words_of(s),
{
    let t = gap + s;
    let n = gap.len() as int;
    lemma_words_behind(gap, s, 0);
    if n > 0 {
        if s.len() == 0 {
            assert forall|i: int| 0 <= i < t.len() implies crate::text::is_space(#[trigger] t[i]) by {
                assert(t[i] == gap[i]);
            }
            crate::text::lemma_find_space_is(t, false, 0, t.len() as int);
        } else {
            crate::text::lemma_find_space(t, false, n);
            let a = crate::text::find_space(t, false, n);
            assert forall|i: int| 0 <= i < a implies crate::text::is_space(#[trigger] t[i]) by {
                if i < n {
                    assert(t[i] == gap[i]);
                }
            }
            crate::text::lemma_find_space_is(t, false, 0, a);
            assert(crate::text::words_from(t, 0) == crate::text::words_from(t, n));
        }
    } else {
        assert(t =~= s);
    }
}

/// The words of a text hold no white space, and none is empty.
pub proof fn law_words_hold_no_space(s: Seq<char>, from: int)
    requires
        0 <= from <= s.len(),
    ensures
        forall|i: int|
            0 <= i < crate::text::words_from(s, from).len() ==> crate::report::is_word(
                #[trigger] crate::text::words_from(s, from)[i],
            ),
    decreases s.len() - from,
{
    if from < s.len() {
        let a = crate::text::find_space(s, false, from);
        crate::text::lemma_find_space(s, false, from);
        if a < s.len() {
            let b = crate::text::find_space(s, true, a);
            crate::text::lemma_find_space(s, true, a);
            assert(b > a);
            law_words_hold_no_space(s, b);
            let w = s.subrange(a, b);
            let rest = crate::text::words_from(s, b);
            assert(crate::report::is_word(w)) by {
                assert forall|i: int| 0 <= i < w.len() implies !crate::text::is_space(
                    #[trigger] w[i],
                ) by {
                    assert(w[i] == s[a + i]);
                }
            }
            let all = crate::text::words_from(s, from);
            assert(all == seq![w] + rest);
            assert forall|i: int| 0 <= i < all.len() implies crate::report::is_word(
                #[trigger] all[i],
            ) by {
                if i > 0 {
                    assert(all[i] == rest[i - 1]);
                }
            }
        }
    }
}

/// Joining puts the separator between each two parts, and nowhere else.
pub proof fn law_joining_adds_one_separator(
    parts: Seq<Seq<char>>,
    last: Seq<char>,
    sep: Seq<char>,
)
    ensures
        parts.len() > 0 ==> crate::text::joined(parts.push(last), sep) == crate::text::joined(
            parts,
            sep,
        ) + sep + last,
        crate::text::joined(seq![last], sep) == last,
        crate::text::joined(Seq::empty(), sep).len() == 0,
{
    assert(parts.push(last).drop_last() =~= parts);
}

/// A text comes before another in the dictionary where, behind what they have in
/// common, it ends or has the lesser character.
pub proof fn law_dictionary_order(a: Seq<char>, b: Seq<char>, k: int)
    requires
        0 <= k <= a.len(),
        k <= b.len(),
        forall|i: int| 0 <= i < k ==> a[i] == b[i],
    ensures
        k == a.len() && k < b.len() ==> crate::text::before(a, b) && !crate::text::before(b, a),
        k == a.len() && k == b.len() ==> !crate::text::before(a, b),
        k < a.len() && k < b.len() && (a[k] as int) < (b[k] as int) ==> crate::text::before(a, b)
            && !crate::text::before(b, a),
{
    lemma_skip_common(a, b, 0, k);
    lemma_skip_common(b, a, 0, k);
}

proof fn lemma_skip_common(a: Seq<char>, b: Seq<char>, i: int, k: int)
    requires
        0 <= i <= k <= a.len(),
        k <= b.len(),
        forall|j: int| 0 <= j < k ==> a[j] == b[j],
    ensures
        crate::text::before_from(a, b, i) == crate::text::before_from(a, b, k),
    decreases k - i,
{
    if i < k {
        assert(a[i] == b[i]);
        lemma_skip_common(a, b, i + 1, k);
    }
}

/// The first line that begins with a text is found: none before it does.
pub proof fn law_first_beginning_is_first(all: Seq<Seq<char>>, p: Seq<char>, from: int, i: int)
    requires
        0 <= from <= i <= all.len(),
        i < all.len() ==> crate::text::begins(all[i], p),
        forall|j: int| from <= j < i ==> !crate::text::begins(#[trigger] all[j], p),
    ensures
        crate::text::first_beginning(all, p, from) == i,
    decreases i - from,
{
    if from < i {
        assert(!crate::text::begins(all[from], p));
        law_first_beginning_is_first(all, p, from + 1, i);
    }
}

/// A text begins with each of its fronts and ends with each of its ends, and holds
/// whatever stands between two others.
pub proof fn law_parts_are_found(a: Seq<char>, b: Seq<char>, c: Seq<char>)
    ensures
        crate::text::begins(a + b, a),
        crate::text::ends(a + b, b),
        crate::text::holds(a + b + c, b),
        crate::text::after_prefix(a + b, a) == Some(b),
{
    assert((a + b).subrange(0, a.len() as int) =~= a);
    assert((a + b).subrange(a.len() as int, (a + b).len() as int) =~= b);
    assert((a + b).skip(a.len() as int) =~= b);
    let s = a + b + c;
    assert(s.subrange(a.len() as int, a.len() as int + b.len()) =~= b);
    assert(crate::text::stands_at(s, b, a.len() as int));
}

/// Lower case changes the capital ASCII letters alone, each to its small one.
pub proof fn law_lower_case_is_a_shift(c: char)
    ensures
        'A' <= c <= 'Z' ==> crate::text::ascii_lower(c) as int == c as int + 32,
        !('A' <= c <= 'Z') ==> crate::text::ascii_lower(c) == c,
{
}

/// A list of texts over characters has the characters of each, in their place.
pub proof fn law_views_are_one_by_one(parts: Seq<String>, i: int)
    requires
        0 <= i < parts.len(),
    ensures
        crate::text::views(parts).len() == parts.len(),
        crate::text::views(parts)[i] == parts[i]@,
        crate::text::opt_view(Some(parts[i])) == Some(parts[i]@),
        crate::text::opt_view(None) is None,
{
}

} // verus!
