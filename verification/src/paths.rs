//! Paths, as text with `/` between their components.
use vstd::prelude::*;
use crate::text::chars_of;

verus! {

/// `part` below `base`: an absolute part replaces the base, any other stands
/// behind it and one separator.
pub open spec fn joined(base: Seq<char>, part: Seq<char>) -> Seq<char> {
    if part.len() > 0 && part[0] == '/' {
        part
    } else if base.len() == 0 || base.last() == '/' {
        base + part
    } else {
        base + "/"@ + part
    }
}

/// `part` below `base`.
pub fn join(base: &str, part: &str) -> (r: String)
    ensures
        r@ == joined(base@, part@),
{
    let b = chars_of(base);
    let p = chars_of(part);
    if p.len() > 0 && p[0] == '/' {
        return part.to_owned();
    }
    let mut s = base.to_owned();
    if b.len() > 0 && b[b.len() - 1] != '/' {
        s.append("/");
    }
    s.append(part);
    s
}

/// The end of the component that begins at `i`: the next separator, or the end.
pub open spec fn component_end(p: Seq<char>, i: int) -> int {
    crate::text::find_char(p, '/', i)
}

/// Where the components of `p` from `i` on end. A component is what stands
/// between separators; a lone dot is none.
pub open spec fn ends_from(p: Seq<char>, i: int) -> Seq<int>
    decreases p.len() - i,
{
    if i < 0 || i >= p.len() {
        Seq::empty()
    } else if p[i] == '/' {
        ends_from(p, i + 1)
    } else {
        let j = component_end(p, i);
        proof {
            crate::text::lemma_find_char(p, '/', i);
            assert(j != i);
        }
        if p.subrange(i, j) == seq!['.'] {
            ends_from(p, j)
        } else {
            seq![j] + ends_from(p, j)
        }
    }
}

/// Where the components of `p` end.
pub open spec fn ends_of(p: Seq<char>) -> Seq<int> {
    ends_from(p, 0)
}

/// The positions that `ends` holds, as mathematical integers.
pub open spec fn positions(ends: Seq<usize>) -> Seq<int> {
    ends.map_values(|e: usize| e as int)
}

/// Where the components of a path end.
pub fn component_ends(p: &Vec<char>) -> (r: Vec<usize>)
    ensures
        positions(r@) == ends_of(p@),
        forall|k: int| 0 <= k < r@.len() ==> 0 < #[trigger] r@[k] <= p@.len(),
{
    let mut out: Vec<usize> = Vec::new();
    let mut i: usize = 0;
    assert(positions(out@) + ends_from(p@, 0) =~= ends_of(p@));
    while i < p.len()
        invariant
            i <= p@.len(),
            positions(out@) + ends_from(p@, i as int) == ends_of(p@),
            forall|k: int| 0 <= k < out@.len() ==> 0 < #[trigger] out@[k] <= p@.len(),
        decreases p@.len() - i,
    {
        if p[i] == '/' {
            i += 1;
        } else {
            let mut j: usize = i;
            while j < p.len() && p[j] != '/'
                invariant
                    i <= j <= p@.len(),
                    forall|k: int| i <= k < j ==> p@[k] != '/',
                decreases p@.len() - j,
            {
                j += 1;
            }
            proof {
                crate::text::lemma_find_char_is(p@, '/', i as int, j as int);
            }
            let ghost before = out@;
            let dot: bool = j - i == 1 && p[i] == '.';
            assert(dot == (p@.subrange(i as int, j as int) == seq!['.'])) by {
                let s = p@.subrange(i as int, j as int);
                if s == seq!['.'] {
                    assert(s.len() == 1);
                    assert(s[0] == p@[i as int]);
                }
                if dot {
                    assert(s =~= seq!['.']);
                }
            }
            if !dot {
                out.push(j);
                assert(positions(out@) =~= positions(before).push(j as int));
            }
            assert(positions(out@) + ends_from(p@, j as int) =~= positions(before) + ends_from(
                p@,
                i as int,
            ));
            i = j;
        }
    }
    assert(positions(out@) + Seq::<int>::empty() =~= positions(out@));
    out
}

/// A path below another has that in front and one separator between the two; an
/// absolute path stays what it is.
pub proof fn law_joined_has_one_separator(base: Seq<char>, part: Seq<char>)
    ensures
        part.len() > 0 && part[0] == '/' ==> joined(base, part) == part,
        part.len() > 0 && part[0] != '/' && base.len() > 0 && base.last() != '/' ==> joined(
            base,
            part,
        ) == base + seq!['/'] + part,
        part.len() > 0 && part[0] != '/' && base.len() > 0 && base.last() == '/' ==> joined(
            base,
            part,
        ) == base + part,
{
    reveal_strlit("/");
    assert("/"@ =~= seq!['/']);
}

/// How a path is walked: separators are passed over, and so is a dot that stands
/// alone between them; anything else up to the next separator is a component.
pub proof fn law_components_are_between_separators(p: Seq<char>, i: int, j: int)
    requires
        0 <= i <= j <= p.len(),
        forall|k: int| i <= k < j ==> p[k] != '/',
        j < p.len() ==> p[j] == '/',
    ensures
        i == j && j < p.len() ==> ends_from(p, i) == ends_from(p, i + 1),
        i < j && !(j == i + 1 && p[i] == '.') ==> ends_from(p, i) == seq![j] + ends_from(p, j),
        j == i + 1 && p[i] == '.' ==> ends_from(p, i) == ends_from(p, j),
        ends_from(p, p.len() as int).len() == 0,
{
    crate::text::lemma_find_char_is(p, '/', i, j);
    if i < j {
        let part = p.subrange(i, j);
        if j == i + 1 && p[i] == '.' {
            assert(part =~= seq!['.']);
        } else if part == seq!['.'] {
            assert(part.len() == 1);
            assert(part[0] == p[i]);
        }
    }
}

} // verus!
