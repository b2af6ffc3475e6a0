//! Sorting integers.
use vstd::prelude::*;

verus! {

/// The mathematical integers of a sequence of machine integers.
pub open spec fn ints(s: Seq<i128>) -> Seq<int> {
    s.map_values(|x: i128| x as int)
}

/// Whether no element is above one that stands behind it.
pub open spec fn ascending(s: Seq<int>) -> bool {
    forall|i: int, j: int| 0 <= i <= j < s.len() ==> s[i] <= s[j]
}

/// Sorting keeps the elements and leaves them in ascending order.
pub proof fn lemma_sort(s: Seq<int>)
    ensures
        ascending(s.sort()),
        s.sort().to_multiset() == s.to_multiset(),
        s.sort().len() == s.len(),
{
    let leq = |x: int, y: int| x <= y;
    s.lemma_sort_ensures();
    let t = s.sort();
    assert forall|i: int, j: int| 0 <= i <= j < t.len() implies t[i] <= t[j] by {
        if i < j {
            assert(leq(t[i], t[j]));
        }
    }
    broadcast use vstd::seq_lib::group_to_multiset_ensures;

    assert(s.to_multiset().len() == s.len());
    assert(t.to_multiset().len() == t.len());
}

/// What is in the sorted sequence is in the sequence, and the other way round.
pub proof fn lemma_sort_member(s: Seq<int>, i: int)
    requires
        0 <= i < s.len(),
    ensures
        s.sort().len() == s.len(),
        s.contains(s.sort()[i]),
        s.sort().contains(s[i]),
{
    lemma_sort(s);
    broadcast use vstd::seq_lib::group_to_multiset_ensures;

    assert(s.sort().contains(s.sort()[i]));
    assert(s.sort().to_multiset().count(s.sort()[i]) > 0);
    assert(s.contains(s[i]));
    assert(s.to_multiset().count(s[i]) > 0);
}

/// An ascending arrangement of the elements of `s` is the sorted one.
pub proof fn lemma_sort_is(s: Seq<int>, t: Seq<int>)
    requires
        ascending(t),
        t.to_multiset() == s.to_multiset(),
    ensures
        t == s.sort(),
{
    let leq = |x: int, y: int| x <= y;
    lemma_sort(s);
    assert(vstd::relations::total_ordering(leq));
    assert(vstd::relations::sorted_by(t, leq));
    assert(vstd::relations::sorted_by(s.sort(), leq));
    vstd::seq_lib::lemma_sorted_unique(t, s.sort(), leq);
}

proof fn lemma_push(s: Seq<i128>, x: i128)
    ensures
        ints(s.push(x)) == ints(s).push(x as int),
        ints(s.push(x)).to_multiset() == ints(s).to_multiset().insert(x as int),
{
    assert(ints(s.push(x)) =~= ints(s).push(x as int));
    broadcast use vstd::seq_lib::group_to_multiset_ensures;

}

proof fn lemma_take_next(s: Seq<i128>, i: int)
    requires
        0 <= i < s.len(),
    ensures
        s.take(i + 1) == s.take(i).push(s[i]),
{
    assert(s.take(i + 1) =~= s.take(i).push(s[i]));
}

fn merge(a: &Vec<i128>, b: &Vec<i128>) -> (r: Vec<i128>)
    requires
        ascending(ints(a@)),
        ascending(ints(b@)),
    ensures
        ascending(ints(r@)),
        ints(r@).to_multiset() == ints(a@).to_multiset().add(ints(b@).to_multiset()),
{
    let mut out: Vec<i128> = Vec::new();
    let mut i: usize = 0;
    let mut j: usize = 0;
    proof {
        assert(ints(a@.take(0)) =~= Seq::<int>::empty());
        assert(ints(b@.take(0)) =~= Seq::<int>::empty());
        assert(ints(out@) =~= Seq::<int>::empty());
        vstd::seq_lib::lemma_multiset_commutative(Seq::<int>::empty(), Seq::<int>::empty());
        assert(Seq::<int>::empty() + Seq::<int>::empty() =~= Seq::<int>::empty());
        assert(ints(out@).to_multiset() =~= ints(a@.take(0)).to_multiset().add(
            ints(b@.take(0)).to_multiset(),
        ));
    }
    while i < a.len() || j < b.len()
        invariant
            i <= a@.len(),
            j <= b@.len(),
            ascending(ints(a@)),
            ascending(ints(b@)),
            ascending(ints(out@)),
            forall|k: int, m: int| 0 <= k < out@.len() && i <= m < a@.len() ==> out@[k] <= a@[m],
            forall|k: int, m: int| 0 <= k < out@.len() && j <= m < b@.len() ==> out@[k] <= b@[m],
            ints(out@).to_multiset() == ints(a@.take(i as int)).to_multiset().add(
                ints(b@.take(j as int)).to_multiset(),
            ),
        decreases a@.len() - i + b@.len() - j,
    {
        let ghost prev = out@;
        let left: bool = j >= b.len() || (i < a.len() && a[i] <= b[j]);
        if left {
            let x: i128 = a[i];
            out.push(x);
            proof {
                lemma_push(prev, x);
                lemma_take_next(a@, i as int);
                lemma_push(a@.take(i as int), x);
                assert(ints(out@).to_multiset() =~= ints(a@.take(i + 1)).to_multiset().add(
                    ints(b@.take(j as int)).to_multiset(),
                ));
                assert forall|m: int| i < m < a@.len() implies x <= a@[m] by {
                    assert(ints(a@)[i as int] <= ints(a@)[m]);
                }
                assert forall|m: int| j <= m < b@.len() implies x <= b@[m] by {
                    assert(ints(b@)[j as int] <= ints(b@)[m]);
                }
            }
            i += 1;
        } else {
            let x: i128 = b[j];
            out.push(x);
            proof {
                lemma_push(prev, x);
                lemma_take_next(b@, j as int);
                lemma_push(b@.take(j as int), x);
                assert(ints(out@).to_multiset() =~= ints(a@.take(i as int)).to_multiset().add(
                    ints(b@.take(j + 1)).to_multiset(),
                ));
                assert forall|m: int| j < m < b@.len() implies x <= b@[m] by {
                    assert(ints(b@)[j as int] <= ints(b@)[m]);
                }
                assert forall|m: int| i <= m < a@.len() implies x <= a@[m] by {
                    assert(ints(a@)[i as int] <= ints(a@)[m]);
                }
            }
            j += 1;
        }
        proof {
            assert forall|k: int, m: int| 0 <= k <= m < out@.len() implies ints(out@)[k] <= ints(
                out@,
            )[m] by {
                if m < prev.len() {
                    assert(ints(prev)[k] <= ints(prev)[m]);
                }
            }
        }
    }
    assert(a@.take(a@.len() as int) =~= a@);
    assert(b@.take(b@.len() as int) =~= b@);
    out
}

fn sort_range(v: &Vec<i128>, from: usize, to: usize) -> (r: Vec<i128>)
    requires
        from <= to <= v@.len(),
    ensures
        ascending(ints(r@)),
        ints(r@).to_multiset() == ints(v@.subrange(from as int, to as int)).to_multiset(),
    decreases to - from,
{
    if to - from <= 1 {
        let mut r: Vec<i128> = Vec::new();
        if from < to {
            r.push(v[from]);
        }
        assert(r@ =~= v@.subrange(from as int, to as int));
        return r;
    }
    let mid: usize = from + (to - from) / 2;
    let a = sort_range(v, from, mid);
    let b = sort_range(v, mid, to);
    proof {
        let l = ints(v@.subrange(from as int, mid as int));
        let h = ints(v@.subrange(mid as int, to as int));
        assert(ints(v@.subrange(from as int, to as int)) =~= l + h);
        vstd::seq_lib::lemma_multiset_commutative(l, h);
    }
    merge(&a, &b)
}

/// The elements of `v` in ascending order.
pub fn sort(v: &Vec<i128>) -> (r: Vec<i128>)
    ensures
        ints(r@) == ints(v@).sort(),
        r@.len() == v@.len(),
{
    let r = sort_range(v, 0, v.len());
    proof {
        assert(v@.subrange(0, v@.len() as int) =~= v@);
        lemma_sort_is(ints(v@), ints(r@));
        lemma_sort(ints(v@));
    }
    r
}

} // verus!
