//! Stable sorting by a ranking that says which of two items goes first.

use vstd::prelude::*;

verus! {

/// Items with a strict "goes first" ranking on their views.
pub trait Ranked: View + Sized {
    /// `a` goes strictly before `b`.
    spec fn ranks_before(a: Self::V, b: Self::V) -> bool;

    fn goes_before(&self, other: &Self) -> (r: bool)
        ensures
            r == Self::ranks_before(self@, other@),
    ;
}

/// The views of `s`.
pub open spec fn views<T: View>(s: Seq<T>) -> Seq<T::V> {
    s.map_values(|t: T| t@)
}

/// `s` with `x` placed after every item that `x` does not go before, scanning
/// from the end: `x` lands after the items it ties with.
pub open spec fn insert_ranked<T: Ranked>(s: Seq<T::V>, x: T::V) -> Seq<T::V>
    decreases s.len(),
{
    if s.len() == 0 {
        seq![x]
    } else if T::ranks_before(x, s.last()) {
        insert_ranked::<T>(s.drop_last(), x).push(s.last())
    } else {
        s.push(x)
    }
}

/// The stable sort of `s`: items in ranking order, ties in their order in `s`.
pub open spec fn stable_sorted<T: Ranked>(s: Seq<T::V>) -> Seq<T::V>
    decreases s.len(),
{
    if s.len() == 0 {
        s
    } else {
        insert_ranked::<T>(stable_sorted::<T>(s.drop_last()), s.last())
    }
}

/// Where `insert_ranked` puts `x` in `s`, given that `x` goes before none of
/// `s[..p]`'s last item (or `p == 0`) and before every item of `s[p..]`.
proof fn lemma_insert_at<T: Ranked>(s: Seq<T::V>, x: T::V, p: int)
    requires
        0 <= p <= s.len(),
        p == 0 || !T::ranks_before(x, s[p - 1]),
        forall|k: int| p <= k < s.len() ==> T::ranks_before(x, #[trigger] s[k]),
    ensures
        insert_ranked::<T>(s, x) == s.insert(p, x),
    decreases s.len() - p,
{
    if s.len() == 0 {
        assert(s.insert(p, x) =~= seq![x]);
    } else if p == s.len() {
        assert(s.insert(p, x) =~= s.push(x));
    } else {
        lemma_insert_at::<T>(s.drop_last(), x, p);
        assert(s.insert(p, x) =~= s.drop_last().insert(p, x).push(s.last()));
    }
}

/// `v` stably sorted by `T`'s ranking.
pub fn stable_sort<T: Ranked>(v: Vec<T>) -> (out: Vec<T>)
    ensures
        views(out@) == stable_sorted::<T>(views(v@)),
{
    let ghost input = v@;
    let mut out: Vec<T> = Vec::new();
    for x in it: v
        invariant
            it.seq() == input,
            views(out@) == stable_sorted::<T>(views(input.take(it.index() as int))),
    {
        let ghost i = it.index() as int;
        let ghost sorted = views(out@);
        let mut p = out.len();
        while p > 0 && x.goes_before(&out[p - 1])
            invariant
                p <= out@.len(),
                sorted == views(out@),
                forall|k: int| p <= k < out@.len() ==> T::ranks_before(x@, #[trigger] sorted[k]),
            decreases p,
        {
            p = p - 1;
        }
        proof {
            lemma_insert_at::<T>(sorted, x@, p as int);
            assert(views(input.take(i + 1)).drop_last() =~= views(input.take(i)));
            assert(views(input.take(i + 1)).last() == x@);
        }
        out.insert(p, x);
        assert(views(out@) =~= sorted.insert(p as int, x@));
    }
    assert(input.take(input.len() as int) =~= input);
    out
}

/// The ranking of `T` is a strict weak order: never both ways, and "does not
/// go before" chains.
pub open spec fn is_strict_weak_order<T: Ranked>() -> bool {
    &&& forall|a: T::V, b: T::V| #[trigger] T::ranks_before(a, b) ==> !T::ranks_before(b, a)
    &&& forall|a: T::V, b: T::V, c: T::V|
        #![trigger T::ranks_before(a, b), T::ranks_before(b, c)]
        !T::ranks_before(a, b) && !T::ranks_before(b, c) ==> !T::ranks_before(a, c)
}

/// No item of `s` goes before an item ahead of it.
pub open spec fn is_ranked<T: Ranked>(s: Seq<T::V>) -> bool {
    forall|i: int, j: int| 0 <= i < j < s.len() ==> !T::ranks_before(#[trigger] s[j], #[trigger] s[i])
}

proof fn lemma_insert_ranked_multiset<T: Ranked>(s: Seq<T::V>, x: T::V)
    ensures
        insert_ranked::<T>(s, x).to_multiset() == s.to_multiset().insert(x),
    decreases s.len(),
{
    broadcast use vstd::seq_lib::to_multiset_build;
    broadcast use vstd::multiset::group_multiset_axioms;

    if s.len() == 0 {
        assert(seq![x] =~= s.push(x));
        vstd::seq_lib::to_multiset_build(s, x);
    } else if T::ranks_before(x, s.last()) {
        lemma_insert_ranked_multiset::<T>(s.drop_last(), x);
        assert(s.drop_last().push(s.last()) == s);
        assert(insert_ranked::<T>(s, x).to_multiset() =~= s.to_multiset().insert(x));
    }
}

/// Sorting keeps the items: the result is a permutation of the input.
pub proof fn law_stable_sort_permutes<T: Ranked>(s: Seq<T::V>)
    ensures
        stable_sorted::<T>(s).to_multiset() == s.to_multiset(),
    decreases s.len(),
{
    broadcast use vstd::seq_lib::to_multiset_build;

    if s.len() > 0 {
        law_stable_sort_permutes::<T>(s.drop_last());
        lemma_insert_ranked_multiset::<T>(stable_sorted::<T>(s.drop_last()), s.last());
        assert(s.drop_last().push(s.last()) == s);
    }
}

/// Every item of a sorted sequence is an item of the input.
pub proof fn lemma_sorted_items<T: Ranked>(s: Seq<T::V>, k: int)
    requires
        0 <= k < stable_sorted::<T>(s).len(),
    ensures
        s.contains(stable_sorted::<T>(s)[k]),
        stable_sorted::<T>(s).len() == s.len(),
{
    broadcast use vstd::seq_lib::to_multiset_contains;
    broadcast use vstd::seq_lib::to_multiset_len;

    law_stable_sort_permutes::<T>(s);
    let out = stable_sorted::<T>(s);
    assert(out.contains(out[k]));
    vstd::seq_lib::to_multiset_len(s);
    vstd::seq_lib::to_multiset_len(out);
    vstd::seq_lib::to_multiset_contains(s, out[k]);
    vstd::seq_lib::to_multiset_contains(out, out[k]);
}

proof fn lemma_insert_ranked_items<T: Ranked>(s: Seq<T::V>, x: T::V, k: int)
    requires
        0 <= k < insert_ranked::<T>(s, x).len(),
    ensures
        insert_ranked::<T>(s, x)[k] == x || s.contains(insert_ranked::<T>(s, x)[k]),
        insert_ranked::<T>(s, x).len() == s.len() + 1,
{
    broadcast use vstd::seq_lib::to_multiset_contains;
    broadcast use vstd::seq_lib::to_multiset_len;
    broadcast use vstd::multiset::group_multiset_axioms;

    lemma_insert_ranked_multiset::<T>(s, x);
    let out = insert_ranked::<T>(s, x);
    assert(out.contains(out[k]));
    vstd::seq_lib::to_multiset_len(s);
    vstd::seq_lib::to_multiset_len(out);
    vstd::seq_lib::to_multiset_contains(s, out[k]);
    vstd::seq_lib::to_multiset_contains(out, out[k]);
}

proof fn lemma_insert_keeps_ranked<T: Ranked>(s: Seq<T::V>, x: T::V)
    requires
        is_strict_weak_order::<T>(),
        is_ranked::<T>(s),
    ensures
        is_ranked::<T>(insert_ranked::<T>(s, x)),
    decreases s.len(),
{
    let out = insert_ranked::<T>(s, x);
    if s.len() == 0 {
    } else if T::ranks_before(x, s.last()) {
        let t = s.drop_last();
        assert(is_ranked::<T>(t)) by {
            assert forall|i: int, j: int| 0 <= i < j < t.len() implies !T::ranks_before(#[trigger] t[j], #[trigger] t[i]) by {
                assert(t[i] == s[i] && t[j] == s[j]);
            }
        }
        lemma_insert_keeps_ranked::<T>(t, x);
        let inner = insert_ranked::<T>(t, x);
        assert forall|i: int, j: int| 0 <= i < j < out.len() implies !T::ranks_before(#[trigger] out[j], #[trigger] out[i]) by {
            lemma_insert_ranked_items::<T>(t, x, i);
            if j < out.len() - 1 {
                assert(out[i] == inner[i] && out[j] == inner[j]);
            } else {
                assert(out[j] == s.last());
                assert(out[i] == inner[i]);
                if inner[i] == x {
                    assert(!T::ranks_before(s.last(), x));
                } else {
                    let q = choose|q: int| 0 <= q < t.len() && t[q] == inner[i];
                    assert(s[q] == t[q]);
                    assert(!T::ranks_before(s[s.len() - 1], s[q]));
                }
            }
        }
    } else {
        assert forall|i: int, j: int| 0 <= i < j < out.len() implies !T::ranks_before(#[trigger] out[j], #[trigger] out[i]) by {
            if j < s.len() {
                assert(out[i] == s[i] && out[j] == s[j]);
            } else {
                assert(out[j] == x);
                assert(out[i] == s[i]);
                if i < s.len() - 1 {
                    assert(!T::ranks_before(s[s.len() - 1], s[i]));
                    assert(!T::ranks_before(x, s[s.len() - 1]));
                }
            }
        }
    }
}

/// Sorting by a strict weak order leaves no item ahead of one that goes before it.
pub proof fn law_stable_sort_ranks<T: Ranked>(s: Seq<T::V>)
    requires
        is_strict_weak_order::<T>(),
    ensures
        is_ranked::<T>(stable_sorted::<T>(s)),
    decreases s.len(),
{
    if s.len() > 0 {
        law_stable_sort_ranks::<T>(s.drop_last());
        lemma_insert_keeps_ranked::<T>(stable_sorted::<T>(s.drop_last()), s.last());
    }
}


proof fn lemma_insert_ranked_ties<T: Ranked>(s: Seq<T::V>, x: T::V, c: T::V, tie: spec_fn(T::V) -> bool)
    requires
        is_strict_weak_order::<T>(),
        forall|y: T::V| #[trigger] tie(y) == (!T::ranks_before(y, c) && !T::ranks_before(c, y)),
    ensures
        insert_ranked::<T>(s, x).filter(tie) == if tie(x) {
            s.filter(tie).push(x)
        } else {
            s.filter(tie)
        },
    decreases s.len(),
{
    reveal(Seq::filter);
    let out = insert_ranked::<T>(s, x);
    if s.len() == 0 {
        assert(out.drop_last() =~= s);
    } else if T::ranks_before(x, s.last()) {
        lemma_insert_ranked_ties::<T>(s.drop_last(), x, c, tie);
        assert(out.drop_last() == insert_ranked::<T>(s.drop_last(), x));
        if tie(x) {
            assert(tie(s.last()) ==> !T::ranks_before(x, s.last()));
        }
    } else {
        assert(out.drop_last() == s);
    }
}

/// The sort is stable: the items that tie with any one item `c` come in the
/// order they had before sorting.
pub proof fn law_stable_sort_keeps_ties<T: Ranked>(s: Seq<T::V>, c: T::V)
    requires
        is_strict_weak_order::<T>(),
    ensures
        stable_sorted::<T>(s).filter(|y: T::V| !T::ranks_before(y, c) && !T::ranks_before(c, y)) == s.filter(
            |y: T::V| !T::ranks_before(y, c) && !T::ranks_before(c, y),
        ),
{
    let tie = |y: T::V| !T::ranks_before(y, c) && !T::ranks_before(c, y);
    lemma_sort_keeps_ties::<T>(s, c, tie);
}

proof fn lemma_sort_keeps_ties<T: Ranked>(s: Seq<T::V>, c: T::V, tie: spec_fn(T::V) -> bool)
    requires
        is_strict_weak_order::<T>(),
        forall|y: T::V| #[trigger] tie(y) == (!T::ranks_before(y, c) && !T::ranks_before(c, y)),
    ensures
        stable_sorted::<T>(s).filter(tie) == s.filter(tie),
    decreases s.len(),
{
    reveal(Seq::filter);
    if s.len() > 0 {
        lemma_sort_keeps_ties::<T>(s.drop_last(), c, tie);
        lemma_insert_ranked_ties::<T>(stable_sorted::<T>(s.drop_last()), s.last(), c, tie);
    }
}

} // verus!
