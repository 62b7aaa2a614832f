//! Stable sorting of a list under a ranking of its items.

use vstd::prelude::*;

verus! {

/// A way of ranking the items of a list: a total preorder on their views,
/// with a test that decides it.
pub trait Ranking<T: View> {
    /// Whether an item seen as `a` may stand before one seen as `b`.
    spec fn le(a: T::V, b: T::V) -> bool;

    /// Any two items can be ranked.
    proof fn lemma_total(a: T::V, b: T::V)
        ensures
            Self::le(a, b) || Self::le(b, a),
    ;

    /// Ranking carries over a middle item.
    proof fn lemma_transitive(a: T::V, b: T::V, c: T::V)
        requires
            Self::le(a, b),
            Self::le(b, c),
        ensures
            Self::le(a, c),
    ;

    /// Decides `le` on two items.
    fn in_order(a: &T, b: &T) -> (r: bool)
        ensures
            r == Self::le(a@, b@),
    ;
}

/// The views of the items of a list, in the list's order.
pub open spec fn views<T: View>(s: Seq<T>) -> Seq<T::V> {
    s.map_values(|t: T| t@)
}

/// Whether each item of `s` may stand before every later one.
pub open spec fn is_sorted<T: View, R: Ranking<T>>(s: Seq<T::V>) -> bool {
    forall|i: int, j: int| 0 <= i < j < s.len() ==> R::le(#[trigger] s[i], #[trigger] s[j])
}

/// `x` placed into `s` behind the last item that may stand before it,
/// looking from the end of `s`.
pub open spec fn insert_ranked<T: View, R: Ranking<T>>(s: Seq<T::V>, x: T::V) -> Seq<T::V>
    decreases s.len(),
{
    if s.len() == 0 || R::le(s.last(), x) {
        s.push(x)
    } else {
        insert_ranked::<T, R>(s.drop_last(), x).push(s.last())
    }
}

/// The items of `s` in ranked order, items of equal rank in the order in
/// which `s` has them.
pub open spec fn stable_sort<T: View, R: Ranking<T>>(s: Seq<T::V>) -> Seq<T::V>
    decreases s.len(),
{
    if s.len() == 0 {
        s
    } else {
        insert_ranked::<T, R>(stable_sort::<T, R>(s.drop_last()), s.last())
    }
}

/// Where `x` goes: behind `s[p - 1]`, which may stand before it, and in
/// front of everything from `p` on, none of which may.
pub proof fn lemma_insert_ranked_at<T: View, R: Ranking<T>>(s: Seq<T::V>, x: T::V, p: int)
    requires
        0 <= p <= s.len(),
        p > 0 ==> R::le(s[p - 1], x),
        forall|j: int| p <= j < s.len() ==> !R::le(#[trigger] s[j], x),
    ensures
        insert_ranked::<T, R>(s, x) == s.insert(p, x),
    decreases s.len() - p,
{
    if p == s.len() {
        assert(s.insert(p, x) =~= s.push(x));
    } else {
        assert(!R::le(s[s.len() - 1], x));
        lemma_insert_ranked_at::<T, R>(s.drop_last(), x, p);
        assert(s.drop_last().insert(p, x).push(s.last()) =~= s.insert(p, x));
    }
}

/// Placing an item keeps every other item, adds that one, and keeps the
/// others in their order.
pub proof fn lemma_insert_ranked_shape<T: View, R: Ranking<T>>(s: Seq<T::V>, x: T::V) -> (p: int)
    ensures
        0 <= p <= s.len(),
        insert_ranked::<T, R>(s, x) == s.insert(p, x),
        p > 0 ==> R::le(s[p - 1], x),
        forall|j: int| p <= j < s.len() ==> !R::le(#[trigger] s[j], x),
    decreases s.len(),
{
    if s.len() == 0 || R::le(s.last(), x) {
        assert(s.insert(s.len() as int, x) =~= s.push(x));
        s.len() as int
    } else {
        let p = lemma_insert_ranked_shape::<T, R>(s.drop_last(), x);
        assert(s.drop_last().insert(p, x).push(s.last()) =~= s.insert(p, x));
        assert forall|j: int| p <= j < s.len() implies !R::le(#[trigger] s[j], x) by {
            if j < s.len() - 1 {
                assert(s.drop_last()[j] == s[j]);
            }
        }
        if p > 0 {
            assert(s.drop_last()[p - 1] == s[p - 1]);
        }
        p
    }
}

/// Placing an item into a sorted list leaves it sorted.
pub proof fn lemma_insert_ranked_sorted<T: View, R: Ranking<T>>(s: Seq<T::V>, x: T::V)
    requires
        is_sorted::<T, R>(s),
    ensures
        is_sorted::<T, R>(insert_ranked::<T, R>(s, x)),
{
    let p = lemma_insert_ranked_shape::<T, R>(s, x);
    let t = s.insert(p, x);
    assert forall|i: int, j: int| 0 <= i < j < t.len() implies R::le(
        #[trigger] t[i],
        #[trigger] t[j],
    ) by {
        if j < p {
            assert(t[i] == s[i] && t[j] == s[j]);
        } else if j == p {
            assert(t[i] == s[i]);
            if i < p - 1 {
                R::lemma_transitive(s[i], s[p - 1], x);
            }
        } else if i == p {
            assert(t[j] == s[j - 1]);
            assert(!R::le(s[j - 1], x));
            R::lemma_total(s[j - 1], x);
        } else if i < p {
            assert(t[i] == s[i] && t[j] == s[j - 1]);
        } else {
            assert(t[i] == s[i - 1] && t[j] == s[j - 1]);
        }
    }
}

/// What `stable_sort` gives is sorted.
pub proof fn lemma_stable_sort_sorted<T: View, R: Ranking<T>>(s: Seq<T::V>)
    ensures
        is_sorted::<T, R>(stable_sort::<T, R>(s)),
    decreases s.len(),
{
    if s.len() > 0 {
        lemma_stable_sort_sorted::<T, R>(s.drop_last());
        lemma_insert_ranked_sorted::<T, R>(stable_sort::<T, R>(s.drop_last()), s.last());
    }
}

/// What `stable_sort` gives holds the same items as often as its argument.
pub proof fn lemma_stable_sort_permutes<T: View, R: Ranking<T>>(s: Seq<T::V>)
    ensures
        stable_sort::<T, R>(s).len() == s.len(),
        stable_sort::<T, R>(s).to_multiset() == s.to_multiset(),
    decreases s.len(),
{
    broadcast use vstd::seq_lib::group_to_multiset_ensures;

    if s.len() > 0 {
        let rest = stable_sort::<T, R>(s.drop_last());
        lemma_stable_sort_permutes::<T, R>(s.drop_last());
        let p = lemma_insert_ranked_shape::<T, R>(rest, s.last());
        vstd::seq_lib::to_multiset_insert(rest, p, s.last());
        assert(s =~= s.drop_last().push(s.last()));
        assert(s.to_multiset() =~= s.drop_last().to_multiset().insert(s.last()));
    }
}

/// What `stable_sort` gives holds an item exactly if its argument does.
pub proof fn lemma_stable_sort_same_items<T: View, R: Ranking<T>>(s: Seq<T::V>)
    ensures
        forall|x: T::V| #[trigger] stable_sort::<T, R>(s).contains(x) <==> s.contains(x),
    decreases s.len(),
{
    if s.len() > 0 {
        let init = s.drop_last();
        let rest = stable_sort::<T, R>(init);
        lemma_stable_sort_same_items::<T, R>(init);
        let p = lemma_insert_ranked_shape::<T, R>(rest, s.last());
        let out = rest.insert(p, s.last());
        assert forall|x: T::V| #[trigger] out.contains(x) <==> s.contains(x) by {
            if out.contains(x) {
                let i = choose|i: int| 0 <= i < out.len() && out[i] == x;
                if i < p {
                    assert(rest[i] == x);
                    assert(rest.contains(x));
                } else if i > p {
                    assert(rest[i - 1] == x);
                    assert(rest.contains(x));
                }
                if rest.contains(x) {
                    assert(init.contains(x));
                    let j = choose|j: int| 0 <= j < init.len() && init[j] == x;
                    assert(s[j] == x);
                } else {
                    assert(s[s.len() - 1] == x);
                }
            }
            if s.contains(x) {
                let j = choose|j: int| 0 <= j < s.len() && s[j] == x;
                if j < s.len() - 1 {
                    assert(init[j] == x);
                    assert(init.contains(x));
                    assert(rest.contains(x));
                    let i = choose|i: int| 0 <= i < rest.len() && rest[i] == x;
                    if i < p {
                        assert(out[i] == x);
                    } else {
                        assert(out[i + 1] == x);
                    }
                } else {
                    assert(out[p] == x);
                }
            }
        }
    }
}

/// Where a relation holds between any two items at different places of a
/// list, it holds between any two at different places of its stable sort.
pub proof fn lemma_stable_sort_pairwise<T: View, R: Ranking<T>>(
    s: Seq<T::V>,
    apart: spec_fn(T::V, T::V) -> bool,
)
    requires
        forall|i: int, j: int|
            0 <= i < s.len() && 0 <= j < s.len() && i != j ==> apart(#[trigger] s[i], #[trigger] s[j]),
    ensures
        forall|i: int, j: int|
            0 <= i < s.len() && 0 <= j < s.len() && i != j ==> apart(
                #[trigger] stable_sort::<T, R>(s)[i],
                #[trigger] stable_sort::<T, R>(s)[j],
            ),
    decreases s.len(),
{
    if s.len() > 0 {
        let init = s.drop_last();
        let last = s.last();
        let rest = stable_sort::<T, R>(init);
        assert forall|i: int, j: int| 0 <= i < init.len() && 0 <= j < init.len() && i != j implies apart(
            #[trigger] init[i],
            #[trigger] init[j],
        ) by {
            assert(init[i] == s[i] && init[j] == s[j]);
        }
        lemma_stable_sort_pairwise::<T, R>(init, apart);
        lemma_stable_sort_permutes::<T, R>(init);
        lemma_stable_sort_same_items::<T, R>(init);
        let p = lemma_insert_ranked_shape::<T, R>(rest, last);
        let out = rest.insert(p, last);
        assert forall|i: int| 0 <= i < rest.len() implies apart(#[trigger] rest[i], last) && apart(
            last,
            rest[i],
        ) by {
            assert(rest.contains(rest[i]));
            assert(init.contains(rest[i]));
            let k = choose|k: int| 0 <= k < init.len() && init[k] == rest[i];
            assert(s[k] == rest[i]);
            assert(s[s.len() - 1] == last);
        }
        assert forall|i: int, j: int| 0 <= i < s.len() && 0 <= j < s.len() && i != j implies apart(
            #[trigger] out[i],
            #[trigger] out[j],
        ) by {
            let a = if i < p { i } else { i - 1 };
            let b = if j < p { j } else { j - 1 };
            if i != p {
                assert(out[i] == rest[a]);
            }
            if j != p {
                assert(out[j] == rest[b]);
            }
        }
    }
}

/// Sorts `v` in place by the ranking `R`, keeping items of equal rank in
/// the order in which they stood.
pub fn sort_ranked<T: View, R: Ranking<T>>(v: &mut Vec<T>)
    ensures
        views(final(v)@) == stable_sort::<T, R>(views(old(v)@)),
{
    let n = v.len();
    let ghost orig = v@;
    let mut i: usize = 0;
    proof {
        assert(views(v@.take(0)) =~= stable_sort::<T, R>(views(orig.take(0))));
    }
    while i < n
        invariant
            v@.len() == n,
            orig.len() == n,
            i <= n,
            views(v@.take(i as int)) == stable_sort::<T, R>(views(orig.take(i as int))),
            v@.skip(i as int) == orig.skip(i as int),
        decreases n - i,
    {
        let ghost before = v@;
        let mut p: usize = i;
        while p > 0 && !R::in_order(&v[p - 1], &v[i])
            invariant
                p <= i < n,
                v@ == before,
                v@.len() == n,
                forall|j: int| p <= j < i ==> !R::le(#[trigger] v@[j]@, v@[i as int]@),
            decreases p,
        {
            p = p - 1;
        }
        if p < i {
            let x = v.remove(i);
            v.insert(p, x);
        }
        proof {
            let sorted = views(before.take(i as int));
            let x = before[i as int]@;
            assert(before.skip(i as int)[0] == orig.skip(i as int)[0]);
            assert forall|j: int| p <= j < sorted.len() implies !R::le(#[trigger] sorted[j], x) by {
                assert(sorted[j] == before[j]@);
            }
            if p > 0 {
                assert(sorted[p - 1] == before[p - 1]@);
            }
            lemma_insert_ranked_at::<T, R>(sorted, x, p as int);
            assert(views(v@.take(i + 1)) =~= sorted.insert(p as int, x));
            let upto = views(orig.take(i + 1));
            assert(upto.drop_last() =~= views(orig.take(i as int)));
            assert(upto.last() == x);
            let tail = v@.skip(i + 1);
            let goal = orig.skip(i + 1);
            assert forall|j: int| 0 <= j < tail.len() implies #[trigger] tail[j] == goal[j] by {
                assert(before.skip(i as int)[j + 1] == orig.skip(i as int)[j + 1]);
            }
            assert(tail =~= goal);
        }
        i = i + 1;
    }
    proof {
        assert(v@.take(n as int) =~= v@);
        assert(orig.take(n as int) =~= orig);
    }
}

} // verus!
