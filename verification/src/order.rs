//! Stable sorting by a strict weak order, as `slice::sort_by` sorts with a
//! comparator built from `Ord::cmp` and `Ordering::then_with`.
use vstd::prelude::*;

verus! {

broadcast use {vstd::seq_lib::group_to_multiset_ensures, vstd::std_specs::vec::group_vec_axioms};

/// Items with a ranking: `ranks_before(a, b)` holds when `a` must come
/// strictly before `b`. The ranking is a strict weak order.
pub trait Ranked: View + Sized {
    spec fn ranks_before(a: Self::V, b: Self::V) -> bool;

    proof fn lemma_irreflexive(a: Self::V)
        ensures
            !Self::ranks_before(a, a),
    ;

    proof fn lemma_transitive(a: Self::V, b: Self::V, c: Self::V)
        requires
            Self::ranks_before(a, b),
            Self::ranks_before(b, c),
        ensures
            Self::ranks_before(a, c),
    ;

    /// If `a` ranks before `b`, every `c` ranks after `a` or before `b`.
    proof fn lemma_split(a: Self::V, b: Self::V, c: Self::V)
        requires
            Self::ranks_before(a, b),
        ensures
            Self::ranks_before(a, c) || Self::ranks_before(c, b),
    ;

    fn goes_before(&self, other: &Self) -> (r: bool)
        ensures
            r == Self::ranks_before(self@, other@),
    ;
}

/// Neither ranks before the other.
pub open spec fn same_rank<T: Ranked>(a: T::V, b: T::V) -> bool {
    !T::ranks_before(a, b) && !T::ranks_before(b, a)
}

/// No item ranks before an item that precedes it.
pub open spec fn rank_sorted<T: Ranked>(s: Seq<T::V>) -> bool {
    forall|i: int, j: int| 0 <= i < j < s.len() ==> !T::ranks_before(#[trigger] s[j], #[trigger] s[i])
}

/// The views of the items of `s`.
pub open spec fn views<T: View>(s: Seq<T>) -> Seq<T::V> {
    s.map_values(|x: T| x@)
}

/// The items of `s` that rank the same as `k`, in their order in `s`.
pub open spec fn rank_class<T: Ranked>(s: Seq<T::V>, k: T::V) -> Seq<T::V> {
    s.filter(rank_pred::<T>(k))
}

/// Whether an item ranks the same as `k`.
pub open spec fn rank_pred<T: Ranked>(k: T::V) -> spec_fn(T::V) -> bool {
    |e: T::V| same_rank::<T>(e, k)
}

proof fn lemma_insert_split<A>(s: Seq<A>, p: int, x: A)
    requires
        0 <= p <= s.len(),
    ensures
        s.insert(p, x) == s.subrange(0, p) + seq![x] + s.subrange(p, s.len() as int),
        s == s.subrange(0, p) + s.subrange(p, s.len() as int),
{
    assert(s.insert(p, x) =~= s.subrange(0, p) + seq![x] + s.subrange(p, s.len() as int));
    assert(s =~= s.subrange(0, p) + s.subrange(p, s.len() as int));
}

proof fn lemma_filter_empty<A>(s: Seq<A>, pred: spec_fn(A) -> bool)
    requires
        forall|i: int| 0 <= i < s.len() ==> !pred(#[trigger] s[i]),
    ensures
        s.filter(pred) == Seq::<A>::empty(),
    decreases s.len(),
{
    reveal(Seq::filter);
    if s.len() > 0 {
        let d = s.drop_last();
        assert forall|i: int| 0 <= i < d.len() implies !pred(#[trigger] d[i]) by {
            assert(d[i] == s[i]);
        }
        lemma_filter_empty(d, pred);
        assert(!pred(s[s.len() - 1]));
    }
}

proof fn lemma_filter_single<A>(x: A, pred: spec_fn(A) -> bool)
    ensures
        seq![x].filter(pred) == (if pred(x) {
            seq![x]
        } else {
            Seq::<A>::empty()
        }),
{
    reveal(Seq::filter);
    let s = seq![x];
    assert(s.drop_last() =~= Seq::<A>::empty());
    assert(Seq::<A>::empty().filter(pred) =~= Seq::<A>::empty());
    assert(s.last() == x);
    assert(Seq::<A>::empty().push(x) =~= s);
}

proof fn lemma_filter_push<A>(s: Seq<A>, x: A, pred: spec_fn(A) -> bool)
    ensures
        s.push(x).filter(pred) == (if pred(x) {
            s.filter(pred).push(x)
        } else {
            s.filter(pred)
        }),
{
    reveal(Seq::filter);
    assert(s.push(x).drop_last() =~= s);
    assert(s.push(x).last() == x);
}

pub proof fn lemma_views_index<T: View>(s: Seq<T>, i: int)
    requires
        0 <= i < s.len(),
    ensures
        views(s).len() == s.len(),
        views(s)[i] == s[i]@,
{
}

/// Inserting `x` at the first place where it ranks before the item there
/// keeps every rank class as appending `x` does.
proof fn lemma_insert_keeps_classes<T: Ranked>(s: Seq<T::V>, p: int, x: T::V, k: T::V)
    requires
        0 <= p <= s.len(),
        forall|q: int| p <= q < s.len() ==> T::ranks_before(x, #[trigger] s[q]),
    ensures
        !same_rank::<T>(x, k) ==> rank_class::<T>(s.insert(p, x), k) == rank_class::<T>(s, k),
        same_rank::<T>(x, k) ==> rank_class::<T>(s.insert(p, x), k) == rank_class::<T>(s, k).push(x),
{
    let pred = rank_pred::<T>(k);
    let a = s.subrange(0, p);
    let b = s.subrange(p, s.len() as int);
    lemma_insert_split(s, p, x);
    Seq::filter_distributes_over_add(a + seq![x], b, pred);
    Seq::filter_distributes_over_add(a, seq![x], pred);
    Seq::filter_distributes_over_add(a, b, pred);
    lemma_filter_single(x, pred);
    if same_rank::<T>(x, k) {
        assert forall|i: int| 0 <= i < b.len() implies !pred(#[trigger] b[i]) by {
            let e = b[i];
            assert(e == s[p + i]);
            assert(T::ranks_before(x, e));
            // x ranks with k, and x ranks before e, so k ranks before e.
            T::lemma_split(x, e, k);
        }
        lemma_filter_empty(b, pred);
        assert(b.filter(pred) =~= Seq::<T::V>::empty());
        assert(a.filter(pred) + seq![x].filter(pred) =~= a.filter(pred).push(x));
        assert(rank_class::<T>(s, k) =~= a.filter(pred));
        assert(rank_class::<T>(s.insert(p, x), k) =~= a.filter(pred).push(x));
    } else {
        assert(seq![x].filter(pred) =~= Seq::<T::V>::empty());
        assert(rank_class::<T>(s.insert(p, x), k) =~= a.filter(pred) + b.filter(pred));
    }
}

/// Sorts `items` by rank, keeping items of the same rank in their order:
/// the result is sorted, and each rank class is the same sequence as in
/// `items`.
pub fn stable_sort<T: Ranked>(items: Vec<T>) -> (r: Vec<T>)
    ensures
        r@.len() == items@.len(),
        is_stable_sort_of::<T>(views(r@), views(items@)),
{
    let ghost input = views(items@);
    let total: usize = items.len();
    assert(input.len() == total);
    let mut rest = items;
    let mut out: Vec<T> = Vec::new();
    let mut n: usize = 0;
    while rest.len() > 0
        invariant
            views(rest@) == input.skip(n as int),
            n + rest@.len() == input.len(),
            input.len() <= usize::MAX,
            out@.len() == n,
            rank_sorted::<T>(views(out@)),
            forall|k: T::V| #[trigger] rank_class::<T>(views(out@), k) == rank_class::<T>(input.take(n as int), k),
            views(out@).to_multiset() == input.take(n as int).to_multiset(),
        decreases rest.len(),
    {
        let ghost before_rest = rest@;
        let x = rest.remove(0);
        proof {
            assert(input[n as int] == views(before_rest)[0]);
            assert forall|i: int| 0 <= i < rest@.len() implies #[trigger] views(rest@)[i] == input.skip(n + 1)[i] by {
                assert(rest@[i] == before_rest[i + 1]);
                assert(views(before_rest)[i + 1] == input.skip(n as int)[i + 1]);
            }
            assert(views(rest@) =~= input.skip(n + 1));
        }
        let mut p: usize = 0;
        while p < out.len() && !x.goes_before(&out[p])
            invariant
                0 <= p <= out@.len(),
                forall|q: int| 0 <= q < p ==> !T::ranks_before(x@, #[trigger] views(out@)[q]),
            decreases out@.len() - p,
        {
            p = p + 1;
        }
        let ghost old_out = views(out@);
        proof {
            // Every item from p on ranks after x: the one at p does, and
            // sortedness carries it along.
            assert forall|q: int| p <= q < old_out.len() implies T::ranks_before(
                x@,
                #[trigger] old_out[q],
            ) by {
                if q > p {
                    T::lemma_split(x@, old_out[p as int], old_out[q]);
                }
            }
        }
        out.insert(p, x);
        proof {
            let xv = x@;
            let new_out = views(out@);
            assert(new_out =~= old_out.insert(p as int, xv));
            assert(input.take(n + 1) =~= input.take(n as int).push(xv));
            assert forall|i: int, j: int| 0 <= i < j < new_out.len() implies !T::ranks_before(
                #[trigger] new_out[j],
                #[trigger] new_out[i],
            ) by {
                if i < p && j == p {
                } else if i == p && j > p {
                    if T::ranks_before(new_out[j], new_out[i]) {
                        T::lemma_transitive(xv, old_out[j - 1], xv);
                        T::lemma_irreflexive(xv);
                    }
                } else if i < p && j > p {
                    assert(new_out[i] == old_out[i]);
                    assert(new_out[j] == old_out[j - 1]);
                } else if j < p {
                } else {
                    assert(new_out[i] == old_out[i - 1]);
                    assert(new_out[j] == old_out[j - 1]);
                }
            }
            assert forall|k: T::V| #[trigger] rank_class::<T>(new_out, k) == rank_class::<T>(
                input.take(n + 1),
                k,
            ) by {
                lemma_insert_keeps_classes::<T>(old_out, p as int, xv, k);
                let pred = rank_pred::<T>(k);
                lemma_filter_push(input.take(n as int), xv, pred);
            }
            vstd::seq_lib::to_multiset_insert(old_out, p as int, xv);
            vstd::seq_lib::to_multiset_build(input.take(n as int), xv);
        }
        n = n + 1;
    }
    proof {
        assert(input.take(n as int) =~= input);
    }
    out
}


/// `sorted` is the outcome of stably sorting `original`: it is sorted and
/// holds each rank class of `original` in the same order.
pub open spec fn is_stable_sort_of<T: Ranked>(sorted: Seq<T::V>, original: Seq<T::V>) -> bool {
    &&& rank_sorted::<T>(sorted)
    &&& forall|k: T::V| #[trigger] rank_class::<T>(sorted, k) == rank_class::<T>(original, k)
    &&& sorted.to_multiset() == original.to_multiset()
}

proof fn lemma_member_in_class<T: Ranked>(s: Seq<T::V>, i: int)
    requires
        0 <= i < s.len(),
    ensures
        rank_class::<T>(s, s[i]).contains(s[i]),
{
    T::lemma_irreflexive(s[i]);
    s.lemma_filter_contains(rank_pred::<T>(s[i]), i);
}

/// A sorted sequence cannot hold an item that ranks after its last one.
proof fn lemma_not_after_last<T: Ranked>(a: Seq<T::V>, b: Seq<T::V>)
    requires
        a.len() > 0,
        b.len() > 0,
        rank_sorted::<T>(a),
        forall|k: T::V| #[trigger] rank_class::<T>(a, k) == rank_class::<T>(b, k),
    ensures
        !T::ranks_before(a.last(), b.last()),
{
    let x = a.last();
    let y = b.last();
    if T::ranks_before(x, y) {
        lemma_member_in_class::<T>(b, b.len() - 1);
        assert(rank_class::<T>(a, y).contains(y));
        a.lemma_filter_contains_rev(rank_pred::<T>(y), y);
        let i: int = choose|i: int| 0 <= i < a.len() && a[i] == y;
        if i == a.len() - 1 {
            T::lemma_irreflexive(x);
        } else {
            assert(!T::ranks_before(a[a.len() - 1], a[i]));
        }
    }
}

proof fn lemma_empty_classes<T: Ranked>(a: Seq<T::V>, b: Seq<T::V>)
    requires
        a.len() == 0,
        forall|k: T::V| #[trigger] rank_class::<T>(a, k) == rank_class::<T>(b, k),
    ensures
        b.len() == 0,
{
    reveal(Seq::filter);
    if b.len() > 0 {
        lemma_member_in_class::<T>(b, 0);
        assert(rank_class::<T>(a, b[0]).len() == 0);
    }
}

proof fn lemma_sorted_classes_equal<T: Ranked>(a: Seq<T::V>, b: Seq<T::V>)
    requires
        rank_sorted::<T>(a),
        rank_sorted::<T>(b),
        forall|k: T::V| #[trigger] rank_class::<T>(a, k) == rank_class::<T>(b, k),
    ensures
        a == b,
    decreases a.len(),
{
    if a.len() == 0 {
        lemma_empty_classes::<T>(a, b);
        assert(a =~= b);
    } else if b.len() == 0 {
        lemma_empty_classes::<T>(b, a);
    } else {
        let x = a.last();
        let y = b.last();
        lemma_not_after_last::<T>(a, b);
        lemma_not_after_last::<T>(b, a);
        let a1 = a.drop_last();
        let b1 = b.drop_last();
        assert(a =~= a1.push(x));
        assert(b =~= b1.push(y));
        T::lemma_irreflexive(x);
        lemma_filter_push(a1, x, rank_pred::<T>(x));
        lemma_filter_push(b1, y, rank_pred::<T>(x));
        assert(rank_class::<T>(a, x).last() == x);
        assert(rank_class::<T>(b, x).last() == y);
        assert forall|k: T::V| #[trigger] rank_class::<T>(a1, k) == rank_class::<T>(b1, k) by {
            lemma_filter_push(a1, x, rank_pred::<T>(k));
            lemma_filter_push(b1, x, rank_pred::<T>(k));
            assert(rank_class::<T>(a, k) == rank_class::<T>(b, k));
            if same_rank::<T>(x, k) {
                assert(rank_class::<T>(a1, k) =~= rank_class::<T>(a, k).drop_last());
                assert(rank_class::<T>(b1, k) =~= rank_class::<T>(b, k).drop_last());
            }
        }
        assert forall|i: int, j: int| 0 <= i < j < a1.len() implies !T::ranks_before(
            #[trigger] a1[j],
            #[trigger] a1[i],
        ) by {
            assert(a1[i] == a[i] && a1[j] == a[j]);
        }
        assert forall|i: int, j: int| 0 <= i < j < b1.len() implies !T::ranks_before(
            #[trigger] b1[j],
            #[trigger] b1[i],
        ) by {
            assert(b1[i] == b[i] && b1[j] == b[j]);
        }
        lemma_sorted_classes_equal::<T>(a1, b1);
    }
}

/// Stable sorting has a single outcome: two stable sorts of the same
/// sequence are equal.
pub proof fn law_stable_sort_unique<T: Ranked>(a: Seq<T::V>, b: Seq<T::V>, original: Seq<T::V>)
    requires
        is_stable_sort_of::<T>(a, original),
        is_stable_sort_of::<T>(b, original),
    ensures
        a == b,
{
    assert forall|k: T::V| #[trigger] rank_class::<T>(a, k) == rank_class::<T>(b, k) by {
        assert(rank_class::<T>(a, k) == rank_class::<T>(original, k));
        assert(rank_class::<T>(b, k) == rank_class::<T>(original, k));
    }
    lemma_sorted_classes_equal::<T>(a, b);
}

} // verus!
