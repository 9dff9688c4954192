//! Stable sorting by a pair of `u64` keys, compared lexicographically.

use vstd::prelude::*;

verus! {

/// Values ordered by a `(u64, u64)` key that depends on their view alone.
pub trait Keyed: View + Sized {
    spec fn key_of(v: Self::V) -> (u64, u64);

    fn sort_key(&self) -> (k: (u64, u64))
        ensures
            k == Self::key_of(self@),
    ;
}

/// The views of a sequence of values.
pub open spec fn views<T: View>(s: Seq<T>) -> Seq<T::V> {
    s.map_values(|x: T| x@)
}

/// Lexicographic order on keys.
pub open spec fn key_le(a: (u64, u64), b: (u64, u64)) -> bool {
    a.0 < b.0 || (a.0 == b.0 && a.1 <= b.1)
}

/// `s` is ordered by key.
pub open spec fn sorted_by_key<T: Keyed>(s: Seq<T::V>) -> bool {
    forall|i: int, j: int|
        0 <= i < j < s.len() ==> key_le(T::key_of(#[trigger] s[i]), T::key_of(#[trigger] s[j]))
}

/// The number of leading elements of `s` whose key is at most `k`: where an element of
/// key `k` goes, after all elements of equal key.
pub open spec fn insertion_point<T: Keyed>(s: Seq<T::V>, k: (u64, u64)) -> nat
    decreases s.len(),
{
    if s.len() == 0 {
        0
    } else if !key_le(T::key_of(s[0]), k) {
        0
    } else {
        1 + insertion_point::<T>(s.drop_first(), k)
    }
}

/// Insertion of `x` into `s` after every element whose key is at most `x`'s.
pub open spec fn sorted_insert<T: Keyed>(s: Seq<T::V>, x: T::V) -> Seq<T::V> {
    s.insert(insertion_point::<T>(s, T::key_of(x)) as int, x)
}

/// The stable sort of `s` by key: elements of equal key keep their relative order.
pub open spec fn stable_sort<T: Keyed>(s: Seq<T::V>) -> Seq<T::V>
    decreases s.len(),
{
    if s.len() == 0 {
        s
    } else {
        sorted_insert::<T>(stable_sort::<T>(s.drop_last()), s.last())
    }
}

proof fn lemma_insertion_point<T: Keyed>(s: Seq<T::V>, k: (u64, u64))
    ensures
        insertion_point::<T>(s, k) <= s.len(),
        forall|j: int|
            0 <= j < insertion_point::<T>(s, k) ==> key_le(T::key_of(#[trigger] s[j]), k),
        insertion_point::<T>(s, k) < s.len() ==> !key_le(
            T::key_of(s[insertion_point::<T>(s, k) as int]),
            k,
        ),
    decreases s.len(),
{
    if s.len() > 0 && key_le(T::key_of(s[0]), k) {
        lemma_insertion_point::<T>(s.drop_first(), k);
        assert forall|j: int| 0 <= j < insertion_point::<T>(s, k) implies key_le(
            T::key_of(#[trigger] s[j]),
            k,
        ) by {
            if j > 0 {
                assert(s[j] == s.drop_first()[j - 1]);
            }
        }
    }
}

proof fn lemma_sorted_insert_sorted<T: Keyed>(s: Seq<T::V>, x: T::V)
    requires
        sorted_by_key::<T>(s),
    ensures
        sorted_by_key::<T>(sorted_insert::<T>(s, x)),
{
    lemma_insertion_point::<T>(s, T::key_of(x));
    let p = insertion_point::<T>(s, T::key_of(x)) as int;
    let r = sorted_insert::<T>(s, x);
    assert forall|i: int, j: int| 0 <= i < j < r.len() implies key_le(
        T::key_of(#[trigger] r[i]),
        T::key_of(#[trigger] r[j]),
    ) by {
        if j < p {
        } else if j == p {
        } else if i < p {
        } else if i == p {
            assert(r[j] == s[j - 1]);
            assert(key_le(T::key_of(s[p]), T::key_of(s[j - 1])) || p == j - 1);
        } else {
        }
    }
}

/// The stable sort is ordered by key.
pub proof fn lemma_stable_sort_sorted<T: Keyed>(s: Seq<T::V>)
    ensures
        sorted_by_key::<T>(stable_sort::<T>(s)),
    decreases s.len(),
{
    if s.len() > 0 {
        lemma_stable_sort_sorted::<T>(s.drop_last());
        lemma_sorted_insert_sorted::<T>(stable_sort::<T>(s.drop_last()), s.last());
    }
}

/// The stable sort holds the same elements, each as many times.
pub proof fn lemma_stable_sort_permutes<T: Keyed>(s: Seq<T::V>)
    ensures
        stable_sort::<T>(s).to_multiset() == s.to_multiset(),
        stable_sort::<T>(s).len() == s.len(),
    decreases s.len(),
{
    broadcast use vstd::seq_lib::group_to_multiset_ensures;

    if s.len() > 0 {
        lemma_stable_sort_permutes::<T>(s.drop_last());
        let t = stable_sort::<T>(s.drop_last());
        lemma_insertion_point::<T>(t, T::key_of(s.last()));
        vstd::seq_lib::to_multiset_insert(
            t,
            insertion_point::<T>(t, T::key_of(s.last())) as int,
            s.last(),
        );
        assert(s =~= s.drop_last().push(s.last()));
    }
}

/// The elements of `s` whose key is `k`, in their order in `s`.
pub open spec fn with_key<T: Keyed>(s: Seq<T::V>, k: (u64, u64)) -> Seq<T::V> {
    s.filter(key_is::<T>(k))
}

/// Whether a value has key `k`.
pub open spec fn key_is<T: Keyed>(k: (u64, u64)) -> spec_fn(T::V) -> bool {
    |v: T::V| T::key_of(v) == k
}

/// The stable sort keeps elements of equal key in their input order.
pub proof fn lemma_stable_sort_stable<T: Keyed>(s: Seq<T::V>, k: (u64, u64))
    ensures
        with_key::<T>(stable_sort::<T>(s), k) == with_key::<T>(s, k),
    decreases s.len(),
{
    if s.len() > 0 {
        let init = s.drop_last();
        let x = s.last();
        let t = stable_sort::<T>(init);
        let pred = key_is::<T>(k);
        lemma_stable_sort_stable::<T>(init, k);
        lemma_stable_sort_sorted::<T>(init);
        lemma_insertion_point::<T>(t, T::key_of(x));
        let p = insertion_point::<T>(t, T::key_of(x)) as int;
        let front = t.take(p);
        let back = t.skip(p);
        assert(t.insert(p, x) =~= front.push(x) + back);
        assert(t =~= front + back);
        Seq::filter_distributes_over_add(front.push(x), back, pred);
        Seq::filter_distributes_over_add(front, back, pred);
        front.lemma_filter_push(x, pred);
        assert(s =~= init.push(x));
        init.lemma_filter_push(x, pred);
        assert(stable_sort::<T>(s) == t.insert(p, x));
        if T::key_of(x) == k {
            assert forall|j: int| 0 <= j < back.len() implies !pred(#[trigger] back[j]) by {
                assert(back[j] == t[p + j]);
                if j > 0 {
                    assert(key_le(T::key_of(t[p]), T::key_of(t[p + j])));
                }
            }
            back.lemma_all_neg_filter_empty(pred);
            assert(back.filter(pred) =~= Seq::<T::V>::empty());
        }
    }
}

/// Every element of the stable sort is an element of the input.
pub proof fn lemma_stable_sort_members<T: Keyed>(s: Seq<T::V>)
    ensures
        forall|i: int| 0 <= i < stable_sort::<T>(s).len() ==> s.contains(#[trigger] stable_sort::<T>(s)[i]),
{
    broadcast use vstd::seq_lib::group_to_multiset_ensures;

    lemma_stable_sort_permutes::<T>(s);
    let t = stable_sort::<T>(s);
    assert forall|i: int| 0 <= i < t.len() implies s.contains(#[trigger] t[i]) by {
        assert(t.contains(t[i]));
        assert(t.to_multiset().count(t[i]) > 0);
        assert(s.to_multiset().count(t[i]) > 0);
    }
}

/// Where an element of key `k` goes in the sorted `v`.
fn insertion_index<T: Keyed>(v: &Vec<T>, k: (u64, u64)) -> (p: usize)
    ensures
        p == insertion_point::<T>(views(v@), k),
{
    let ghost vs = views(v@);
    let mut i: usize = 0;
    assert(vs.skip(0) =~= vs);
    while i < v.len()
        invariant
            vs == views(v@),
            i <= v@.len(),
            insertion_point::<T>(vs, k) == i + insertion_point::<T>(vs.skip(i as int), k),
        decreases v@.len() - i,
    {
        let ki = v[i].sort_key();
        assert(vs.skip(i as int)[0] == v@[i as int]@);
        if !(ki.0 < k.0 || (ki.0 == k.0 && ki.1 <= k.1)) {
            return i;
        }
        assert(vs.skip(i as int).drop_first() =~= vs.skip(i + 1));
        i = i + 1;
    }
    assert(vs.skip(i as int).len() == 0);
    i
}

/// Sorts `v` stably by key.
pub fn stable_sort_by_key<T: Keyed>(v: Vec<T>) -> (out: Vec<T>)
    ensures
        views(out@) == stable_sort::<T>(views(v@)),
{
    let ghost orig = views(v@);
    let mut rest = v;
    let mut out: Vec<T> = Vec::new();
    let n = rest.len();
    assert(orig.take(0) =~= Seq::<T::V>::empty());
    assert(views(out@) =~= Seq::<T::V>::empty());
    assert(views(rest@) =~= orig.skip(0));
    for i in 0..n
        invariant
            n == orig.len(),
            views(rest@) == orig.skip(i as int),
            views(out@) == stable_sort::<T>(orig.take(i as int)),
    {
        assert(views(rest@).len() == rest@.len());
        assert(rest@.len() > 0);
        let ghost before = rest@;
        let x = rest.remove(0);
        assert(views(rest@) =~= orig.skip(i + 1)) by {
            assert(rest@ =~= before.drop_first());
            assert(views(before.drop_first()) =~= views(before).drop_first());
            assert(orig.skip(i as int).drop_first() =~= orig.skip(i + 1));
        }
        let k = x.sort_key();
        let p = insertion_index(&out, k);
        proof {
            assert(orig.take(i + 1).drop_last() =~= orig.take(i as int));
            assert(orig.take(i + 1).last() == x@) by {
                assert(views(before)[0] == x@);
            }
            lemma_insertion_point::<T>(views(out@), k);
        }
        let ghost out_before = out@;
        out.insert(p, x);
        assert(views(out@) =~= views(out_before).insert(p as int, x@));
    }
    assert(orig.take(n as int) =~= orig);
    out
}

} // verus!
