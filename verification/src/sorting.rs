//! Stable in-place sorting by a "goes before" relation, shared by every
//! sortable table of the screens.

use vstd::prelude::*;

verus! {

/// `<[T]>::swap` exchanges the elements at positions `a` and `b` (std
/// documents a panic when either is out of bounds, which `requires` rules
/// out).
pub assume_specification<SliceElem>[ <[SliceElem]>::swap ](slice: &mut [SliceElem], a: usize, b: usize)
    requires
        a < old(slice)@.len(),
        b < old(slice)@.len(),
    ensures
        final(slice)@ == old(slice)@.update(a as int, old(slice)@[b as int]).update(
            b as int,
            old(slice)@[a as int],
        ),
;

/// A row type that a table sorts under a sort selection `C`.
pub trait SortedBy<C>: Sized {
    /// Whether `a` must be placed before `b` under the selection `c`.
    spec fn goes_before(a: Self, b: Self, c: C) -> bool;

    /// Whether `a` can be compared under the selection `c` at all.
    spec fn admits(a: Self, c: C) -> bool;

    fn before(a: &Self, b: &Self, c: &C) -> (r: bool)
        requires
            Self::admits(*a, *c),
            Self::admits(*b, *c),
        ensures
            r == Self::goes_before(*a, *b, *c),
    ;
}

/// `x` inserted into `s` after every element it does not go before: the
/// insertion step of a stable sort.
pub open spec fn insert_sorted<T: SortedBy<C>, C>(s: Seq<T>, x: T, c: C) -> Seq<T>
    decreases s.len(),
{
    if s.len() == 0 {
        seq![x]
    } else if T::goes_before(x, s.last(), c) {
        insert_sorted(s.drop_last(), x, c).push(s.last())
    } else {
        s.push(x)
    }
}

/// The stable sort of `s`: elements inserted in their original order, each
/// after all earlier elements it does not go before.
pub open spec fn stable_sorted<T: SortedBy<C>, C>(s: Seq<T>, c: C) -> Seq<T>
    decreases s.len(),
{
    if s.len() == 0 {
        s
    } else {
        insert_sorted(stable_sorted(s.drop_last(), c), s.last(), c)
    }
}

/// Sort `v` stably under the selection `c`.
pub fn stable_sort<T: SortedBy<C>, C>(v: &mut [T], c: &C)
    requires
        forall|j: int| 0 <= j < old(v)@.len() ==> T::admits(#[trigger] old(v)@[j], *c),
    ensures
        final(v)@ == stable_sorted(old(v)@, *c),
{
    let ghost orig = v@;
    let n = v.len();
    let mut i: usize = 0;
    while i < n
        invariant
            n == v@.len(),
            orig.len() == n,
            i <= n,
            v@.take(i as int) == stable_sorted(orig.take(i as int), *c),
            v@.skip(i as int) == orig.skip(i as int),
            forall|j: int| 0 <= j < n ==> T::admits(#[trigger] v@[j], *c),
        decreases n - i,
    {
        let ghost s = v@.take(i as int);
        let ghost x = orig[i as int];
        let ghost rest = orig.skip(i + 1);
        proof {
            assert(v@[i as int] == orig.skip(i as int)[0]);
            assert(v@ =~= s + seq![x] + rest) by {
                assert(v@ =~= v@.take(i as int) + v@.skip(i as int));
                assert(orig.skip(i as int) =~= seq![x] + rest);
            }
            assert(orig.take(i + 1).drop_last() =~= orig.take(i as int));
            assert(s.take(i as int) =~= s);
            assert(s.skip(i as int) =~= Seq::<T>::empty());
            assert(insert_sorted(s, x, *c) + Seq::<T>::empty() =~= insert_sorted(s, x, *c));
        }
        let mut k: usize = i;
        while k > 0 && T::before(&v[k], &v[k - 1], c)
            invariant
                n == v@.len(),
                i < n,
                k <= i,
                s.len() == i,
                v@ =~= s.take(k as int) + seq![x] + s.skip(k as int) + rest,
                insert_sorted(s, x, *c) == insert_sorted(s.take(k as int), x, *c) + s.skip(k as int),
                forall|j: int| 0 <= j < n ==> T::admits(#[trigger] v@[j], *c),
            decreases k,
        {
            proof {
                let sk = s.take(k as int);
                assert(v@[k as int] == x);
                assert(v@[k - 1] == sk.last());
                assert(sk.drop_last() =~= s.take(k - 1));
                assert(s.skip(k - 1) =~= seq![sk.last()] + s.skip(k as int));
                assert(insert_sorted(sk, x, *c) == insert_sorted(s.take(k - 1), x, *c).push(sk.last()));
                assert(insert_sorted(s.take(k - 1), x, *c).push(sk.last()) + s.skip(k as int)
                    =~= insert_sorted(s.take(k - 1), x, *c) + s.skip(k - 1));
            }
            v.swap(k - 1, k);
            k = k - 1;
            proof {
                assert(v@ =~= s.take(k as int) + seq![x] + s.skip(k as int) + rest);
            }
        }
        proof {
            let sk = s.take(k as int);
            if k == 0 {
                assert(sk =~= Seq::<T>::empty());
                assert(insert_sorted(sk, x, *c) =~= seq![x]);
            } else {
                assert(sk.last() == v@[k - 1]);
                assert(insert_sorted(sk, x, *c) == sk.push(x));
            }
            assert(insert_sorted(s, x, *c) =~= s.take(k as int) + seq![x] + s.skip(k as int));
            assert(stable_sorted(orig.take(i + 1), *c) == insert_sorted(s, x, *c));
            assert(v@.take(i + 1) =~= insert_sorted(s, x, *c));
            assert(v@.skip(i + 1) =~= orig.skip(i + 1));
        }
        i = i + 1;
    }
    proof {
        assert(v@ =~= v@.take(n as int));
        assert(orig.take(n as int) =~= orig);
    }
}

proof fn lemma_insert_sorted_multiset<T: SortedBy<C>, C>(s: Seq<T>, x: T, c: C)
    ensures
        insert_sorted(s, x, c).to_multiset() == s.to_multiset().insert(x),
        insert_sorted(s, x, c).len() == s.len() + 1,
    decreases s.len(),
{
    broadcast use vstd::seq_lib::group_to_multiset_ensures;
    if s.len() > 0 {
        lemma_insert_sorted_multiset(s.drop_last(), x, c);
        assert(s =~= s.drop_last().push(s.last()));
        if T::goes_before(x, s.last(), c) {
            assert(insert_sorted(s.drop_last(), x, c).push(s.last()).to_multiset()
                == insert_sorted(s.drop_last(), x, c).to_multiset().insert(s.last()));
            assert(s.to_multiset() == s.drop_last().to_multiset().insert(s.last()));
            assert(s.drop_last().to_multiset().insert(x).insert(s.last())
                =~= s.drop_last().to_multiset().insert(s.last()).insert(x));
        }
    } else {
        assert(seq![x] =~= Seq::<T>::empty().push(x));
    }
}

/// No two positions of `s` hold elements with the same key.
pub open spec fn keys_distinct<T, K>(s: Seq<T>, key: spec_fn(T) -> K) -> bool {
    forall|i: int, j: int| 0 <= i < s.len() && 0 <= j < s.len() && i != j ==> key(#[trigger] s[i]) != key(#[trigger] s[j])
}

proof fn lemma_insert_sorted_distinct<T: SortedBy<C>, C, K>(s: Seq<T>, x: T, c: C, key: spec_fn(T) -> K)
    requires
        keys_distinct(s, key),
        forall|i: int| 0 <= i < s.len() ==> key(#[trigger] s[i]) != key(x),
    ensures
        keys_distinct(insert_sorted(s, x, c), key),
    decreases s.len(),
{
    broadcast use vstd::seq_lib::group_to_multiset_ensures;
    if s.len() > 0 {
        let d = s.drop_last();
        let l = s.last();
        assert(s[s.len() - 1] == l);
        assert forall|i: int, j: int| 0 <= i < d.len() && 0 <= j < d.len() && i != j implies key(#[trigger] d[i]) != key(
            #[trigger] d[j],
        ) by {
            assert(d[i] == s[i] && d[j] == s[j]);
        }
        assert forall|i: int| 0 <= i < d.len() implies key(#[trigger] d[i]) != key(x) by {
            assert(d[i] == s[i]);
        }
        if T::goes_before(x, l, c) {
            lemma_insert_sorted_distinct(d, x, c, key);
            lemma_insert_sorted_multiset(d, x, c);
            let m = insert_sorted(d, x, c);
            let r = m.push(l);
            assert forall|i: int| 0 <= i < m.len() implies key(#[trigger] m[i]) != key(l) by {
                let y = m[i];
                assert(m.contains(y));
                assert(m.to_multiset().count(y) > 0);
                if y != x {
                    assert(d.to_multiset().count(y) > 0);
                    assert(d.contains(y));
                    let w = choose|w: int| 0 <= w < d.len() && d[w] == y;
                    assert(s[w] == y);
                }
            }
            assert forall|i: int, j: int| 0 <= i < r.len() && 0 <= j < r.len() && i != j implies key(#[trigger] r[i])
                != key(#[trigger] r[j]) by {
                if i < m.len() && j < m.len() {
                    assert(r[i] == m[i] && r[j] == m[j]);
                } else if i < m.len() {
                    assert(r[i] == m[i] && r[j] == l);
                } else {
                    assert(r[j] == m[j] && r[i] == l);
                }
            }
        } else {
            let r = s.push(x);
            assert forall|i: int, j: int| 0 <= i < r.len() && 0 <= j < r.len() && i != j implies key(#[trigger] r[i])
                != key(#[trigger] r[j]) by {
                if i < s.len() && j < s.len() {
                    assert(r[i] == s[i] && r[j] == s[j]);
                } else if i < s.len() {
                    assert(r[i] == s[i]);
                } else {
                    assert(r[j] == s[j]);
                }
            }
        }
    } else {
        assert(insert_sorted(s, x, c) == seq![x]);
    }
}

/// A stable sort never puts two elements with the same key where the input
/// had none: when the input's keys are distinct, so are the result's.
pub proof fn lemma_stable_sorted_distinct<T: SortedBy<C>, C, K>(s: Seq<T>, c: C, key: spec_fn(T) -> K)
    requires
        keys_distinct(s, key),
    ensures
        keys_distinct(stable_sorted(s, c), key),
    decreases s.len(),
{
    broadcast use vstd::seq_lib::group_to_multiset_ensures;
    if s.len() > 0 {
        let d = s.drop_last();
        let x = s.last();
        assert(s[s.len() - 1] == x);
        assert forall|i: int, j: int| 0 <= i < d.len() && 0 <= j < d.len() && i != j implies key(#[trigger] d[i]) != key(
            #[trigger] d[j],
        ) by {
            assert(d[i] == s[i] && d[j] == s[j]);
        }
        lemma_stable_sorted_distinct(d, c, key);
        lemma_stable_sorted_permutes(d, c);
        let ss = stable_sorted(d, c);
        assert forall|i: int| 0 <= i < ss.len() implies key(#[trigger] ss[i]) != key(x) by {
            let y = ss[i];
            assert(ss.contains(y));
            assert(ss.to_multiset().count(y) > 0);
            assert(d.contains(y));
            let w = choose|w: int| 0 <= w < d.len() && d[w] == y;
            assert(s[w] == y);
        }
        lemma_insert_sorted_distinct(ss, x, c, key);
    }
}

/// A stable sort rearranges its input: the result holds the same elements,
/// each as often as the input does.
pub proof fn lemma_stable_sorted_permutes<T: SortedBy<C>, C>(s: Seq<T>, c: C)
    ensures
        stable_sorted(s, c).to_multiset() == s.to_multiset(),
        stable_sorted(s, c).len() == s.len(),
    decreases s.len(),
{
    broadcast use vstd::seq_lib::group_to_multiset_ensures;
    if s.len() > 0 {
        lemma_stable_sorted_permutes(s.drop_last(), c);
        lemma_insert_sorted_multiset(stable_sorted(s.drop_last(), c), s.last(), c);
        assert(s =~= s.drop_last().push(s.last()));
    }
}

/// `goes_before` is a strict weak order under `c`: irreflexive, transitive,
/// and whenever `a` goes before `b`, any third element goes after `a` or
/// before `b`.
pub open spec fn strict_weak_order<T: SortedBy<C>, C>(c: C) -> bool {
    &&& forall|a: T| !T::goes_before(a, a, c)
    &&& forall|a: T, b: T, d: T|
        #![trigger T::goes_before(a, b, c), T::goes_before(b, d, c)]
        T::goes_before(a, b, c) && T::goes_before(b, d, c) ==> T::goes_before(a, d, c)
    &&& forall|a: T, b: T, d: T|
        #![trigger T::goes_before(a, b, c), T::goes_before(b, d, c)]
        T::goes_before(a, d, c) ==> T::goes_before(a, b, c) || T::goes_before(b, d, c)
}

/// No element of `s` goes before an element placed earlier.
pub open spec fn is_sorted<T: SortedBy<C>, C>(s: Seq<T>, c: C) -> bool {
    forall|i: int, j: int| 0 <= i < j < s.len() ==> !T::goes_before(s[j], s[i], c)
}

proof fn lemma_insert_sorted_sorted<T: SortedBy<C>, C>(s: Seq<T>, x: T, c: C)
    requires
        strict_weak_order::<T, C>(c),
        is_sorted(s, c),
    ensures
        is_sorted(insert_sorted(s, x, c), c),
        forall|e: T| #[trigger] insert_sorted(s, x, c).contains(e) ==> e == x || s.contains(e),
    decreases s.len(),
{
    broadcast use vstd::seq_lib::group_seq_properties;
    if s.len() > 0 {
        let l = s.last();
        let d = s.drop_last();
        assert(is_sorted(d, c));
        if T::goes_before(x, l, c) {
            lemma_insert_sorted_sorted(d, x, c);
            let r0 = insert_sorted(d, x, c);
            let r = r0.push(l);
            assert forall|i: int, j: int| 0 <= i < j < r.len() implies !T::goes_before(r[j], r[i], c) by {
                if j == r.len() - 1 {
                    assert(r0.contains(r[i]));
                    if r[i] == x {
                        assert(!T::goes_before(l, x, c));
                    } else {
                        let k = choose|k: int| 0 <= k < d.len() && d[k] == r[i];
                        assert(s[k] == r[i]);
                        assert(s[s.len() - 1] == l);
                    }
                } else {
                    assert(r[i] == r0[i] && r[j] == r0[j]);
                }
            }
            assert forall|e: T| #[trigger] r.contains(e) implies e == x || s.contains(e) by {
                let k = choose|k: int| 0 <= k < r.len() && r[k] == e;
                if k < r0.len() {
                    assert(r0.contains(e));
                    if e != x {
                        let m = choose|m: int| 0 <= m < d.len() && d[m] == e;
                        assert(s[m] == e);
                    }
                } else {
                    assert(s[s.len() - 1] == e);
                }
            }
        } else {
            let r = s.push(x);
            assert forall|i: int, j: int| 0 <= i < j < r.len() implies !T::goes_before(r[j], r[i], c) by {
                if j == r.len() - 1 {
                    assert(!T::goes_before(x, l, c));
                    if i < s.len() - 1 {
                        assert(!T::goes_before(l, s[i], c));
                        assert(!T::goes_before(x, s[i], c));
                    }
                }
            }
            assert forall|e: T| #[trigger] r.contains(e) implies e == x || s.contains(e) by {
                let k = choose|k: int| 0 <= k < r.len() && r[k] == e;
                if k < s.len() {
                    assert(s[k] == e);
                }
            }
        }
    }
}

/// Under a strict weak order, a stable sort leaves no element ahead of one
/// that goes before it.
pub proof fn lemma_stable_sorted_is_sorted<T: SortedBy<C>, C>(s: Seq<T>, c: C)
    requires
        strict_weak_order::<T, C>(c),
    ensures
        is_sorted(stable_sorted(s, c), c),
    decreases s.len(),
{
    if s.len() > 0 {
        lemma_stable_sorted_is_sorted(s.drop_last(), c);
        lemma_insert_sorted_sorted(stable_sorted(s.drop_last(), c), s.last(), c);
    }
}

/// `goes_before` under `c` cannot tell elements related by `eqv` apart.
pub open spec fn order_respects<T: SortedBy<C>, C>(c: C, eqv: spec_fn(T, T) -> bool) -> bool {
    forall|a: T, b: T, x: T, y: T|
        #![trigger eqv(a, b), eqv(x, y), T::goes_before(a, x, c)]
        eqv(a, b) && eqv(x, y) ==> T::goes_before(a, x, c) == T::goes_before(b, y, c)
}

/// Two sequences related element by element by `eqv`.
pub open spec fn pointwise<T>(s1: Seq<T>, s2: Seq<T>, eqv: spec_fn(T, T) -> bool) -> bool {
    &&& s1.len() == s2.len()
    &&& forall|i: int| 0 <= i < s1.len() ==> #[trigger] eqv(s1[i], s2[i])
}

proof fn lemma_insert_sorted_congruent<T: SortedBy<C>, C>(
    s1: Seq<T>,
    s2: Seq<T>,
    x1: T,
    x2: T,
    c: C,
    eqv: spec_fn(T, T) -> bool,
)
    requires
        order_respects::<T, C>(c, eqv),
        pointwise(s1, s2, eqv),
        eqv(x1, x2),
    ensures
        pointwise(insert_sorted(s1, x1, c), insert_sorted(s2, x2, c), eqv),
    decreases s1.len(),
{
    if s1.len() > 0 {
        let l1 = s1.last();
        let l2 = s2.last();
        assert(eqv(l1, l2));
        assert(T::goes_before(x1, l1, c) == T::goes_before(x2, l2, c));
        assert(pointwise(s1.drop_last(), s2.drop_last(), eqv)) by {
            assert forall|i: int| 0 <= i < s1.drop_last().len() implies #[trigger] eqv(
                s1.drop_last()[i],
                s2.drop_last()[i],
            ) by {
                assert(eqv(s1[i], s2[i]));
            }
        }
        if T::goes_before(x1, l1, c) {
            lemma_insert_sorted_congruent(s1.drop_last(), s2.drop_last(), x1, x2, c, eqv);
            let r1 = insert_sorted(s1.drop_last(), x1, c);
            let r2 = insert_sorted(s2.drop_last(), x2, c);
            assert forall|i: int| 0 <= i < r1.push(l1).len() implies #[trigger] eqv(r1.push(l1)[i], r2.push(l2)[i]) by {
                if i < r1.len() {
                    assert(eqv(r1[i], r2[i]));
                }
            }
        } else {
            assert forall|i: int| 0 <= i < s1.push(x1).len() implies #[trigger] eqv(s1.push(x1)[i], s2.push(x2)[i]) by {
                if i < s1.len() {
                    assert(eqv(s1[i], s2[i]));
                }
            }
        }
    } else {
        assert(eqv(seq![x1][0], seq![x2][0]));
    }
}

/// Sorting sequences related element by element by a relation the order
/// cannot see gives sequences related element by element.
pub proof fn lemma_stable_sorted_congruent<T: SortedBy<C>, C>(s1: Seq<T>, s2: Seq<T>, c: C, eqv: spec_fn(T, T) -> bool)
    requires
        order_respects::<T, C>(c, eqv),
        pointwise(s1, s2, eqv),
    ensures
        pointwise(stable_sorted(s1, c), stable_sorted(s2, c), eqv),
    decreases s1.len(),
{
    if s1.len() > 0 {
        assert(pointwise(s1.drop_last(), s2.drop_last(), eqv)) by {
            assert forall|i: int| 0 <= i < s1.drop_last().len() implies #[trigger] eqv(
                s1.drop_last()[i],
                s2.drop_last()[i],
            ) by {
                assert(eqv(s1[i], s2[i]));
            }
        }
        lemma_stable_sorted_congruent(s1.drop_last(), s2.drop_last(), c, eqv);
        assert(eqv(s1[s1.len() - 1], s2[s2.len() - 1]));
        lemma_insert_sorted_congruent(
            stable_sorted(s1.drop_last(), c),
            stable_sorted(s2.drop_last(), c),
            s1.last(),
            s2.last(),
            c,
            eqv,
        );
    }
}

/// A three-way comparison that is antisymmetric and whose "not after"
/// relation is transitive: a total preorder of its values.
pub open spec fn total_preorder<T>(f: spec_fn(T, T) -> int) -> bool {
    &&& forall|a: T, b: T| #[trigger] f(a, b) == -f(b, a)
    &&& forall|a: T, b: T, d: T| #![trigger f(a, b), f(b, d)] f(a, b) <= 0 && f(b, d) <= 0 ==> f(a, d) <= 0
}

/// `a` goes before `b` under `f`, ties broken by the smaller `key`.
pub open spec fn tie_broken<T>(f: spec_fn(T, T) -> int, key: spec_fn(T) -> int, a: T, b: T) -> bool {
    f(a, b) < 0 || (f(a, b) == 0 && key(a) < key(b))
}

proof fn lemma_preorder_triple<T>(f: spec_fn(T, T) -> int, a: T, b: T, d: T)
    requires
        total_preorder(f),
    ensures
        f(a, a) == 0,
        f(a, b) == -f(b, a),
        f(b, d) == -f(d, b),
        f(a, d) == -f(d, a),
        f(a, b) <= 0 && f(b, d) <= 0 ==> f(a, d) <= 0,
        f(d, b) <= 0 && f(b, a) <= 0 ==> f(d, a) <= 0,
        f(b, a) <= 0 && f(a, d) <= 0 ==> f(b, d) <= 0,
        f(d, a) <= 0 && f(a, b) <= 0 ==> f(d, b) <= 0,
        f(a, d) <= 0 && f(d, b) <= 0 ==> f(a, b) <= 0,
        f(b, d) <= 0 && f(d, a) <= 0 ==> f(b, a) <= 0,
{
    assert(f(a, a) == -f(a, a));
    assert(f(a, b) == -f(b, a));
    assert(f(b, d) == -f(d, b));
    assert(f(a, d) == -f(d, a));
}

/// An order given by a total preorder, ties broken by a key, is a strict
/// weak order: the shape of every table order of the screens.
pub proof fn lemma_tie_broken_strict_weak<T: SortedBy<C>, C>(c: C, f: spec_fn(T, T) -> int, key: spec_fn(T) -> int)
    requires
        total_preorder(f),
        forall|a: T, b: T| #[trigger] T::goes_before(a, b, c) == tie_broken(f, key, a, b),
    ensures
        strict_weak_order::<T, C>(c),
{
    assert forall|a: T| !T::goes_before(a, a, c) by {
        lemma_preorder_triple(f, a, a, a);
    }
    assert forall|a: T, b: T, d: T|
        #![trigger T::goes_before(a, b, c), T::goes_before(b, d, c)]
        T::goes_before(a, b, c) && T::goes_before(b, d, c) implies T::goes_before(a, d, c) by {
        lemma_preorder_triple(f, a, b, d);
        assert(T::goes_before(a, d, c) == tie_broken(f, key, a, d));
    }
    assert forall|a: T, b: T, d: T|
        #![trigger T::goes_before(a, b, c), T::goes_before(b, d, c)]
        T::goes_before(a, d, c) implies T::goes_before(a, b, c) || T::goes_before(b, d, c) by {
        lemma_preorder_triple(f, a, b, d);
        assert(T::goes_before(a, b, c) == tie_broken(f, key, a, b));
        assert(T::goes_before(b, d, c) == tie_broken(f, key, b, d));
    }
}

} // verus!
