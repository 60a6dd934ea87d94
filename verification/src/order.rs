//! Stable sorting under a strict order on views.
//!
//! Every ordered output of the library (diagnostics, artifact results) is
//! produced by one stable insertion sort. Its result is stated exactly by
//! `sorted_by`: each element, taken in input order, is inserted after every
//! element that it does not strictly precede. The laws below show that this
//! is a sorted permutation of the input, and that it does not depend on the
//! input order when distinct elements never tie.
use vstd::prelude::*;
use vstd::seq_lib::*;
use crate::copy::view_seq;

verus! {

/// A strict order on the views of `T`, with an executable test.
pub trait Order<T: View> {
    /// `a` strictly precedes `b`.
    spec fn before(a: T::V, b: T::V) -> bool;

    /// The order is transitive.
    proof fn lemma_transitive(a: T::V, b: T::V, c: T::V)
        requires
            Self::before(a, b),
            Self::before(b, c),
        ensures
            Self::before(a, c),
    ;

    /// The order is irreflexive.
    proof fn lemma_irreflexive(a: T::V)
        ensures
            !Self::before(a, a),
    ;

    /// Executable test of `before`.
    fn precedes(a: &T, b: &T) -> (res: bool)
        ensures
            res == Self::before(a@, b@),
    ;
}

/// The position at which a stable insertion puts `x`: before the first
/// element that `x` strictly precedes.
pub open spec fn insert_point<T: View, O: Order<T>>(s: Seq<T::V>, x: T::V) -> int
    decreases s.len(),
{
    if s.len() == 0 {
        0
    } else if O::before(x, s[0]) {
        0
    } else {
        1 + insert_point::<T, O>(s.drop_first(), x)
    }
}

/// Stable insertion sort of `s` under `O`.
pub open spec fn sorted_by<T: View, O: Order<T>>(s: Seq<T::V>) -> Seq<T::V>
    decreases s.len(),
{
    if s.len() == 0 {
        s
    } else {
        let r = sorted_by::<T, O>(s.drop_last());
        r.insert(insert_point::<T, O>(r, s.last()), s.last())
    }
}

/// No element strictly precedes an earlier one.
pub open spec fn is_sorted<T: View, O: Order<T>>(s: Seq<T::V>) -> bool {
    forall|i: int, j: int| 0 <= i < j < s.len() ==> !O::before(#[trigger] s[j], #[trigger] s[i])
}

/// Distinct elements of `s` are always ordered one way or the other.
pub open spec fn no_ties<T: View, O: Order<T>>(s: Seq<T::V>) -> bool {
    forall|a: T::V, b: T::V|
        s.contains(a) && s.contains(b) && !O::before(a, b) && !O::before(b, a) ==> a == b
}

proof fn lemma_insert_point_bounds<T: View, O: Order<T>>(s: Seq<T::V>, x: T::V)
    ensures
        0 <= insert_point::<T, O>(s, x) <= s.len(),
        forall|k: int| 0 <= k < insert_point::<T, O>(s, x) ==> !O::before(x, #[trigger] s[k]),
        insert_point::<T, O>(s, x) < s.len() ==> O::before(x, s[insert_point::<T, O>(s, x)]),
    decreases s.len(),
{
    if s.len() > 0 && !O::before(x, s[0]) {
        lemma_insert_point_bounds::<T, O>(s.drop_first(), x);
        assert forall|k: int| 0 <= k < insert_point::<T, O>(s, x) implies !O::before(
            x,
            #[trigger] s[k],
        ) by {
            if k > 0 {
                assert(s[k] == s.drop_first()[k - 1]);
            }
        }
    }
}

proof fn lemma_insert_point_skip<T: View, O: Order<T>>(s: Seq<T::V>, x: T::V, j: int)
    requires
        0 <= j <= s.len(),
        forall|k: int| 0 <= k < j ==> !O::before(x, #[trigger] s[k]),
    ensures
        insert_point::<T, O>(s, x) == j + insert_point::<T, O>(s.skip(j), x),
    decreases j,
{
    if j > 0 {
        assert(!O::before(x, s[0]));
        lemma_insert_point_skip::<T, O>(s.drop_first(), x, j - 1);
        assert(s.drop_first().skip(j - 1) =~= s.skip(j));
    } else {
        assert(s.skip(0) =~= s);
    }
}

/// The sorted sequence is a permutation of the input.
pub proof fn lemma_sorted_by_permutation<T: View, O: Order<T>>(s: Seq<T::V>)
    ensures
        sorted_by::<T, O>(s).to_multiset() == s.to_multiset(),
        sorted_by::<T, O>(s).len() == s.len(),
    decreases s.len(),
{
    broadcast use group_to_multiset_ensures;

    if s.len() > 0 {
        let r = sorted_by::<T, O>(s.drop_last());
        lemma_sorted_by_permutation::<T, O>(s.drop_last());
        lemma_insert_point_bounds::<T, O>(r, s.last());
        to_multiset_insert(r, insert_point::<T, O>(r, s.last()), s.last());
        assert(s.drop_last().push(s.last()) =~= s);
    }
}

/// The sorted sequence is sorted.
pub proof fn lemma_sorted_by_sorted<T: View, O: Order<T>>(s: Seq<T::V>)
    ensures
        is_sorted::<T, O>(sorted_by::<T, O>(s)),
    decreases s.len(),
{
    if s.len() > 0 {
        let r = sorted_by::<T, O>(s.drop_last());
        let x = s.last();
        lemma_sorted_by_sorted::<T, O>(s.drop_last());
        lemma_sorted_by_permutation::<T, O>(s.drop_last());
        lemma_insert_point_bounds::<T, O>(r, x);
        let j = insert_point::<T, O>(r, x);
        let out = r.insert(j, x);
        assert forall|a: int, b: int| 0 <= a < b < out.len() implies !O::before(
            #[trigger] out[b],
            #[trigger] out[a],
        ) by {
            if a < j && b < j {
                assert(out[a] == r[a] && out[b] == r[b]);
            } else if a < j && b == j {
                assert(out[a] == r[a] && out[b] == x);
            } else if a < j {
                assert(out[a] == r[a] && out[b] == r[b - 1]);
            } else if a == j {
                assert(out[a] == x && out[b] == r[b - 1]);
                if O::before(r[b - 1], x) {
                    if b - 1 == j {
                        O::lemma_transitive(r[j], x, r[j]);
                        O::lemma_irreflexive(r[j]);
                    } else {
                        O::lemma_transitive(r[b - 1], x, r[j]);
                    }
                }
            } else {
                assert(out[a] == r[a - 1] && out[b] == r[b - 1]);
            }
        }
    }
}

proof fn lemma_sorted_tail<T: View, O: Order<T>>(s: Seq<T::V>)
    requires
        is_sorted::<T, O>(s),
        s.len() > 0,
    ensures
        is_sorted::<T, O>(s.drop_first()),
{
    assert forall|i: int, j: int| 0 <= i < j < s.drop_first().len() implies !O::before(
        #[trigger] s.drop_first()[j],
        #[trigger] s.drop_first()[i],
    ) by {
        assert(s.drop_first()[j] == s[j + 1] && s.drop_first()[i] == s[i + 1]);
    }
}

/// Two sorted permutations of one multiset without ties are equal.
pub proof fn lemma_sorted_unique<T: View, O: Order<T>>(a: Seq<T::V>, b: Seq<T::V>)
    requires
        is_sorted::<T, O>(a),
        is_sorted::<T, O>(b),
        a.to_multiset() == b.to_multiset(),
        no_ties::<T, O>(a),
    ensures
        a == b,
    decreases a.len(),
{
    broadcast use group_to_multiset_ensures;

    a.to_multiset_ensures();
    b.to_multiset_ensures();
    if a.len() == 0 {
        assert(b.len() == 0);
        assert(a =~= b);
    } else {
        assert(b.len() == a.len());
        assert(a.contains(b[0])) by {
            assert(b.to_multiset().count(b[0]) > 0);
        }
        assert(b.contains(a[0])) by {
            assert(a.to_multiset().count(a[0]) > 0);
        }
        let ka = choose|k: int| 0 <= k < a.len() && a[k] == b[0];
        let kb = choose|k: int| 0 <= k < b.len() && b[k] == a[0];
        if ka > 0 {
            assert(!O::before(a[ka], a[0]));
        }
        if kb > 0 {
            assert(!O::before(b[kb], b[0]));
        }
        assert(a.contains(a[0]));
        assert(a[0] == b[0]);
        let ta = a.drop_first();
        let tb = b.drop_first();
        assert(a.remove(0) =~= ta);
        assert(b.remove(0) =~= tb);
        lemma_sorted_tail::<T, O>(a);
        lemma_sorted_tail::<T, O>(b);
        assert forall|x: T::V, y: T::V|
            ta.contains(x) && ta.contains(y) && !O::before(x, y) && !O::before(y, x) implies x
            == y by {
            let i = choose|i: int| 0 <= i < ta.len() && ta[i] == x;
            let j = choose|j: int| 0 <= j < ta.len() && ta[j] == y;
            assert(a[i + 1] == x && a[j + 1] == y);
            assert(a.contains(x) && a.contains(y));
        }
        lemma_sorted_unique::<T, O>(ta, tb);
        assert(a =~= seq![a[0]] + ta);
        assert(b =~= seq![b[0]] + tb);
    }
}

/// Sorting does not depend on the input order when distinct elements never
/// tie: permutations of one another sort to the same sequence.
pub proof fn lemma_sorted_by_order_independent<T: View, O: Order<T>>(
    s1: Seq<T::V>,
    s2: Seq<T::V>,
)
    requires
        s1.to_multiset() == s2.to_multiset(),
        no_ties::<T, O>(s1),
    ensures
        sorted_by::<T, O>(s1) == sorted_by::<T, O>(s2),
{
    broadcast use group_to_multiset_ensures;

    let r1 = sorted_by::<T, O>(s1);
    let r2 = sorted_by::<T, O>(s2);
    lemma_sorted_by_permutation::<T, O>(s1);
    lemma_sorted_by_permutation::<T, O>(s2);
    lemma_sorted_by_sorted::<T, O>(s1);
    lemma_sorted_by_sorted::<T, O>(s2);
    assert forall|x: T::V, y: T::V|
        r1.contains(x) && r1.contains(y) && !O::before(x, y) && !O::before(y, x) implies x
        == y by {
        assert(r1.to_multiset().count(x) > 0 && r1.to_multiset().count(y) > 0);
        assert(s1.contains(x) && s1.contains(y));
    }
    lemma_sorted_unique::<T, O>(r1, r2);
}

/// Permutations of one another hold the same elements.
pub proof fn lemma_permutation_contains<A>(s1: Seq<A>, s2: Seq<A>)
    requires
        s1.to_multiset() == s2.to_multiset(),
    ensures
        forall|y: A| s1.contains(y) <==> s2.contains(y),
{
    broadcast use group_to_multiset_ensures;

    assert forall|y: A| s1.contains(y) <==> s2.contains(y) by {
        if s1.contains(y) {
            assert(s1.to_multiset().count(y) > 0);
        }
        if s2.contains(y) {
            assert(s2.to_multiset().count(y) > 0);
        }
    }
}

/// Flat-mapping distributes over concatenation.
pub proof fn lemma_flat_map_concat<A, B>(a: Seq<A>, b: Seq<A>, g: spec_fn(A) -> Seq<B>)
    ensures
        (a + b).flat_map(g) == a.flat_map(g) + b.flat_map(g),
{
    assert((a + b).map_values(g) =~= a.map_values(g) + b.map_values(g));
    lemma_flatten_concat(a.map_values(g), b.map_values(g));
}

/// Permuting a sequence permutes its flat map.
pub proof fn lemma_flat_map_permutation<A, B>(s1: Seq<A>, s2: Seq<A>, g: spec_fn(A) -> Seq<B>)
    requires
        s1.to_multiset() == s2.to_multiset(),
    ensures
        s1.flat_map(g).to_multiset() == s2.flat_map(g).to_multiset(),
    decreases s1.len(),
{
    broadcast use group_to_multiset_ensures;

    s1.to_multiset_ensures();
    s2.to_multiset_ensures();
    if s1.len() == 0 {
        assert(s2.len() == 0);
        assert(s1 =~= s2);
    } else {
        let x = s1.last();
        assert(s1.contains(x));
        assert(s2.to_multiset().count(x) > 0);
        let k = choose|k: int| 0 <= k < s2.len() && s2[k] == x;
        let r1 = s1.drop_last();
        let r2 = s2.remove(k);
        to_multiset_remove(s1, s1.len() - 1);
        to_multiset_remove(s2, k);
        assert(s1.remove(s1.len() - 1) =~= r1);
        lemma_flat_map_permutation(r1, r2, g);
        let front = s2.take(k);
        let back = s2.skip(k + 1);
        let one = seq![x];
        one.lemma_flat_map_singleton(g);
        assert(s1 =~= r1 + one);
        assert(s2 =~= front + one + back);
        assert(r2 =~= front + back);
        lemma_flat_map_concat(r1, one, g);
        lemma_flat_map_concat(front + one, back, g);
        lemma_flat_map_concat(front, one, g);
        lemma_flat_map_concat(front, back, g);
        lemma_multiset_commutative(r1.flat_map(g), g(x));
        lemma_multiset_commutative(front.flat_map(g) + g(x), back.flat_map(g));
        lemma_multiset_commutative(front.flat_map(g), g(x));
        lemma_multiset_commutative(front.flat_map(g), back.flat_map(g));
        assert(s1.flat_map(g).to_multiset() =~= s2.flat_map(g).to_multiset());
    }
}

/// Every element of a flat map lies in the image of some element.
pub proof fn lemma_flat_map_member<A, B>(s: Seq<A>, g: spec_fn(A) -> Seq<B>, d: B)
    requires
        s.flat_map(g).contains(d),
    ensures
        exists|i: int| 0 <= i < s.len() && #[trigger] g(s[i]).contains(d),
    decreases s.len(),
{
    if s.len() == 0 {
        assert(s.flat_map(g) =~= Seq::<B>::empty());
    } else {
        let r = s.drop_last();
        let one = seq![s.last()];
        one.lemma_flat_map_singleton(g);
        assert(s =~= r + one);
        lemma_flat_map_concat(r, one, g);
        let k = choose|k: int| 0 <= k < s.flat_map(g).len() && s.flat_map(g)[k] == d;
        if k < r.flat_map(g).len() {
            assert(r.flat_map(g)[k] == d);
            lemma_flat_map_member(r, g, d);
            let i = choose|i: int| 0 <= i < r.len() && #[trigger] g(r[i]).contains(d);
            assert(s[i] == r[i]);
        } else {
            let j = k - r.flat_map(g).len();
            assert(g(s.last())[j] == d);
            assert(g(s[s.len() - 1]).contains(d));
        }
    }
}

/// Two sequences without repetitions that hold the same elements are
/// permutations of one another.
pub proof fn lemma_no_duplicates_permutation<A>(a: Seq<A>, b: Seq<A>)
    requires
        a.no_duplicates(),
        b.no_duplicates(),
        a.to_set() == b.to_set(),
    ensures
        a.to_multiset() == b.to_multiset(),
{
    broadcast use group_to_multiset_ensures;

    a.lemma_multiset_has_no_duplicates();
    b.lemma_multiset_has_no_duplicates();
    assert forall|x: A| a.to_multiset().count(x) == b.to_multiset().count(x) by {
        assert(a.to_set().contains(x) == a.contains(x));
        assert(b.to_set().contains(x) == b.contains(x));
        if a.contains(x) {
            assert(a.to_multiset().count(x) > 0);
            assert(b.to_multiset().count(x) > 0);
        } else {
            assert(a.to_multiset().count(x) == 0);
            assert(b.to_multiset().count(x) == 0);
        }
    }
    assert(a.to_multiset() =~= b.to_multiset());
}

/// Flat maps whose images are permutations of one another are permutations
/// of one another.
pub proof fn lemma_flat_map_pointwise<A, B>(
    s: Seq<A>,
    g1: spec_fn(A) -> Seq<B>,
    g2: spec_fn(A) -> Seq<B>,
)
    requires
        forall|x: A| #[trigger] g1(x).to_multiset() == g2(x).to_multiset(),
    ensures
        s.flat_map(g1).to_multiset() == s.flat_map(g2).to_multiset(),
    decreases s.len(),
{
    if s.len() > 0 {
        let r = s.drop_last();
        let one = seq![s.last()];
        lemma_flat_map_pointwise(r, g1, g2);
        one.lemma_flat_map_singleton(g1);
        one.lemma_flat_map_singleton(g2);
        assert(s =~= r + one);
        lemma_flat_map_concat(r, one, g1);
        lemma_flat_map_concat(r, one, g2);
        lemma_multiset_commutative(r.flat_map(g1), g1(s.last()));
        lemma_multiset_commutative(r.flat_map(g2), g2(s.last()));
    } else {
        assert(s.flat_map(g1) =~= s.flat_map(g2));
    }
}

/// Flat maps agree when their functions agree on the elements.
pub proof fn lemma_flat_map_congruent<A, B>(s: Seq<A>, f: spec_fn(A) -> Seq<B>, g: spec_fn(A) -> Seq<B>)
    requires
        forall|i: int| 0 <= i < s.len() ==> f(#[trigger] s[i]) == g(s[i]),
    ensures
        s.flat_map(f) == s.flat_map(g),
{
    assert(s.map_values(f) =~= s.map_values(g));
}

/// Mapping is flat-mapping to one-element images.
pub proof fn lemma_map_values_flat_map<A, B>(s: Seq<A>, f: spec_fn(A) -> B)
    ensures
        s.map_values(f) == s.flat_map(|x: A| seq![f(x)]),
    decreases s.len(),
{
    if s.len() > 0 {
        let r = s.drop_last();
        lemma_map_values_flat_map(r, f);
        r.lemma_flat_map_push(|x: A| seq![f(x)], s.last());
        assert(r.push(s.last()) =~= s);
        assert(s.map_values(f) =~= r.map_values(f).push(f(s.last())));
    } else {
        assert(s.flat_map(|x: A| seq![f(x)]) =~= Seq::<B>::empty());
    }
}

/// Permuting a sequence permutes its image.
pub proof fn lemma_map_values_permutation<A, B>(s1: Seq<A>, s2: Seq<A>, f: spec_fn(A) -> B)
    requires
        s1.to_multiset() == s2.to_multiset(),
    ensures
        s1.map_values(f).to_multiset() == s2.map_values(f).to_multiset(),
{
    lemma_map_values_flat_map(s1, f);
    lemma_map_values_flat_map(s2, f);
    lemma_flat_map_permutation(s1, s2, |x: A| seq![f(x)]);
}

/// The first occurrences of the elements of `t`, in order.
pub open spec fn uniq<K>(t: Seq<K>) -> Seq<K>
    decreases t.len(),
{
    if t.len() == 0 {
        t
    } else if uniq(t.drop_last()).contains(t.last()) {
        uniq(t.drop_last())
    } else {
        uniq(t.drop_last()).push(t.last())
    }
}

/// `t[i]` does not occur before position `i`.
pub open spec fn first_at<K>(t: Seq<K>, i: int) -> bool {
    forall|j: int| 0 <= j < i ==> t[j] != t[i]
}

/// The first occurrences are the elements, each once.
pub proof fn lemma_uniq_elements<K>(t: Seq<K>)
    ensures
        forall|x: K| uniq(t).contains(x) <==> t.contains(x),
        uniq(t).no_duplicates(),
    decreases t.len(),
{
    if t.len() > 0 {
        let r = t.drop_last();
        lemma_uniq_elements(r);
        assert forall|x: K| uniq(t).contains(x) <==> t.contains(x) by {
            if r.contains(x) {
                let i = choose|i: int| 0 <= i < r.len() && r[i] == x;
                assert(t[i] == x);
            }
            if t.contains(x) {
                let i = choose|i: int| 0 <= i < t.len() && t[i] == x;
                if i < r.len() {
                    assert(r[i] == x);
                }
            }
            if !uniq(r).contains(t.last()) {
                let u = uniq(r).push(t.last());
                assert(u[u.len() - 1] == t.last());
                if uniq(r).contains(x) {
                    let i = choose|i: int| 0 <= i < uniq(r).len() && uniq(r)[i] == x;
                    assert(u[i] == x);
                }
                if u.contains(x) {
                    let i = choose|i: int| 0 <= i < u.len() && u[i] == x;
                    if i < u.len() - 1 {
                        assert(uniq(r)[i] == x);
                    }
                }
            }
        }
    }
}

/// Flat-mapping the first occurrences, found by position, is flat-mapping
/// `uniq`.
pub proof fn lemma_uniq_flat_map<K, B>(t: Seq<K>, h: spec_fn(K) -> Seq<B>)
    ensures
        Seq::new(t.len(), |i: int| i).flat_map(
            |i: int|
                if first_at(t, i) {
                    h(t[i])
                } else {
                    Seq::<B>::empty()
                },
        ) == uniq(t).flat_map(h),
    decreases t.len(),
{
    let f = |i: int|
        if first_at(t, i) {
            h(t[i])
        } else {
            Seq::<B>::empty()
        };
    if t.len() == 0 {
        assert(Seq::new(0, |i: int| i).flat_map(f) =~= Seq::<B>::empty());
        assert(uniq(t).flat_map(h) =~= Seq::<B>::empty());
    } else {
        let n = t.len() - 1;
        let r = t.drop_last();
        let f0 = |i: int|
            if first_at(r, i) {
                h(r[i])
            } else {
                Seq::<B>::empty()
            };
        lemma_uniq_flat_map(r, h);
        lemma_uniq_elements(r);
        let idx = Seq::new(n as nat, |i: int| i);
        assert(Seq::new(t.len(), |i: int| i) =~= idx.push(n));
        idx.lemma_flat_map_push(f, n);
        assert forall|i: int| 0 <= i < idx.len() implies f(#[trigger] idx[i]) == f0(idx[i]) by {
            assert(idx[i] == i);
            assert(r[i] == t[i]);
            if first_at(t, i) {
                assert forall|j: int| 0 <= j < i implies r[j] != r[i] by {
                    assert(r[j] == t[j]);
                }
            }
            if first_at(r, i) {
                assert forall|j: int| 0 <= j < i implies t[j] != t[i] by {
                    assert(r[j] == t[j]);
                }
            }
        }
        lemma_flat_map_congruent(idx, f, f0);
        if r.contains(t.last()) {
            let j = choose|j: int| 0 <= j < r.len() && r[j] == t.last();
            assert(t[j] == r[j]);
            assert(!first_at(t, n));
        } else {
            assert forall|j: int| 0 <= j < n implies t[j] != t[n] by {
                assert(r[j] == t[j]);
                assert(r.contains(r[j]));
            }
            assert(first_at(t, n));
        }
        if !uniq(r).contains(t.last()) {
            uniq(r).lemma_flat_map_push(h, t.last());
        }
    }
}

/// A flat map whose images are all empty is empty.
pub proof fn lemma_flat_map_empty<A, B>(s: Seq<A>, g: spec_fn(A) -> Seq<B>)
    requires
        forall|i: int| 0 <= i < s.len() ==> g(#[trigger] s[i]).len() == 0,
    ensures
        s.flat_map(g).len() == 0,
{
    if s.flat_map(g).len() > 0 {
        let d = s.flat_map(g)[0];
        assert(s.flat_map(g).contains(d));
        lemma_flat_map_member(s, g, d);
        let i = choose|i: int| 0 <= i < s.len() && #[trigger] g(s[i]).contains(d);
    }
}

/// Appending elements that are already present, or whose images are empty,
/// leaves the flat map of the first occurrences unchanged.
pub proof fn lemma_uniq_append_flat_map<K, B>(a: Seq<K>, b: Seq<K>, h: spec_fn(K) -> Seq<B>)
    requires
        forall|i: int| 0 <= i < b.len() ==> a.contains(#[trigger] b[i]) || h(b[i]).len() == 0,
    ensures
        uniq(a + b).flat_map(h) == uniq(a).flat_map(h),
    decreases b.len(),
{
    if b.len() == 0 {
        assert(a + b =~= a);
    } else {
        let r = b.drop_last();
        let y = b.last();
        lemma_uniq_append_flat_map(a, r, h);
        assert((a + b).drop_last() =~= a + r);
        assert((a + b).last() == y);
        lemma_uniq_elements(a + r);
        assert(b[b.len() - 1] == y);
        if !uniq(a + r).contains(y) {
            uniq(a + r).lemma_flat_map_push(h, y);
            assert(!a.contains(y)) by {
                if a.contains(y) {
                    let i = choose|i: int| 0 <= i < a.len() && a[i] == y;
                    assert((a + r)[i] == y);
                    assert((a + r).contains(y));
                }
            }
            assert(h(b[b.len() - 1]).len() == 0);
            assert(h(y) =~= Seq::<B>::empty());
            assert(uniq(a + r).flat_map(h) + h(y) =~= uniq(a + r).flat_map(h));
        }
    }
}

/// An element of the image of an element lies in the flat map.
pub proof fn lemma_flat_map_has<A, B>(s: Seq<A>, g: spec_fn(A) -> Seq<B>, x: A, d: B)
    requires
        s.contains(x),
        g(x).contains(d),
    ensures
        s.flat_map(g).contains(d),
{
    let k = choose|k: int| 0 <= k < s.len() && s[k] == x;
    let gx = g(x);
    let j = choose|j: int| 0 <= j < gx.len() && gx[j] == d;
    let one = seq![x];
    one.lemma_flat_map_singleton(g);
    assert(s =~= s.take(k) + one + s.skip(k + 1));
    lemma_flat_map_concat(s.take(k) + one, s.skip(k + 1), g);
    lemma_flat_map_concat(s.take(k), one, g);
    let before = s.take(k).flat_map(g);
    assert(s.flat_map(g)[before.len() + j] == d);
}

/// Sorting keeps every element.
pub proof fn lemma_sorted_by_contains<T: View, O: Order<T>>(s: Seq<T::V>, x: T::V)
    requires
        s.contains(x),
    ensures
        sorted_by::<T, O>(s).contains(x),
{
    broadcast use group_to_multiset_ensures;

    lemma_sorted_by_permutation::<T, O>(s);
    assert(s.to_multiset().count(x) > 0);
}

/// Stable insertion sort: the result is `sorted_by` of the input.
pub fn sort_stable<T: View, O: Order<T>>(v: Vec<T>) -> (res: Vec<T>)
    ensures
        view_seq(res@) == sorted_by::<T, O>(view_seq(v@)),
{
    let ghost input = view_seq(v@);
    let mut rest = v;
    let mut out: Vec<T> = Vec::new();
    let ghost mut k: int = 0;
    while rest.len() > 0
        invariant
            0 <= k <= input.len(),
            view_seq(rest@) == input.skip(k),
            view_seq(out@) == sorted_by::<T, O>(input.take(k)),
        decreases rest.len(),
    {
        let ghost before_rest = rest@;
        proof {
            assert(view_seq(before_rest).len() == before_rest.len());
        }
        let x = rest.remove(0);
        proof {
            assert(view_seq(before_rest)[0] == x@);
            assert(input.skip(k)[0] == input[k]);
            assert forall|i: int| 0 <= i < rest@.len() implies view_seq(rest@)[i] == input.skip(
                k + 1,
            )[i] by {
                assert(rest@[i] == before_rest[i + 1]);
                assert(view_seq(before_rest)[i + 1] == input.skip(k)[i + 1]);
            }
            assert(view_seq(rest@) =~= input.skip(k + 1));
        }
        let ghost r = view_seq(out@);
        let mut j: usize = 0;
        while j < out.len() && !O::precedes(&x, &out[j])
            invariant
                j <= out@.len(),
                r == view_seq(out@),
                forall|i: int| 0 <= i < j ==> !O::before(x@, #[trigger] r[i]),
            decreases out@.len() - j,
        {
            j = j + 1;
        }
        proof {
            lemma_insert_point_skip::<T, O>(r, x@, j as int);
            assert(insert_point::<T, O>(r.skip(j as int), x@) == 0);
            assert(input.take(k + 1).drop_last() =~= input.take(k));
            assert(input.take(k + 1).last() == x@);
        }
        out.insert(j, x);
        proof {
            assert(view_seq(out@) =~= r.insert(j as int, x@));
            k = k + 1;
        }
    }
    proof {
        assert(input.take(k) =~= input);
    }
    out
}

} // verus!
