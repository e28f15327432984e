//! Orders used to sort lists: texts compared character by character, and a
//! stable insertion sort over any type that says which of two items goes
//! first.

use vstd::prelude::*;

verus! {

/// Whether `a` comes strictly before `b` in character order: at the first
/// difference `a` has the smaller character, or `a` is a proper prefix of `b`.
/// For UTF-8 text this is the byte order that `str::cmp` uses.
pub open spec fn text_before(a: Seq<char>, b: Seq<char>) -> bool
    decreases a.len(),
{
    if b.len() == 0 {
        false
    } else if a.len() == 0 {
        true
    } else if a[0] != b[0] {
        a[0] < b[0]
    } else {
        text_before(a.drop_first(), b.drop_first())
    }
}

/// Whether `a` comes strictly before `b` in character order.
pub fn text_less(a: &Vec<char>, b: &Vec<char>) -> (r: bool)
    ensures
        r == text_before(a@, b@),
{
    let mut i: usize = 0;
    assert(a@.skip(0) =~= a@);
    assert(b@.skip(0) =~= b@);
    while i < a.len() && i < b.len() && a[i] == b[i]
        invariant
            i <= a.len(),
            i <= b.len(),
            text_before(a@, b@) == text_before(a@.skip(i as int), b@.skip(i as int)),
        decreases a.len() - i,
    {
        assert(a@.skip(i as int).drop_first() =~= a@.skip(i + 1));
        assert(b@.skip(i as int).drop_first() =~= b@.skip(i + 1));
        i = i + 1;
    }
    if i == b.len() {
        false
    } else if i == a.len() {
        true
    } else {
        assert(a@.skip(i as int)[0] == a@[i as int]);
        assert(b@.skip(i as int)[0] == b@[i as int]);
        a[i] < b[i]
    }
}

/// Character order is asymmetric.
pub proof fn lemma_text_before_asymmetric(a: Seq<char>, b: Seq<char>)
    requires
        text_before(a, b),
    ensures
        !text_before(b, a),
    decreases a.len(),
{
    if a.len() > 0 && b.len() > 0 && a[0] == b[0] {
        lemma_text_before_asymmetric(a.drop_first(), b.drop_first());
    }
}

/// Character order is negatively transitive.
pub proof fn lemma_text_before_negatively_transitive(a: Seq<char>, b: Seq<char>, c: Seq<char>)
    requires
        text_before(a, c),
    ensures
        text_before(a, b) || text_before(b, c),
    decreases a.len(),
{
    if a.len() > 0 && b.len() > 0 && c.len() > 0 && a[0] == c[0] && b[0] == a[0] {
        lemma_text_before_negatively_transitive(a.drop_first(), b.drop_first(), c.drop_first());
    }
}

/// Character order is total: of two different texts one comes first.
pub proof fn lemma_text_before_total(a: Seq<char>, b: Seq<char>)
    requires
        a != b,
    ensures
        text_before(a, b) || text_before(b, a),
    decreases a.len(),
{
    if a.len() > 0 && b.len() > 0 && a[0] == b[0] {
        if a.drop_first() == b.drop_first() {
            assert(a =~= seq![a[0]] + a.drop_first());
            assert(b =~= seq![b[0]] + b.drop_first());
        }
        lemma_text_before_total(a.drop_first(), b.drop_first());
    } else if a.len() > 0 && b.len() > 0 {
        assert(a[0] != b[0]);
    } else if a.len() == 0 && b.len() == 0 {
        assert(a =~= b);
    }
}

/// A type whose lists are kept in a fixed order.
pub trait Ordered: Sized {
    /// Whether `self` goes strictly before `other`.
    spec fn goes_before(&self, other: &Self) -> bool;

    /// Whether `self` goes strictly before `other`.
    fn before(&self, other: &Self) -> (r: bool)
        ensures
            r == self.goes_before(other),
    ;

    /// Going before is asymmetric.
    proof fn lemma_asymmetric(a: Self, b: Self)
        requires
            a.goes_before(&b),
        ensures
            !b.goes_before(&a),
    ;

    /// Whatever lies between two ordered items goes after the first or
    /// before the second.
    proof fn lemma_negatively_transitive(a: Self, b: Self, c: Self)
        requires
            a.goes_before(&c),
        ensures
            a.goes_before(&b) || b.goes_before(&c),
    ;
}

/// Inserts `x` after every item that it does not go strictly before.
pub open spec fn insert_in_order<T: Ordered>(sorted: Seq<T>, x: T) -> Seq<T>
    decreases sorted.len(),
{
    if sorted.len() == 0 {
        seq![x]
    } else if !x.goes_before(&sorted.last()) {
        sorted.push(x)
    } else {
        insert_in_order(sorted.drop_last(), x).push(sorted.last())
    }
}

/// The items in order; items that neither goes before keep their relative
/// order (a stable sort, as `sort_by` is).
pub open spec fn in_order<T: Ordered>(s: Seq<T>) -> Seq<T>
    decreases s.len(),
{
    if s.len() == 0 {
        Seq::empty()
    } else {
        insert_in_order(in_order(s.drop_last()), s.last())
    }
}

proof fn lemma_insert_in_order_at<T: Ordered>(sorted: Seq<T>, x: T, p: int)
    requires
        0 <= p <= sorted.len(),
        forall|j: int| #![trigger sorted[j]] p <= j < sorted.len() ==> x.goes_before(&sorted[j]),
        p == 0 || !x.goes_before(&sorted[p - 1]),
    ensures
        insert_in_order(sorted, x) == sorted.take(p).push(x) + sorted.skip(p),
    decreases sorted.len() - p,
{
    if sorted.len() == 0 {
        assert(sorted.take(p).push(x) + sorted.skip(p) =~= seq![x]);
    } else if p == sorted.len() {
        assert(sorted.take(p).push(x) + sorted.skip(p) =~= sorted.push(x));
    } else {
        let d = sorted.drop_last();
        assert forall|j: int| #![trigger d[j]] p <= j < d.len() implies x.goes_before(&d[j]) by {
            assert(d[j] == sorted[j]);
        }
        lemma_insert_in_order_at(d, x, p);
        assert(sorted.take(p).push(x) + sorted.skip(p) =~= (d.take(p).push(x) + d.skip(p)).push(
            sorted.last(),
        ));
    }
}

/// Sorting keeps exactly the given items.
pub proof fn lemma_in_order_multiset<T: Ordered>(s: Seq<T>)
    ensures
        in_order(s).to_multiset() == s.to_multiset(),
        in_order(s).len() == s.len(),
    decreases s.len(),
{
    broadcast use vstd::seq_lib::group_to_multiset_ensures;

    if s.len() > 0 {
        lemma_in_order_multiset(s.drop_last());
        lemma_insert_multiset(in_order(s.drop_last()), s.last());
        assert(s =~= s.drop_last().push(s.last()));
    }
    assert(in_order(s).len() == in_order(s).to_multiset().len());
    assert(s.len() == s.to_multiset().len());
}

proof fn lemma_insert_multiset<T: Ordered>(sorted: Seq<T>, x: T)
    ensures
        insert_in_order(sorted, x).to_multiset() == sorted.to_multiset().insert(x),
    decreases sorted.len(),
{
    broadcast use vstd::seq_lib::group_to_multiset_ensures;

    if sorted.len() == 0 {
        assert(seq![x] =~= Seq::<T>::empty().push(x));
    } else if !x.goes_before(&sorted.last()) {
    } else {
        let d = sorted.drop_last();
        lemma_insert_multiset(d, x);
        assert(sorted =~= d.push(sorted.last()));
        assert(insert_in_order(d, x).push(sorted.last()).to_multiset() =~= sorted.to_multiset().insert(x));
    }
}

/// Whether no item goes strictly before an earlier one.
pub open spec fn is_ordered<T: Ordered>(s: Seq<T>) -> bool {
    forall|i: int, j: int| #![trigger s[i], s[j]] 0 <= i < j < s.len() ==> !s[j].goes_before(&s[i])
}

proof fn lemma_insert_in_order_sorted<T: Ordered>(sorted: Seq<T>, x: T)
    requires
        is_ordered(sorted),
    ensures
        is_ordered(insert_in_order(sorted, x)),
        insert_in_order(sorted, x).len() == sorted.len() + 1,
        forall|k: int|
            0 <= k < insert_in_order(sorted, x).len() ==> #[trigger] insert_in_order(sorted, x)[k] == x
                || sorted.contains(insert_in_order(sorted, x)[k]),
    decreases sorted.len(),
{
    if sorted.len() == 0 {
    } else if !x.goes_before(&sorted.last()) {
        let r = sorted.push(x);
        assert forall|i: int, j: int| #![trigger r[i], r[j]] 0 <= i < j < r.len() implies !r[j].goes_before(
            &r[i],
        ) by {
            if j == r.len() - 1 && i < sorted.len() - 1 {
                if x.goes_before(&sorted[i]) {
                    T::lemma_negatively_transitive(x, sorted.last(), sorted[i]);
                    assert(!sorted[sorted.len() - 1].goes_before(&sorted[i]));
                }
            }
            if j < r.len() - 1 {
                assert(r[i] == sorted[i] && r[j] == sorted[j]);
            }
        }
        assert forall|k: int| 0 <= k < r.len() implies #[trigger] r[k] == x || sorted.contains(r[k]) by {
            if k < sorted.len() {
                assert(r[k] == sorted[k]);
            }
        }
    } else {
        let d = sorted.drop_last();
        let y = sorted.last();
        assert(is_ordered(d)) by {
            assert forall|i: int, j: int| #![trigger d[i], d[j]] 0 <= i < j < d.len() implies !d[j].goes_before(
                &d[i],
            ) by {
                assert(d[i] == sorted[i] && d[j] == sorted[j]);
            }
        }
        lemma_insert_in_order_sorted(d, x);
        let m = insert_in_order(d, x);
        let r = m.push(y);
        assert forall|k: int| #![trigger m[k]] 0 <= k < m.len() implies !y.goes_before(&m[k]) by {
            if m[k] == x {
                T::lemma_asymmetric(x, y);
            } else {
                assert(d.contains(m[k]));
                let q = choose|q: int| 0 <= q < d.len() && d[q] == m[k];
                assert(sorted[q] == d[q]);
            }
        }
        assert forall|i: int, j: int| #![trigger r[i], r[j]] 0 <= i < j < r.len() implies !r[j].goes_before(
            &r[i],
        ) by {
            if j < m.len() {
                assert(r[i] == m[i] && r[j] == m[j]);
            } else {
                assert(r[i] == m[i]);
            }
        }
        assert forall|k: int| 0 <= k < r.len() implies #[trigger] r[k] == x || sorted.contains(r[k]) by {
            if k < m.len() {
                if m[k] != x {
                    assert(d.contains(m[k]));
                    let q = choose|q: int| 0 <= q < d.len() && d[q] == m[k];
                    assert(sorted[q] == d[q]);
                }
            } else {
                assert(sorted[sorted.len() - 1] == y);
            }
        }
    }
}

/// A sorted list is in order: no item goes strictly before an earlier one.
pub proof fn lemma_in_order_sorted<T: Ordered>(s: Seq<T>)
    ensures
        is_ordered(in_order(s)),
    decreases s.len(),
{
    if s.len() > 0 {
        lemma_in_order_sorted(s.drop_last());
        lemma_insert_in_order_sorted(in_order(s.drop_last()), s.last());
    }
}

/// Sorts a list in place with a stable insertion sort.
pub fn sort_in_order<T: Ordered>(items: &mut Vec<T>)
    ensures
        final(items)@ == in_order(old(items)@),
{
    let ghost original = items@;
    let mut pending: Vec<T> = Vec::new();
    std::mem::swap(&mut pending, items);
    let mut sorted: Vec<T> = Vec::new();
    let mut j: usize = 0;
    let m = pending.len();
    while pending.len() > 0
        invariant
            m == original.len(),
            j + pending@.len() == m,
            pending@ == original.skip(j as int),
            sorted@ == in_order(original.take(j as int)),
        decreases pending@.len(),
    {
        let ghost before = pending@;
        let x = pending.remove(0);
        assert(before[0] == original[j as int]);
        assert(pending@ =~= original.skip(j + 1));
        assert(original.take(j + 1).drop_last() =~= original.take(j as int));
        let mut p = sorted.len();
        while p > 0 && x.before(&sorted[p - 1])
            invariant
                p <= sorted.len(),
                forall|k: int| #![trigger sorted@[k]] p <= k < sorted@.len() ==> x.goes_before(&sorted@[k]),
            decreases p,
        {
            p = p - 1;
        }
        proof {
            lemma_insert_in_order_at(sorted@, x, p as int);
        }
        sorted.insert(p, x);
        assert(sorted@ =~= in_order(original.take(j + 1)));
        j = j + 1;
    }
    assert(original.take(m as int) =~= original);
    *items = sorted;
}

} // verus!
