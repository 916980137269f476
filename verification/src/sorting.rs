//! A stable merge sort whose result is pinned down by the order it sorts by.

use vstd::multiset::*;
use vstd::prelude::*;
use vstd::relations::*;
use vstd::seq_lib::*;

verus! {

/// A total order on the values that `covers` admits.
pub trait SortOrder<T> {
    /// Whether `le` may be asked about `a`.
    spec fn covers(&self, a: T) -> bool;

    /// Whether `a` comes no later than `b`.
    spec fn leq(&self, a: T, b: T) -> bool;

    /// The order is total.
    proof fn total(&self)
        ensures
            total_ordering(|a: T, b: T| self.leq(a, b)),
    ;

    /// Whether `a` comes no later than `b`.
    fn le(&self, a: &T, b: &T) -> (r: bool)
        requires
            self.covers(*a),
            self.covers(*b),
        ensures
            r == self.leq(*a, *b),
    ;
}

/// `s` in the order `o`.
pub open spec fn in_order<T, O: SortOrder<T>>(o: O, s: Seq<T>) -> Seq<T> {
    s.sort_by(|a: T, b: T| o.leq(a, b))
}

/// A sorted arrangement of `s` is `in_order(o, s)`.
pub proof fn sorted_is_in_order<T, O: SortOrder<T>>(o: O, s: Seq<T>, sorted: Seq<T>)
    requires
        s.to_multiset() == sorted.to_multiset(),
        forall|i: int, j: int|
            0 <= i < j < sorted.len() ==> o.leq(#[trigger] sorted[i], #[trigger] sorted[j]),
    ensures
        sorted == in_order(o, s),
{
    let leq = |a: T, b: T| o.leq(a, b);
    o.total();
    s.lemma_sort_by_ensures(leq);
    assert(sorted_by(sorted, leq));
    lemma_sorted_unique(sorted, in_order(o, s), leq);
}

/// `in_order(o, s)` arranges `s`, and nothing stands before what must precede it.
pub proof fn in_order_sorts<T, O: SortOrder<T>>(o: O, s: Seq<T>)
    ensures
        s.to_multiset() == in_order(o, s).to_multiset(),
        in_order(o, s).len() == s.len(),
        forall|i: int, j: int|
            0 <= i < j < s.len() ==> o.leq(
                #[trigger] in_order(o, s)[i],
                #[trigger] in_order(o, s)[j],
            ),
{
    broadcast use group_to_multiset_ensures;

    let leq = |a: T, b: T| o.leq(a, b);
    o.total();
    s.lemma_sort_by_ensures(leq);
    assert forall|i: int, j: int| 0 <= i < j < in_order(o, s).len() implies o.leq(
        #[trigger] in_order(o, s)[i],
        #[trigger] in_order(o, s)[j],
    ) by {
        assert(leq(in_order(o, s)[i], in_order(o, s)[j]));
    }
    assert(s.len() == s.to_multiset().len());
    assert(in_order(o, s).len() == in_order(o, s).to_multiset().len());
}

spec fn ordered<T, O: SortOrder<T>>(o: O, s: Seq<T>) -> bool {
    forall|i: int, j: int| 0 <= i < j < s.len() ==> o.leq(#[trigger] s[i], #[trigger] s[j])
}

proof fn leq_facts<T, O: SortOrder<T>>(o: O)
    ensures
        forall|a: T, b: T| #[trigger] o.leq(a, b) || o.leq(b, a),
        forall|a: T, b: T, c: T| #[trigger] o.leq(a, b) && #[trigger] o.leq(b, c) ==> o.leq(a, c),
{
    let leq = |a: T, b: T| o.leq(a, b);
    o.total();
    assert forall|a: T, b: T| #[trigger] o.leq(a, b) || o.leq(b, a) by {
        assert(leq(a, b) || leq(b, a));
    }
    assert forall|a: T, b: T, c: T| #[trigger] o.leq(a, b) && #[trigger] o.leq(b, c) implies o.leq(
        a,
        c,
    ) by {
        assert(leq(a, b) && leq(b, c));
        assert(leq(a, c));
    }
}

fn merge<T: Copy, O: SortOrder<T>>(o: &O, a: &Vec<T>, b: &Vec<T>) -> (r: Vec<T>)
    requires
        ordered(*o, a@),
        ordered(*o, b@),
        forall|i: int| 0 <= i < a@.len() ==> o.covers(#[trigger] a@[i]),
        forall|i: int| 0 <= i < b@.len() ==> o.covers(#[trigger] b@[i]),
    ensures
        ordered(*o, r@),
        r@.to_multiset() == (a@ + b@).to_multiset(),
{
    broadcast use group_to_multiset_ensures;

    let mut r: Vec<T> = Vec::new();
    let mut i: usize = 0;
    let mut j: usize = 0;
    proof {
        leq_facts(*o);
        assert(a@.take(0) =~= seq![]);
        assert(b@.take(0) =~= seq![]);
        assert(a@.take(0) + b@.take(0) =~= seq![]);
    }
    while i < a.len() || j < b.len()
        invariant
            i <= a@.len(),
            j <= b@.len(),
            ordered(*o, a@),
            ordered(*o, b@),
            ordered(*o, r@),
            forall|x: T, y: T| #[trigger] o.leq(x, y) || o.leq(y, x),
            forall|x: T, y: T, z: T| #[trigger]
                o.leq(x, y) && #[trigger] o.leq(y, z) ==> o.leq(x, z),
            forall|k: int| 0 <= k < a@.len() ==> o.covers(#[trigger] a@[k]),
            forall|k: int| 0 <= k < b@.len() ==> o.covers(#[trigger] b@[k]),
            forall|k: int, l: int|
                0 <= k < r@.len() && i <= l < a@.len() ==> o.leq(
                    #[trigger] r@[k],
                    #[trigger] a@[l],
                ),
            forall|k: int, l: int|
                0 <= k < r@.len() && j <= l < b@.len() ==> o.leq(
                    #[trigger] r@[k],
                    #[trigger] b@[l],
                ),
            r@.to_multiset() == (a@.take(i as int) + b@.take(j as int)).to_multiset(),
        decreases a@.len() - i + (b@.len() - j),
    {
        let from_a = j >= b.len() || (i < a.len() && o.le(&a[i], &b[j]));
        let ghost before = r@;
        if from_a {
            proof {
                broadcast use group_to_multiset_ensures, group_multiset_axioms;

                lemma_multiset_commutative(a@.take(i as int), b@.take(j as int));
                lemma_multiset_commutative(a@.take(i + 1), b@.take(j as int));
                assert(a@.take(i + 1) =~= a@.take(i as int).push(a@[i as int]));
                assert(before.push(a@[i as int]).to_multiset() =~= (a@.take(i + 1) + b@.take(
                    j as int,
                )).to_multiset());
            }
            r.push(a[i]);
            i += 1;
        } else {
            proof {
                broadcast use group_to_multiset_ensures, group_multiset_axioms;

                lemma_multiset_commutative(a@.take(i as int), b@.take(j as int));
                lemma_multiset_commutative(a@.take(i as int), b@.take(j + 1));
                assert(b@.take(j + 1) =~= b@.take(j as int).push(b@[j as int]));
                assert(before.push(b@[j as int]).to_multiset() =~= (a@.take(i as int) + b@.take(
                    j + 1,
                )).to_multiset());
            }
            r.push(b[j]);
            j += 1;
        }
    }
    assert(a@.take(i as int) =~= a@);
    assert(b@.take(j as int) =~= b@);
    r
}

fn sort_range<T: Copy, O: SortOrder<T>>(o: &O, v: &Vec<T>, from: usize, to: usize) -> (r: Vec<T>)
    requires
        from <= to <= v@.len(),
        forall|i: int| 0 <= i < v@.len() ==> o.covers(#[trigger] v@[i]),
    ensures
        ordered(*o, r@),
        r@.to_multiset() == v@.subrange(from as int, to as int).to_multiset(),
        forall|i: int| 0 <= i < r@.len() ==> o.covers(#[trigger] r@[i]),
    decreases to - from,
{
    if to - from <= 1 {
        let mut r: Vec<T> = Vec::new();
        if from < to {
            r.push(v[from]);
        }
        assert(r@ =~= v@.subrange(from as int, to as int));
        return r;
    }
    let mid: usize = from + (to - from) / 2;
    let a = sort_range(o, v, from, mid);
    let b = sort_range(o, v, mid, to);
    let r = merge(o, &a, &b);
    proof {
        broadcast use group_to_multiset_ensures;

        let left = v@.subrange(from as int, mid as int);
        let right = v@.subrange(mid as int, to as int);
        lemma_multiset_commutative(a@, b@);
        lemma_multiset_commutative(left, right);
        assert(left + right =~= v@.subrange(from as int, to as int));
        assert forall|i: int| 0 <= i < r@.len() implies o.covers(#[trigger] r@[i]) by {
            assert(r@.contains(r@[i]));
            assert((a@ + b@).to_multiset().count(r@[i]) > 0);
            assert((a@ + b@).contains(r@[i]));
            let k = choose|k: int| 0 <= k < (a@ + b@).len() && (a@ + b@)[k] == r@[i];
            if k < a@.len() {
                assert(o.covers(a@[k]));
            } else {
                assert(o.covers(b@[k - a@.len()]));
            }
        }
    }
    r
}

/// The values of `v` in the order `o`.
pub fn merge_sort<T: Copy, O: SortOrder<T>>(o: &O, v: &Vec<T>) -> (r: Vec<T>)
    requires
        forall|i: int| 0 <= i < v@.len() ==> o.covers(#[trigger] v@[i]),
    ensures
        r@ == in_order(*o, v@),
{
    let r = sort_range(o, v, 0, v.len());
    proof {
        assert(v@.subrange(0, v@.len() as int) =~= v@);
        sorted_is_in_order(*o, v@, r@);
    }
    r
}

} // verus!
