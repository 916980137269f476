//! Facts about sequences.

use std::collections::BTreeMap;
use vstd::prelude::*;

verus! {

/// What `filter_map` makes of a first element and the rest.
pub proof fn filter_map_first<A, B>(s: Seq<A>, f: spec_fn(A) -> Option<B>)
    requires
        s.len() > 0,
    ensures
        s.filter_map(f) == (match f(s[0]) {
            Some(b) => seq![b] + s.drop_first().filter_map(f),
            None => s.drop_first().filter_map(f),
        }),
    decreases s.len(),
{
    if s.len() == 1 {
        reveal_with_fuel(Seq::filter_map, 2);
        assert(s.drop_first() =~= seq![]);
        assert(s.drop_last() =~= seq![]);
        assert(s.filter_map(f) =~= (match f(s[0]) {
            Some(b) => seq![b] + s.drop_first().filter_map(f),
            None => s.drop_first().filter_map(f),
        }));
    } else {
        filter_map_first(s.drop_last(), f);
        assert(s.drop_last().drop_first() =~= s.drop_first().drop_last());
        assert(s.drop_first().last() == s.last());
        assert(s.filter_map(f) =~= (match f(s[0]) {
            Some(b) => seq![b] + s.drop_first().filter_map(f),
            None => s.drop_first().filter_map(f),
        }));
    }
}

/// `filter_map` of a pushed element.
pub proof fn filter_map_push<A, B>(s: Seq<A>, x: A, f: spec_fn(A) -> Option<B>)
    ensures
        s.push(x).filter_map(f) == (match f(x) {
            Some(b) => s.filter_map(f).push(b),
            None => s.filter_map(f),
        }),
{
    assert(s.push(x).drop_last() =~= s);
    assert(s.push(x).filter_map(f) =~= (match f(x) {
        Some(b) => s.filter_map(f).push(b),
        None => s.filter_map(f),
    }));
}

/// What `filter_map` makes of an element stands in the result.
pub proof fn filter_map_has<A, B>(s: Seq<A>, f: spec_fn(A) -> Option<B>, i: int)
    requires
        0 <= i < s.len(),
        f(s[i]) is Some,
    ensures
        s.filter_map(f).contains(f(s[i])->0),
    decreases s.len(),
{
    reveal(Seq::filter_map);
    let init = s.drop_last();
    let (all, before) = (s.filter_map(f), init.filter_map(f));
    if i < s.len() - 1 {
        assert(init[i] == s[i]);
        filter_map_has(init, f, i);
        let k = choose|k: int| 0 <= k < before.len() && before[k] == f(s[i])->0;
        assert(all[k] == f(s[i])->0);
    } else {
        assert(all[before.len() as int] == f(s[i])->0);
    }
}

/// `filter_map` of the elements is that of their places.
pub proof fn filter_map_by_place<A, B>(s: Seq<A>, g: spec_fn(A) -> Option<B>)
    ensures
        Seq::new(s.len(), |i: int| i).filter_map(|i: int| g(s[i])) == s.filter_map(g),
    decreases s.len(),
{
    let places = Seq::new(s.len(), |i: int| i);
    let h = |i: int| g(s[i]);
    reveal(Seq::filter_map);
    if s.len() > 0 {
        let t = s.drop_last();
        let init = Seq::new(t.len(), |i: int| i);
        filter_map_by_place(t, g);
        assert(places.drop_last() =~= init);
        filter_map_same(init, |i: int| g(t[i]), h);
        assert(places.last() == s.len() - 1);
    } else {
        assert(places =~= seq![]);
    }
}

/// Functions that agree on the places of a sequence make the same of them.
pub proof fn filter_map_same<B>(
    places: Seq<int>,
    f: spec_fn(int) -> Option<B>,
    g: spec_fn(int) -> Option<B>,
)
    requires
        forall|i: int| 0 <= i < places.len() ==> f(#[trigger] places[i]) == g(places[i]),
    ensures
        places.filter_map(f) == places.filter_map(g),
    decreases places.len(),
{
    reveal(Seq::filter_map);
    if places.len() > 0 {
        let init = places.drop_last();
        assert forall|i: int| 0 <= i < init.len() implies f(#[trigger] init[i]) == g(init[i]) by {
            assert(init[i] == places[i]);
        }
        filter_map_same(init, f, g);
    }
}

/// `filter_map` makes nothing twice of different elements, where it makes different things of
/// them.
pub proof fn filter_map_once<A, B>(s: Seq<A>, f: spec_fn(A) -> Option<B>)
    requires
        s.no_duplicates(),
        forall|a: A, b: A|
            s.contains(a) && s.contains(b) && #[trigger] f(a) is Some && f(a) == #[trigger] f(b)
                ==> a == b,
    ensures
        s.filter_map(f).no_duplicates(),
    decreases s.len(),
{
    reveal(Seq::filter_map);
    if s.len() > 0 {
        let t = s.drop_last();
        let n = s.len() - 1;
        assert forall|a: A| t.contains(a) implies s.contains(a) by {
            let i = choose|i: int| 0 <= i < t.len() && t[i] == a;
            assert(s[i] == a);
        }
        assert(t.no_duplicates()) by {
            assert forall|i: int, j: int| 0 <= i < t.len() && 0 <= j < t.len() && i
                != j implies t[i] != t[j] by {
                assert(s[i] != s[j]);
            }
        }
        filter_map_once(t, f);
        let (all, most) = (s.filter_map(f), t.filter_map(f));
        if f(s.last()) is Some {
            assert forall|i: int, j: int| 0 <= i < all.len() && 0 <= j < all.len() && i
                != j implies all[i] != all[j] by {
                if i < most.len() && j < most.len() {
                    assert(most[i] != most[j]);
                } else {
                    let k = if i < most.len() {
                        i
                    } else {
                        j
                    };
                    assert(most.contains(most[k]));
                    t.lemma_filter_map_contains(f, most[k]);
                    let a = choose|a: A| #[trigger] t.contains(a) && f(a) == Some(most[k]);
                    let m = choose|m: int| 0 <= m < t.len() && t[m] == a;
                    assert(s[m] == a);
                    assert(s[n] == s.last());
                    assert(s.contains(a) && s.contains(s.last()));
                    assert(s[m] != s[n]);
                    if f(a) == f(s.last()) {
                        assert(a == s.last());
                    }
                }
            }
        }
    }
}

/// Whether each number is larger than the one before it.
pub open spec fn ascending(s: Seq<u64>) -> bool {
    forall|i: int, j: int| 0 <= i < j < s.len() ==> #[trigger] s[i] < #[trigger] s[j]
}

/// The numbers of a finite set, each once, from the smallest up.
pub open spec fn in_ascent(set: Set<u64>) -> Seq<u64> {
    choose|s: Seq<u64>| #[trigger] ascending(s) && s.to_set() == set
}

/// Two ascending sequences of the same numbers are the same.
pub proof fn ascent_unique(s: Seq<u64>, t: Seq<u64>)
    requires
        ascending(s),
        ascending(t),
        s.to_set() == t.to_set(),
    ensures
        s == t,
    decreases s.len(),
{
    if s.len() == 0 {
        if t.len() > 0 {
            assert(t.to_set().contains(t[0]));
            assert(s.to_set().contains(t[0]));
        }
        assert(s =~= t);
    } else {
        assert(s.to_set().contains(s.last()));
        assert(t.to_set().contains(s.last()));
        assert(t.contains(s.last()));
        assert(t.to_set().contains(t.last()));
        assert(s.to_set().contains(t.last()));
        assert(s.contains(t.last()));
        let i = s.index_of(t.last());
        let j = t.index_of(s.last());
        assert(s[i] == t.last() && t[j] == s.last());
        assert(s.last() == t.last());
        let s0 = s.drop_last();
        let t0 = t.drop_last();
        assert forall|x: u64| #[trigger] s0.to_set().contains(x) <==> t0.to_set().contains(x) by {
            if s0.contains(x) {
                let a = s0.index_of(x);
                assert(s[a] == x);
                assert(s.to_set().contains(x));
                assert(t.contains(x));
                let b = t.index_of(x);
                assert(t[b] == x);
                assert(s[a] < s[s.len() - 1]);
                assert(t0[b] == x);
            }
            if t0.contains(x) {
                let b = t0.index_of(x);
                assert(t[b] == x);
                assert(t.to_set().contains(x));
                assert(s.contains(x));
                let a = s.index_of(x);
                assert(s[a] == x);
                assert(t[b] < t[t.len() - 1]);
                assert(s0[a] == x);
            }
        }
        assert(s0.to_set() =~= t0.to_set());
        ascent_unique(s0, t0);
        assert(s =~= s0.push(s.last()));
        assert(t =~= t0.push(t.last()));
    }
}

/// An ascending sequence of a set's numbers is `in_ascent`.
pub proof fn ascent_of_set(s: Seq<u64>, set: Set<u64>)
    requires
        ascending(s),
        s.to_set() == set,
    ensures
        in_ascent(set) == s,
{
    ascent_unique(in_ascent(set), s);
}

/// The greatest number of a set.
proof fn greatest(set: Set<u64>) -> (m: u64)
    requires
        set.finite(),
        !set.is_empty(),
    ensures
        set.contains(m),
        forall|x: u64| #[trigger] set.contains(x) ==> x <= m,
    decreases set.len(),
{
    let x = set.choose();
    let rest = set.remove(x);
    if rest.is_empty() {
        assert forall|y: u64| #[trigger] set.contains(y) implies y <= x by {
            assert(!rest.contains(y));
        }
        x
    } else {
        let m = greatest(rest);
        assert forall|y: u64| #[trigger] set.contains(y) && y != x implies y <= m by {
            assert(rest.contains(y));
        }
        if m < x {
            x
        } else {
            m
        }
    }
}

/// The numbers of a finite set, from the smallest up, ascend and are those of the set.
pub proof fn in_ascent_ascends(set: Set<u64>)
    requires
        set.finite(),
    ensures
        ascending(in_ascent(set)),
        in_ascent(set).to_set() == set,
    decreases set.len(),
{
    if set.is_empty() {
        let none = Seq::<u64>::empty();
        assert(none.to_set() =~= set);
        assert(ascending(none));
    } else {
        let m = greatest(set);
        in_ascent_ascends(set.remove(m));
        let before = in_ascent(set.remove(m));
        let all = before.push(m);
        assert forall|i: int, j: int| 0 <= i < j < all.len() implies #[trigger] all[i]
            < #[trigger] all[j] by {
            assert(before.to_set().contains(before[i]));
            assert(set.remove(m).contains(before[i]));
        }
        assert forall|x: u64| #[trigger] all.to_set().contains(x) <==> set.contains(x) by {
            if x != m && set.contains(x) {
                assert(before.to_set().contains(x));
                let k = before.index_of(x);
                assert(all[k] == x);
            }
            if all.to_set().contains(x) && x != m {
                let k = all.index_of(x);
                assert(before[k] == x);
                assert(before.to_set().contains(x));
            }
            if x == m {
                assert(all[before.len() as int] == m);
            }
        }
        assert(all.to_set() =~= set);
        assert(ascending(all));
    }
}

/// The keys of a map from the smallest up.
pub fn keys_in_ascent<V>(m: &BTreeMap<u64, V>) -> (r: Vec<u64>)
    ensures
        r@ == in_ascent(m@.dom()),
        ascending(r@),
        r@.to_set() == m@.dom(),
{
    broadcast use vstd::std_specs::btree::group_btree_axioms;
    broadcast use vstd::laws_cmp::group_laws_cmp;

    let iter = m.iter();
    let ghost pairs = vstd::std_specs::iter::IteratorSpec::remaining(&iter);
    let ghost keys = pairs.map_values(|kv: (&u64, &V)| *kv.0);
    assert(vstd::laws_cmp::obeys_cmp::<u64>());
    assert(vstd::std_specs::btree::increasing_seq(keys));
    let mut r: Vec<u64> = Vec::new();
    for kv in it: iter
        invariant
            it.seq() == pairs,
            keys == pairs.map_values(|kv: (&u64, &V)| *kv.0),
            r@ =~= keys.take(it.index()),
    {
        r.push(*kv.0);
    }
    proof {
        assert(r@ =~= keys);
        assert forall|i: int, j: int| 0 <= i < j < keys.len() implies #[trigger] keys[i]
            < #[trigger] keys[j] by {
            assert(vstd::std_specs::cmp::OrdSpec::cmp_spec(&keys[i], &keys[j]) is Less);
        }
        assert forall|k: u64| #[trigger] keys.to_set().contains(k) <==> m@.dom().contains(k) by {
            if keys.contains(k) {
                let i = keys.index_of(k);
                assert(m@.contains_key(*pairs[i].0));
            }
            if m@.dom().contains(k) {
                assert(m@.contains_key(k));
                assert(pairs.contains((&k, &m@[k])));
                let i = pairs.index_of((&k, &m@[k]));
                assert(keys[i] == k);
            }
        }
        assert(keys.to_set() =~= m@.dom());
        ascent_of_set(keys, m@.dom());
    }
    r
}

} // verus!
