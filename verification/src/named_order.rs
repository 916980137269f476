//! Bringing things into the order of their names.

use crate::text;
use crate::text::{rank_text, Rank};
use vstd::prelude::*;

verus! {

broadcast use vstd::string::group_string_axioms;

/// What has a name.
pub trait Named: Sized {
    /// The name.
    spec fn called(&self) -> Seq<char>;

    /// The name.
    fn name_of(&self) -> (r: &str)
        ensures
            r@ == self.called(),
    ;
}

impl Named for String {
    open spec fn called(&self) -> Seq<char> {
        self@
    }

    fn name_of(&self) -> (r: &str) {
        self.as_str()
    }
}

/// The names of things.
pub open spec fn names_of<T: Named>(s: Seq<T>) -> Seq<Seq<char>> {
    s.map_values(|t: T| t.called())
}

/// Where `name` belongs among names that are in order: behind the last that does not come
/// after it.
pub open spec fn place_for(names: Seq<Seq<char>>, name: Seq<char>) -> int
    decreases names.len(),
{
    if names.len() == 0 {
        0
    } else if text::text_rank(names.last(), name) != Rank::After {
        names.len() as int
    } else {
        place_for(names.drop_last(), name)
    }
}

/// Names in order.
pub open spec fn names_in_order(names: Seq<Seq<char>>) -> Seq<Seq<char>>
    decreases names.len(),
{
    if names.len() == 0 {
        seq![]
    } else {
        let before = names_in_order(names.drop_last());
        before.insert(place_for(before, names.last()), names.last())
    }
}

/// Things in the order of their names. Those of one name stay as they stood.
pub open spec fn in_name_order<T: Named>(s: Seq<T>) -> Seq<T>
    decreases s.len(),
{
    if s.len() == 0 {
        seq![]
    } else {
        let before = in_name_order(s.drop_last());
        before.insert(place_for(names_of(before), s.last().called()), s.last())
    }
}

/// Whether no name comes after a later one.
pub open spec fn is_in_order(names: Seq<Seq<char>>) -> bool {
    forall|i: int, j: int|
        0 <= i < j < names.len() ==> text::text_rank(#[trigger] names[i], #[trigger] names[j])
            != Rank::After
}

/// The place parts what comes after the name from what does not.
proof fn place_parts(names: Seq<Seq<char>>, name: Seq<char>)
    requires
        is_in_order(names),
    ensures
        0 <= place_for(names, name) <= names.len(),
        forall|i: int|
            0 <= i < place_for(names, name) ==> text::text_rank(#[trigger] names[i], name)
                != Rank::After,
        forall|i: int|
            place_for(names, name) <= i < names.len() ==> text::text_rank(
                #[trigger] names[i],
                name,
            ) == Rank::After,
    decreases names.len(),
{
    if names.len() > 0 {
        let n = names.len() - 1;
        let init = names.drop_last();
        assert(forall|i: int| 0 <= i < n ==> #[trigger] names[i] == init[i]);
        assert(is_in_order(init));
        if text::text_rank(names.last(), name) != Rank::After {
            assert forall|i: int| 0 <= i < names.len() implies text::text_rank(
                #[trigger] names[i],
                name,
            ) != Rank::After by {
                if i < n {
                    assert(text::text_rank(names[i], names[n]) != Rank::After);
                    no_later(names[i], names[n], name);
                }
            }
        } else {
            place_parts(init, name);
        }
    }
}

/// The place lies in the list.
proof fn place_fits(names: Seq<Seq<char>>, name: Seq<char>)
    ensures
        0 <= place_for(names, name) <= names.len(),
    decreases names.len(),
{
    if names.len() > 0 {
        place_fits(names.drop_last(), name);
    }
}

/// Bringing things into order brings their names into order.
pub proof fn names_follow<T: Named>(s: Seq<T>)
    ensures
        names_of(in_name_order(s)) == names_in_order(names_of(s)),
    decreases s.len(),
{
    if s.len() > 0 {
        let init = s.drop_last();
        names_follow(init);
        let before = in_name_order(init);
        let names = names_of(before);
        assert(names_of(s).drop_last() =~= names_of(init));
        place_fits(names, s.last().called());
        let at = place_for(names, s.last().called());
        assert(names_of(before.insert(at, s.last())) =~= names.insert(at, s.last().called()));
    } else {
        assert(names_of(in_name_order(s)) =~= names_in_order(names_of(s)));
    }
}

/// What comes no later than something that comes no later than `c` comes no later than
/// `c`.
proof fn no_later(a: Seq<char>, b: Seq<char>, c: Seq<char>)
    requires
        text::text_rank(a, b) != Rank::After,
        text::text_rank(b, c) != Rank::After,
    ensures
        text::text_rank(a, c) != Rank::After,
{
    text::text_rank_same(a, b);
    text::text_rank_same(b, c);
    if text::text_rank(a, b) == Rank::Before && text::text_rank(b, c) == Rank::Before {
        text::text_rank_transitive(a, b, c);
    }
}

/// Bringing things into order loses none and adds none, and no thing comes after a later
/// one.
pub proof fn name_order_sorts<T: Named>(s: Seq<T>)
    ensures
        in_name_order(s).to_multiset() == s.to_multiset(),
        in_name_order(s).len() == s.len(),
        is_in_order(names_of(in_name_order(s))),
    decreases s.len(),
{
    broadcast use vstd::seq_lib::group_to_multiset_ensures;

    if s.len() > 0 {
        let init = s.drop_last();
        name_order_sorts(init);
        let before = in_name_order(init);
        let names = names_of(before);
        let name = s.last().called();
        let at = place_for(names, name);
        place_parts(names, name);
        let r = in_name_order(s);
        assert(s =~= init.push(s.last()));
        vstd::seq_lib::to_multiset_insert(before, at, s.last());
        assert(names_of(r) =~= names.insert(at, name));
        assert forall|i: int, j: int| 0 <= i < j < r.len() implies text::text_rank(
            #[trigger] names_of(r)[i],
            #[trigger] names_of(r)[j],
        ) != Rank::After by {
            if i < at {
                assert(names_of(r)[i] == names[i]);
            } else if i > at {
                assert(names_of(r)[i] == names[i - 1]);
            }
            if j < at {
                assert(names_of(r)[j] == names[j]);
            } else if j > at {
                assert(names_of(r)[j] == names[j - 1]);
            }
            if i == at {
                text::text_rank_flip(names_of(r)[j], name);
            }
        }
    } else {
        assert(in_name_order(s) =~= s);
    }
}

/// Names in order are the names, and none of them comes after a later one.
pub proof fn names_are_in_order(names: Seq<Seq<char>>)
    ensures
        names_in_order(names).to_multiset() == names.to_multiset(),
        is_in_order(names_in_order(names)),
    decreases names.len(),
{
    broadcast use vstd::seq_lib::group_to_multiset_ensures;

    if names.len() > 0 {
        let (init, name) = (names.drop_last(), names.last());
        names_are_in_order(init);
        let before = names_in_order(init);
        let at = place_for(before, name);
        place_parts(before, name);
        let r = names_in_order(names);
        assert(names =~= init.push(name));
        vstd::seq_lib::to_multiset_insert(before, at, name);
        assert(r == before.insert(at, name));
        assert forall|i: int, j: int| 0 <= i < j < r.len() implies text::text_rank(
            #[trigger] r[i],
            #[trigger] r[j],
        ) != Rank::After by {
            if i < at {
                assert(r[i] == before[i]);
            } else if i > at {
                assert(r[i] == before[i - 1]);
            }
            if j < at {
                assert(r[j] == before[j]);
            } else if j > at {
                assert(r[j] == before[j - 1]);
            }
            if i == at {
                text::text_rank_flip(r[j], name);
            }
        }
    } else {
        assert(names_in_order(names) =~= names);
    }
}

/// Things in the order of their names. Those of one name stay as they stood.
pub fn sort_by_name<T: Named>(things: Vec<T>) -> (r: Vec<T>)
    ensures
        r@ == in_name_order(things@),
    decreases things.len(),
{
    let mut rest = things;
    match rest.pop() {
        Some(last) => {
            assert(rest@ =~= things@.drop_last());
            let mut r = sort_by_name(rest);
            let ghost before = names_of(r@);
            let mut at: usize = r.len();
            assert(before.take(before.len() as int) =~= before);
            while at > 0 && rank_text(r[at - 1].name_of(), last.name_of()) == Rank::After
                invariant
                    at <= r@.len(),
                    names_of(r@) == before,
                    place_for(before, last.called()) == place_for(
                        before.take(at as int),
                        last.called(),
                    ),
                decreases at,
            {
                assert(before.take(at as int).drop_last() =~= before.take(at - 1));
                assert(before.take(at as int).last() == before[at - 1]);
                at -= 1;
            }
            proof {
                if at > 0 {
                    assert(before.take(at as int).last() == before[at - 1]);
                }
                assert(place_for(before.take(at as int), last.called()) == at);
            }
            r.insert(at, last);
            r
        },
        None => {
            let r: Vec<T> = Vec::new();
            assert(r@ =~= in_name_order(things@));
            r
        },
    }
}

} // verus!
