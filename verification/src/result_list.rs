//! What holds of result lists: that they are in order, that pages are pieces of them, that
//! nothing removed stands in them and that nothing added is missing.

use crate::changes::DeltaModel;
use crate::keys;
use crate::merged_rows;
use crate::rows;
use crate::rows::RowModel;
use crate::scene;
use crate::scene::Scene;
use crate::search::{FileEntry, SearchOptions, SearchResult, SortBy, SortDirection};
use crate::search_cache::SearchCache;
use crate::searching::FIRST_PAGE;
use crate::seqs;
use crate::sort_cache;
use crate::text::Rank;
use crate::volume_manager::VolumeManager;
use vstd::prelude::*;
use vstd::seq_lib::*;

verus! {

/// Whether no row comes after a later one.
#[verifier::opaque]
pub open spec fn ascends(sort_by: SortBy, s: Seq<RowModel>) -> bool {
    forall|i: int, j: int|
        0 <= i < j < s.len() ==> rows::row_rank(sort_by, #[trigger] s[i], #[trigger] s[j])
            != Rank::After
}

/// Whether no row comes before an earlier one.
#[verifier::opaque]
pub open spec fn descends(sort_by: SortBy, s: Seq<RowModel>) -> bool {
    forall|i: int, j: int|
        0 <= i < j < s.len() ==> rows::row_rank(sort_by, #[trigger] s[i], #[trigger] s[j])
            != Rank::Before
}

/// Whether a list is in the order that is asked for.
pub open spec fn is_in_order(sort_by: SortBy, direction: SortDirection, s: Seq<RowModel>) -> bool {
    match direction {
        SortDirection::Ascending => ascends(sort_by, s),
        SortDirection::Descending => descends(sort_by, s),
    }
}

/// Sorting rows brings them into order, and the rows are those that were sorted.
pub proof fn rows_sorted_ascends(list: Seq<RowModel>, sort_by: SortBy)
    requires
        list.len() <= usize::MAX,
    ensures
        ascends(sort_by, rows::rows_sorted(list, sort_by)),
        rows::rows_sorted(list, sort_by).len() == list.len(),
        forall|r: RowModel| #[trigger]
            rows::rows_sorted(list, sort_by).contains(r) <==> list.contains(r),
{
    reveal(ascends);
    broadcast use group_to_multiset_ensures;

    let table = list.map_values(|r: RowModel| Some(r));
    let places = Seq::new(list.len(), |i: int| i as usize);
    let leq = |i: usize, j: usize| rows::place_leq(table, sort_by, i as int, j as int);
    let sorted = rows::wide_places_sorted(table, sort_by, places);
    rows::place_order_total(table, sort_by);
    places.lemma_sort_by_ensures(leq);
    assert(sorted == places.sort_by(leq));
    assert(sorted.len() == sorted.to_multiset().len());
    assert(places.len() == places.to_multiset().len());
    let r = rows::rows_sorted(list, sort_by);
    assert(r =~= sorted.map_values(|i: usize| list[i as int]));
    assert forall|k: int| 0 <= k < sorted.len() implies (#[trigger] sorted[k]) < list.len() by {
        assert(sorted.contains(sorted[k]));
        assert(sorted.to_multiset().contains(sorted[k]));
        assert(places.to_multiset().contains(sorted[k]));
        assert(places.contains(sorted[k]));
    }
    assert forall|i: int, j: int| 0 <= i < j < r.len() implies rows::row_rank(
        sort_by,
        #[trigger] r[i],
        #[trigger] r[j],
    ) != Rank::After by {
        assert(leq(sorted[i], sorted[j]));
        assert(rows::row_in(table, sorted[i] as int) == list[sorted[i] as int]);
        assert(rows::row_in(table, sorted[j] as int) == list[sorted[j] as int]);
    }
    assert forall|x: RowModel| #[trigger] r.contains(x) <==> list.contains(x) by {
        if r.contains(x) {
            let k = choose|k: int| 0 <= k < r.len() && r[k] == x;
            assert(list[sorted[k] as int] == x);
        }
        if list.contains(x) {
            let k = choose|k: int| 0 <= k < list.len() && list[k] == x;
            assert(places[k] == k as usize);
            assert(places.contains(k as usize));
            assert(places.to_multiset().contains(k as usize));
            assert(sorted.to_multiset().contains(k as usize));
            assert(sorted.contains(k as usize));
            let n = choose|n: int| 0 <= n < sorted.len() && sorted[n] == k as usize;
            assert(r[n] == x);
        }
    }
}

/// The rest of a list in order is in order, and its head comes no later than the rest.
proof fn rest_ascends(sort_by: SortBy, s: Seq<RowModel>)
    requires
        s.len() > 0,
        ascends(sort_by, s),
    ensures
        ascends(sort_by, s.drop_first()),
        forall|r: RowModel| #[trigger]
            s.drop_first().contains(r) ==> rows::row_rank(sort_by, s[0], r) != Rank::After,
{
    reveal(ascends);
    let t = s.drop_first();
    assert forall|i: int, j: int| 0 <= i < j < t.len() implies rows::row_rank(
        sort_by,
        #[trigger] t[i],
        #[trigger] t[j],
    ) != Rank::After by {
        assert(t[i] == s[i + 1] && t[j] == s[j + 1]);
    }
    assert forall|r: RowModel| #[trigger] t.contains(r) implies rows::row_rank(sort_by, s[0], r)
        != Rank::After by {
        let k = choose|k: int| 0 <= k < t.len() && t[k] == r;
        assert(s[k + 1] == r);
    }
}

/// A list whose head comes no later than the rest, which is in order, is in order.
proof fn with_head_ascends(sort_by: SortBy, head: RowModel, tail: Seq<RowModel>)
    requires
        ascends(sort_by, tail),
        forall|r: RowModel| #[trigger]
            tail.contains(r) ==> rows::row_rank(sort_by, head, r) != Rank::After,
    ensures
        ascends(sort_by, seq![head] + tail),
{
    reveal(ascends);
    let m = seq![head] + tail;
    assert forall|i: int, j: int| 0 <= i < j < m.len() implies rows::row_rank(
        sort_by,
        #[trigger] m[i],
        #[trigger] m[j],
    ) != Rank::After by {
        assert(m[j] == tail[j - 1]);
        assert(tail.contains(tail[j - 1]));
        if i > 0 {
            assert(m[i] == tail[i - 1]);
        }
    }
}

/// A row that comes no later than the head of a list in order comes no later than anything
/// in it.
proof fn before_head(sort_by: SortBy, a: RowModel, s: Seq<RowModel>, r: RowModel)
    requires
        s.len() > 0,
        ascends(sort_by, s),
        rows::row_rank(sort_by, a, s[0]) != Rank::After,
        s.contains(r),
    ensures
        rows::row_rank(sort_by, a, r) != Rank::After,
{
    reveal(ascends);
    let k = choose|k: int| 0 <= k < s.len() && s[k] == r;
    if k > 0 {
        rows::row_rank_transitive(sort_by, a, s[0], s[k]);
    }
}

/// Merging two lists in order gives one in order.
pub proof fn merged_up_ascends(sort_by: SortBy, base: Seq<RowModel>, delta: Seq<RowModel>)
    requires
        ascends(sort_by, base),
        ascends(sort_by, delta),
    ensures
        ascends(sort_by, rows::merged_up(sort_by, base, delta)),
        forall|r: RowModel| #[trigger]
            rows::merged_up(sort_by, base, delta).contains(r) <==> base.contains(r)
                || delta.contains(r),
    decreases base.len() + delta.len(),
{
    if base.len() > 0 && delta.len() > 0 {
        rows::row_rank_flip(sort_by, base[0], delta[0]);
        if rows::row_rank(sort_by, base[0], delta[0]) != Rank::After {
            let (head, rest) = (base[0], base.drop_first());
            rest_ascends(sort_by, base);
            merged_up_ascends(sort_by, rest, delta);
            let tail = rows::merged_up(sort_by, rest, delta);
            assert forall|r: RowModel| #[trigger] tail.contains(r) implies rows::row_rank(
                sort_by,
                head,
                r,
            ) != Rank::After by {
                if !rest.contains(r) {
                    before_head(sort_by, head, delta, r);
                }
            }
            with_head_ascends(sort_by, head, tail);
            assert forall|r: RowModel| #[trigger] (seq![head] + tail).contains(r) <==> base.contains(
                r,
            ) || delta.contains(r) by {
                contains_split(head, tail, seq![head] + tail, r);
                contains_split(head, rest, base, r);
            }
        } else {
            let (head, rest) = (delta[0], delta.drop_first());
            rest_ascends(sort_by, delta);
            merged_up_ascends(sort_by, base, rest);
            let tail = rows::merged_up(sort_by, base, rest);
            assert forall|r: RowModel| #[trigger] tail.contains(r) implies rows::row_rank(
                sort_by,
                head,
                r,
            ) != Rank::After by {
                if !rest.contains(r) {
                    before_head(sort_by, head, base, r);
                }
            }
            with_head_ascends(sort_by, head, tail);
            assert forall|r: RowModel| #[trigger] (seq![head] + tail).contains(r) <==> base.contains(
                r,
            ) || delta.contains(r) by {
                contains_split(head, tail, seq![head] + tail, r);
                contains_split(head, rest, delta, r);
            }
        }
    }
}

/// What a list with a head holds.
proof fn contains_split(head: RowModel, tail: Seq<RowModel>, s: Seq<RowModel>, r: RowModel)
    requires
        s =~= seq![head] + tail,
    ensures
        s.contains(r) <==> r == head || tail.contains(r),
{
    if s.contains(r) {
        let k = choose|k: int| 0 <= k < s.len() && s[k] == r;
        if k > 0 {
            assert(tail[k - 1] == r);
        }
    }
    if tail.contains(r) {
        let k = choose|k: int| 0 <= k < tail.len() && tail[k] == r;
        assert(s[k + 1] == r);
    }
    assert(s[0] == head);
}

/// What a list with a last row holds.
proof fn contains_last(init: Seq<RowModel>, last: RowModel, r: RowModel)
    ensures
        init.push(last).contains(r) <==> r == last || init.contains(r),
{
    let s = init.push(last);
    if s.contains(r) {
        let k = choose|k: int| 0 <= k < s.len() && s[k] == r;
        if k < init.len() {
            assert(init[k] == r);
        }
    }
    if init.contains(r) {
        let k = choose|k: int| 0 <= k < init.len() && init[k] == r;
        assert(s[k] == r);
    }
    assert(s[init.len() as int] == last);
}

/// A list turned round holds the same.
proof fn reversed(sort_by: SortBy, s: Seq<RowModel>)
    requires
        ascends(sort_by, s),
    ensures
        descends(sort_by, s.reverse()),
        forall|r: RowModel| #[trigger] s.reverse().contains(r) <==> s.contains(r),
{
    reveal(ascends);
    reveal(descends);
    let t = s.reverse();
    assert forall|i: int, j: int| 0 <= i < j < t.len() implies rows::row_rank(
        sort_by,
        #[trigger] t[i],
        #[trigger] t[j],
    ) != Rank::Before by {
        let (a, b) = (s.len() - 1 - i, s.len() - 1 - j);
        assert(t[i] == s[a] && t[j] == s[b]);
        rows::row_rank_flip(sort_by, s[b], s[a]);
    }
    assert forall|r: RowModel| #[trigger] t.contains(r) <==> s.contains(r) by {
        if t.contains(r) {
            let k = choose|k: int| 0 <= k < t.len() && t[k] == r;
            assert(s[s.len() - 1 - k] == r);
        }
        if s.contains(r) {
            let k = choose|k: int| 0 <= k < s.len() && s[k] == r;
            assert(t[s.len() - 1 - k] == r);
        }
    }
}

/// A list in order without its last row is in order, and the last row comes no earlier
/// than the rest.
proof fn init_ascends(sort_by: SortBy, s: Seq<RowModel>)
    requires
        s.len() > 0,
        ascends(sort_by, s),
    ensures
        ascends(sort_by, s.drop_last()),
        forall|r: RowModel| #[trigger]
            s.drop_last().contains(r) ==> rows::row_rank(sort_by, r, s.last()) != Rank::After,
{
    reveal(ascends);
    let t = s.drop_last();
    assert forall|i: int, j: int| 0 <= i < j < t.len() implies rows::row_rank(
        sort_by,
        #[trigger] t[i],
        #[trigger] t[j],
    ) != Rank::After by {
        assert(t[i] == s[i] && t[j] == s[j]);
    }
    assert forall|r: RowModel| #[trigger] t.contains(r) implies rows::row_rank(
        sort_by,
        r,
        s.last(),
    ) != Rank::After by {
        let k = choose|k: int| 0 <= k < t.len() && t[k] == r;
        assert(s[k] == r);
        assert(rows::row_rank(sort_by, s[k], s[s.len() - 1]) != Rank::After);
    }
}

/// A list whose head comes no earlier than the rest, which descends, descends.
proof fn with_head_descends(sort_by: SortBy, head: RowModel, tail: Seq<RowModel>)
    requires
        descends(sort_by, tail),
        forall|r: RowModel| #[trigger]
            tail.contains(r) ==> rows::row_rank(sort_by, r, head) != Rank::After,
    ensures
        descends(sort_by, seq![head] + tail),
{
    reveal(descends);
    let m = seq![head] + tail;
    assert forall|i: int, j: int| 0 <= i < j < m.len() implies rows::row_rank(
        sort_by,
        #[trigger] m[i],
        #[trigger] m[j],
    ) != Rank::Before by {
        assert(m[j] == tail[j - 1]);
        assert(tail.contains(tail[j - 1]));
        if i > 0 {
            assert(m[i] == tail[i - 1]);
        } else {
            rows::row_rank_flip(sort_by, tail[j - 1], head);
        }
    }
}

/// What stands in a list in order comes no later than what its last row comes no later
/// than.
proof fn behind_last(sort_by: SortBy, s: Seq<RowModel>, a: RowModel, r: RowModel)
    requires
        s.len() > 0,
        ascends(sort_by, s),
        rows::row_rank(sort_by, s.last(), a) != Rank::After,
        s.contains(r),
    ensures
        rows::row_rank(sort_by, r, a) != Rank::After,
{
    reveal(ascends);
    let k = choose|k: int| 0 <= k < s.len() && s[k] == r;
    if k < s.len() - 1 {
        assert(rows::row_rank(sort_by, s[k], s[s.len() - 1]) != Rank::After);
        rows::row_rank_transitive(sort_by, s[k], s.last(), a);
    }
}

/// Merging two lists in order downward gives one in descending order.
pub proof fn merged_down_descends(sort_by: SortBy, base: Seq<RowModel>, delta: Seq<RowModel>)
    requires
        ascends(sort_by, base),
        ascends(sort_by, delta),
    ensures
        descends(sort_by, rows::merged_down(sort_by, base, delta)),
        forall|r: RowModel| #[trigger]
            rows::merged_down(sort_by, base, delta).contains(r) <==> base.contains(r)
                || delta.contains(r),
    decreases base.len() + delta.len(),
{
    if base.len() == 0 {
        reversed(sort_by, delta);
    } else if delta.len() == 0 {
        reversed(sort_by, base);
    } else {
        rows::row_rank_flip(sort_by, base.last(), delta.last());
        if rows::row_rank(sort_by, base.last(), delta.last()) != Rank::Before {
            let (head, rest) = (base.last(), base.drop_last());
            init_ascends(sort_by, base);
            merged_down_descends(sort_by, rest, delta);
            let tail = rows::merged_down(sort_by, rest, delta);
            assert forall|r: RowModel| #[trigger] tail.contains(r) implies rows::row_rank(
                sort_by,
                r,
                head,
            ) != Rank::After by {
                if !rest.contains(r) {
                    behind_last(sort_by, delta, head, r);
                }
            }
            with_head_descends(sort_by, head, tail);
            assert forall|r: RowModel| #[trigger] (seq![head] + tail).contains(r) <==> base.contains(
                r,
            ) || delta.contains(r) by {
                contains_split(head, tail, seq![head] + tail, r);
                contains_last(rest, head, r);
                assert(rest.push(head) =~= base);
            }
        } else {
            let (head, rest) = (delta.last(), delta.drop_last());
            init_ascends(sort_by, delta);
            merged_down_descends(sort_by, base, rest);
            let tail = rows::merged_down(sort_by, base, rest);
            assert forall|r: RowModel| #[trigger] tail.contains(r) implies rows::row_rank(
                sort_by,
                r,
                head,
            ) != Rank::After by {
                if !rest.contains(r) {
                    behind_last(sort_by, base, head, r);
                }
            }
            with_head_descends(sort_by, head, tail);
            assert forall|r: RowModel| #[trigger] (seq![head] + tail).contains(r) <==> base.contains(
                r,
            ) || delta.contains(r) by {
                contains_split(head, tail, seq![head] + tail, r);
                contains_last(rest, head, r);
                assert(rest.push(head) =~= delta);
            }
        }
    }
}

/// What is left of a list in order is in order.
proof fn picked_ascends(
    places: Seq<u32>,
    pick: spec_fn(u32) -> Option<RowModel>,
    table: Seq<Option<RowModel>>,
    sort_by: SortBy,
)
    requires
        forall|i: int, j: int|
            0 <= i < j < places.len() ==> rows::place_leq(
                table,
                sort_by,
                #[trigger] places[i] as int,
                #[trigger] places[j] as int,
            ),
        forall|k: int|
            0 <= k < places.len() ==> (pick(#[trigger] places[k]) matches Some(r) ==> r
                == rows::row_in(table, places[k] as int)),
    ensures
        ascends(sort_by, places.filter_map(pick)),
        forall|r: RowModel| #[trigger]
            places.filter_map(pick).contains(r) ==> exists|k: int|
                0 <= k < places.len() && pick(#[trigger] places[k]) == Some(r),
    decreases places.len(),
{
    reveal(ascends);
    reveal(Seq::filter_map);
    if places.len() > 0 {
        let init = places.drop_last();
        let n = places.len() - 1;
        assert(forall|i: int| 0 <= i < n ==> #[trigger] init[i] == places[i]);
        picked_ascends(init, pick, table, sort_by);
        let before = init.filter_map(pick);
        let all = places.filter_map(pick);
        assert forall|i: int, j: int| 0 <= i < j < all.len() implies rows::row_rank(
            sort_by,
            #[trigger] all[i],
            #[trigger] all[j],
        ) != Rank::After by {
            assert(all[i] == before[i]);
            assert(before.contains(before[i]));
            let k = choose|k: int| 0 <= k < init.len() && pick(#[trigger] init[k]) == Some(before[i]);
            assert(places[k] == init[k]);
            if j < before.len() {
                assert(all[j] == before[j]);
            } else {
                assert(rows::place_leq(table, sort_by, places[k] as int, places[n] as int));
            }
        }
        assert forall|r: RowModel| #[trigger] all.contains(r) implies exists|k: int|
            0 <= k < places.len() && pick(#[trigger] places[k]) == Some(r) by {
            let i = choose|i: int| 0 <= i < all.len() && all[i] == r;
            if i < before.len() {
                assert(before[i] == r);
                assert(before.contains(r));
                let k = choose|k: int| 0 <= k < init.len() && pick(#[trigger] init[k]) == Some(r);
                assert(places[k] == init[k]);
            } else {
                assert(pick(places[n]) == Some(r));
            }
        }
    }
}

/// The matched files that are shown stand in order where they are taken in the order of
/// what is there now, and each of them is a matched file that is not hidden.
pub proof fn base_ascends(s: Scene, sort_by: SortBy)
    requires
        s.matched.len() <= u32::MAX,
    ensures
        ascends(sort_by, s.active_rows(s.base_order(sort_by))),
        forall|r: RowModel| #[trigger]
            s.active_rows(s.base_order(sort_by)).contains(r) ==> exists|k: u32|
                #[trigger] s.active_row(k) == Some(r),
{
    let order = s.base_order(sort_by);
    let table = s.base_rows();
    rows::places_sorted_sorts(table, sort_by, s.base_places());
    let pick = |i: u32| s.active_row(i);
    assert forall|k: int| 0 <= k < order.len() implies (pick(#[trigger] order[k]) matches Some(r)
        ==> r == rows::row_in(table, order[k] as int)) by {
        if pick(order[k]) is Some {
            assert(table[order[k] as int] == s.base_row(order[k] as int));
        }
    }
    picked_ascends(order, pick, table, sort_by);
    assert forall|r: RowModel| #[trigger] s.active_rows(order).contains(r) implies exists|k: u32|
        #[trigger] s.active_row(k) == Some(r) by {
        let k = choose|k: int| 0 <= k < order.len() && pick(#[trigger] order[k]) == Some(r);
        assert(s.active_row(order[k]) == Some(r));
    }
}

/// The order of what is there now has every place at which there is a file.
proof fn order_has_places(s: Scene, sort_by: SortBy, k: u32)
    requires
        s.matched.len() <= u32::MAX,
        k < s.matched.len(),
        s.base_row(k as int) is Some,
    ensures
        s.base_order(sort_by).contains(k),
{
    broadcast use group_to_multiset_ensures;

    let table = s.base_rows();
    let places = scene::places(table.len());
    let has = |i: u32| table[i as int] is Some;
    rows::places_sorted_sorts(table, sort_by, s.base_places());
    assert(places[k as int] == k);
    assert(places.contains(k));
    places.lemma_filter_contains(has, k as int);
    assert(s.base_places() == places.filter(has));
    assert(s.base_places().contains(k));
    assert(s.base_places().to_multiset().contains(k));
    assert(s.base_order(sort_by).to_multiset().contains(k));
}

/// No matched file that is not hidden is missing.
pub proof fn matched_is_shown(
    s: Scene,
    sort_by: SortBy,
    direction: SortDirection,
    k: u32,
)
    requires
        s.matched.len() <= u32::MAX,
        s.delta_rows().len() <= usize::MAX,
        s.active_row(k) is Some,
    ensures
        s.shown(s.base_order(sort_by), sort_by, direction).contains(s.active_row(k)->0),
{
    let order = s.base_order(sort_by);
    order_has_places(s, sort_by, k);
    let n = choose|n: int| 0 <= n < order.len() && order[n] == k;
    seqs::filter_map_has(order, |i: u32| s.active_row(i), n);
    shown_holds(s, sort_by, direction, s.active_row(k)->0);
}

/// The result list is in the order that is asked for, whichever direction it has, where
/// the matched files are taken in the order of what is there now.
pub proof fn shown_is_in_order(s: Scene, sort_by: SortBy, direction: SortDirection)
    requires
        s.matched.len() <= u32::MAX,
        s.delta_rows().len() <= usize::MAX,
    ensures
        is_in_order(sort_by, direction, s.shown(s.base_order(sort_by), sort_by, direction)),
{
    base_ascends(s, sort_by);
    rows_sorted_ascends(s.delta_rows(), sort_by);
    let base = s.active_rows(s.base_order(sort_by));
    match direction {
        SortDirection::Ascending => merged_up_ascends(sort_by, base, s.delta_sorted(sort_by)),
        SortDirection::Descending => merged_down_descends(sort_by, base, s.delta_sorted(sort_by)),
    }
}

/// Both directions show the same rows: the matched files that are not hidden, and the
/// files that were added or changed.
pub proof fn shown_holds(s: Scene, sort_by: SortBy, direction: SortDirection, r: RowModel)
    requires
        s.matched.len() <= u32::MAX,
        s.delta_rows().len() <= usize::MAX,
    ensures
        s.shown(s.base_order(sort_by), sort_by, direction).contains(r) <==> s.active_rows(
            s.base_order(sort_by),
        ).contains(r) || s.delta_rows().contains(r),
{
    base_ascends(s, sort_by);
    rows_sorted_ascends(s.delta_rows(), sort_by);
    let base = s.active_rows(s.base_order(sort_by));
    match direction {
        SortDirection::Ascending => merged_up_ascends(sort_by, base, s.delta_sorted(sort_by)),
        SortDirection::Descending => merged_down_descends(sort_by, base, s.delta_sorted(sort_by)),
    }
}

/// How many elements are picked does not depend on their order.
proof fn picked_count(s: Seq<u32>, t: Seq<u32>, pick: spec_fn(u32) -> Option<RowModel>)
    requires
        s.to_multiset() == t.to_multiset(),
    ensures
        s.filter_map(pick).len() == t.filter_map(pick).len(),
    decreases s.len(),
{
    broadcast use group_to_multiset_ensures;

    reveal(Seq::filter_map);
    assert(s.len() == s.to_multiset().len());
    assert(t.len() == t.to_multiset().len());
    if s.len() > 0 {
        let x = s.last();
        let n = s.len() - 1;
        assert(s.contains(x));
        assert(s.to_multiset().contains(x));
        assert(t.to_multiset().contains(x));
        assert(t.contains(x));
        let i = choose|i: int| 0 <= i < t.len() && t[i] == x;
        assert(s.remove(n) =~= s.drop_last());
        assert(s.drop_last().to_multiset() =~= s.to_multiset().remove(x));
        assert(t.remove(i).to_multiset() =~= t.to_multiset().remove(x));
        picked_count(s.drop_last(), t.remove(i), pick);
        picked_without(t, i, pick);
    }
}

/// Leaving an element out leaves out what is picked for it.
proof fn picked_without(t: Seq<u32>, i: int, pick: spec_fn(u32) -> Option<RowModel>)
    requires
        0 <= i < t.len(),
    ensures
        t.filter_map(pick).len() == t.remove(i).filter_map(pick).len() + (if pick(t[i]) is Some {
            1int
        } else {
            0
        }),
    decreases t.len(),
{
    reveal(Seq::filter_map);
    let n = t.len() - 1;
    if i == n {
        assert(t.remove(i) =~= t.drop_last());
    } else {
        picked_without(t.drop_last(), i, pick);
        assert(t.remove(i).drop_last() =~= t.drop_last().remove(i));
        assert(t.remove(i).last() == t.last());
        assert(t.drop_last()[i] == t[i]);
    }
}

/// Places that nothing is picked for do not count.
proof fn picked_of_kept(
    s: Seq<u32>,
    keep: spec_fn(u32) -> bool,
    pick: spec_fn(u32) -> Option<RowModel>,
)
    requires
        forall|i: int| 0 <= i < s.len() ==> keep(#[trigger] s[i]) || pick(s[i]) is None,
    ensures
        s.filter(keep).filter_map(pick) == s.filter_map(pick),
    decreases s.len(),
{
    reveal(Seq::filter);
    reveal(Seq::filter_map);
    if s.len() > 0 {
        let init = s.drop_last();
        assert(forall|i: int| 0 <= i < init.len() ==> #[trigger] init[i] == s[i]);
        picked_of_kept(init, keep, pick);
        assert(s[s.len() - 1] == s.last());
        if keep(s.last()) {
            let kept = s.filter(keep);
            assert(kept =~= init.filter(keep).push(s.last()));
            assert(kept.drop_last() =~= init.filter(keep));
        }
    } else {
        assert(s.filter(keep) =~= s);
    }
}

/// Where something is picked for every element, as many are picked as there are.
proof fn all_picked(s: Seq<u32>, pick: spec_fn(u32) -> Option<RowModel>)
    requires
        forall|i: int| 0 <= i < s.len() ==> pick(#[trigger] s[i]) is Some,
    ensures
        s.filter_map(pick).len() == s.len(),
    decreases s.len(),
{
    reveal(Seq::filter_map);
    if s.len() > 0 {
        let init = s.drop_last();
        assert(forall|i: int| 0 <= i < init.len() ==> #[trigger] init[i] == s[i]);
        all_picked(init, pick);
        assert(pick(s[s.len() - 1]) is Some);
    }
}

/// The result list has as many rows as matched files are shown and changed ones are,
/// whatever it is sorted by and in whichever direction.
pub proof fn shown_len(s: Scene, sort_by: SortBy, direction: SortDirection)
    requires
        s.matched.len() <= u32::MAX,
        s.delta_rows().len() <= usize::MAX,
    ensures
        s.shown(s.base_order(sort_by), sort_by, direction).len() == s.active_count()
            + s.delta_rows().len(),
{
    let table = s.base_rows();
    let places = scene::places(s.matched.len());
    let has = |i: u32| table[i as int] is Some;
    let pick = |i: u32| s.active_row(i);
    let order = s.base_order(sort_by);
    rows::places_sorted_sorts(table, sort_by, s.base_places());
    assert forall|i: int| 0 <= i < places.len() implies has(#[trigger] places[i]) || pick(
        places[i],
    ) is None by {
        assert(table[i] == s.base_row(i));
    }
    assert(s.base_places() == places.filter(has));
    picked_of_kept(places, has, pick);
    picked_count(order, s.base_places(), pick);
    assert(s.active_rows(order).len() == s.active_count());
    rows_sorted_ascends(s.delta_rows(), sort_by);
    rows::merged_len(sort_by, direction, s.active_rows(order), s.delta_sorted(sort_by));
}

/// The result list has the same number of rows for every key and in both directions.
pub proof fn totals_agree(
    s: Scene,
    a: SortBy,
    a_direction: SortDirection,
    b: SortBy,
    b_direction: SortDirection,
)
    requires
        s.matched.len() <= u32::MAX,
        s.delta_rows().len() <= usize::MAX,
    ensures
        s.shown(s.base_order(a), a, a_direction).len() == s.shown(
            s.base_order(b),
            b,
            b_direction,
        ).len(),
{
    shown_len(s, a, a_direction);
    shown_len(s, b, b_direction);
}

/// Whether no row of one list ties with one of the other.
spec fn never_tie(sort_by: SortBy, base: Seq<RowModel>, delta: Seq<RowModel>) -> bool {
    forall|a: RowModel, b: RowModel|
        base.contains(a) && delta.contains(b) ==> #[trigger] rows::row_rank(sort_by, a, b)
            != Rank::Same
}

/// The last row of two lists that are merged is the last of one of them.
proof fn merged_up_ends(sort_by: SortBy, base: Seq<RowModel>, delta: Seq<RowModel>)
    requires
        ascends(sort_by, base),
        ascends(sort_by, delta),
        base.len() > 0,
        delta.len() > 0,
    ensures
        rows::merged_up(sort_by, base, delta) == (if rows::row_rank(
            sort_by,
            base.last(),
            delta.last(),
        ) == Rank::After {
            rows::merged_up(sort_by, base.drop_last(), delta).push(base.last())
        } else {
            rows::merged_up(sort_by, base, delta.drop_last()).push(delta.last())
        }),
    decreases base.len() + delta.len(),
{
    let whole = rows::merged_up(sort_by, base, delta);
    let (x, y) = (base.last(), delta.last());
    let takes_base = rows::row_rank(sort_by, x, y) == Rank::After;
    let shorter = if takes_base {
        rows::merged_up(sort_by, base.drop_last(), delta)
    } else {
        rows::merged_up(sort_by, base, delta.drop_last())
    };
    let last = if takes_base {
        x
    } else {
        y
    };
    rest_ascends(sort_by, base);
    rest_ascends(sort_by, delta);
    if rows::row_rank(sort_by, base[0], delta[0]) != Rank::After {
        let rest = base.drop_first();
        if rest.len() == 0 {
            if delta.len() > 1 {
                assert(delta.drop_first().contains(y)) by {
                    assert(delta.drop_first()[delta.len() - 2] == y);
                }
                rows::row_rank_transitive(sort_by, base[0], delta[0], y);
            }
            assert(!takes_base);
            assert(base =~= seq![base[0]]);
            let init = delta.drop_last();
            assert(delta =~= init.push(y));
            assert(rows::merged_up(sort_by, rest, delta) == delta);
            if init.len() > 0 {
                assert(init[0] == delta[0]);
                assert(rows::merged_up(sort_by, rest, init) == init);
            }
            assert(whole =~= shorter.push(last));
        } else {
            merged_up_ends(sort_by, rest, delta);
            assert(rest.last() == x);
            assert(rest.drop_last() =~= base.drop_last().drop_first());
            assert(base.drop_last()[0] == base[0]);
            if delta.drop_last().len() > 0 {
                assert(delta.drop_last()[0] == delta[0]);
            } else {
                assert(base =~= seq![base[0]] + rest);
            }
            if rest.drop_last().len() == 0 {
                assert(base.drop_last() =~= seq![base[0]]);
            }
            assert(whole =~= shorter.push(last));
        }
    } else {
        let rest = delta.drop_first();
        if rest.len() == 0 {
            if base.len() > 1 {
                assert(base.drop_first().contains(x)) by {
                    assert(base.drop_first()[base.len() - 2] == x);
                }
                if !takes_base {
                    rows::row_rank_transitive(sort_by, base[0], x, y);
                }
            }
            assert(takes_base);
            assert(delta =~= seq![delta[0]]);
            let init = base.drop_last();
            assert(base =~= init.push(x));
            assert(rows::merged_up(sort_by, base, rest) == base);
            if init.len() > 0 {
                assert(init[0] == base[0]);
                assert(rows::merged_up(sort_by, init, rest) == init);
            }
            assert(whole =~= shorter.push(last));
        } else {
            merged_up_ends(sort_by, base, rest);
            assert(rest.last() == y);
            assert(rest.drop_last() =~= delta.drop_last().drop_first());
            assert(delta.drop_last()[0] == delta[0]);
            if base.drop_last().len() > 0 {
                assert(base.drop_last()[0] == base[0]);
            } else {
                assert(delta =~= seq![delta[0]] + rest);
            }
            if rest.drop_last().len() == 0 {
                assert(delta.drop_last() =~= seq![delta[0]]);
            }
            assert(whole =~= shorter.push(last));
        }
    }
}

/// Lists without ties are merged downward into what merging them upward gives, turned round.
proof fn merged_down_reverses(sort_by: SortBy, base: Seq<RowModel>, delta: Seq<RowModel>)
    requires
        ascends(sort_by, base),
        ascends(sort_by, delta),
        never_tie(sort_by, base, delta),
    ensures
        rows::merged_down(sort_by, base, delta) == rows::merged_up(
            sort_by,
            base,
            delta,
        ).reverse(),
    decreases base.len() + delta.len(),
{
    if base.len() == 0 {
    } else if delta.len() == 0 {
    } else {
        merged_up_ends(sort_by, base, delta);
        init_ascends(sort_by, base);
        init_ascends(sort_by, delta);
        let (x, y) = (base.last(), delta.last());
        assert(base.contains(x) && delta.contains(y));
        assert(rows::row_rank(sort_by, x, y) != Rank::Same);
        if rows::row_rank(sort_by, x, y) == Rank::After {
            let rest = base.drop_last();
            assert forall|a: RowModel, b: RowModel|
                rest.contains(a) && delta.contains(b) implies #[trigger] rows::row_rank(
                sort_by,
                a,
                b,
            ) != Rank::Same by {
                let i = choose|i: int| 0 <= i < rest.len() && rest[i] == a;
                assert(base[i] == a);
            }
            merged_down_reverses(sort_by, rest, delta);
            let up = rows::merged_up(sort_by, rest, delta);
            assert(up.push(x).reverse() =~= seq![x] + up.reverse());
        } else {
            let rest = delta.drop_last();
            assert forall|a: RowModel, b: RowModel|
                base.contains(a) && rest.contains(b) implies #[trigger] rows::row_rank(
                sort_by,
                a,
                b,
            ) != Rank::Same by {
                let i = choose|i: int| 0 <= i < rest.len() && rest[i] == b;
                assert(delta[i] == b);
            }
            merged_down_reverses(sort_by, base, rest);
            let up = rows::merged_up(sort_by, base, rest);
            assert(up.push(y).reverse() =~= seq![y] + up.reverse());
        }
    }
}

/// The descending result list is the ascending one turned round, where no matched file that
/// is shown has the id of an added or changed one.
pub proof fn descending_is_reverse(s: Scene, sort_by: SortBy)
    requires
        s.matched.len() <= u32::MAX,
        s.delta_rows().len() <= usize::MAX,
        forall|k: u32, b: RowModel|
            #![trigger s.active_row(k), s.delta_rows().contains(b)]
            s.active_row(k) is Some && s.delta_rows().contains(b)
                ==> s.active_row(k)->0.file.file_id != b.file.file_id,
    ensures
        s.shown(s.base_order(sort_by), sort_by, SortDirection::Descending) == s.shown(
            s.base_order(sort_by),
            sort_by,
            SortDirection::Ascending,
        ).reverse(),
{
    let base = s.active_rows(s.base_order(sort_by));
    let delta = s.delta_sorted(sort_by);
    base_ascends(s, sort_by);
    rows_sorted_ascends(s.delta_rows(), sort_by);
    assert forall|a: RowModel, b: RowModel|
        base.contains(a) && delta.contains(b) implies #[trigger] rows::row_rank(sort_by, a, b)
        != Rank::Same by {
        let k = choose|k: u32| #[trigger] s.active_row(k) == Some(a);
        assert(s.delta_rows().contains(b));
        assert(s.active_row(k) is Some);
    }
    merged_down_reverses(sort_by, base, delta);
}

/// The number of results that is reported is that of the rows in the list, where the
/// count that is kept is right or not used.
pub proof fn total_is_exact(
    c: SearchCache,
    shelf: Seq<crate::volume_map::ShelfModel>,
    today: i32,
    sort_by: SortBy,
    direction: SortDirection,
)
    requires
        c.wf(),
        ({
            let s = c.scene(shelf, today);
            &&& c.active_base_count matches Some(n) ==> n == s.active_count() || (
            s.deleted.is_empty() && s.modified.is_empty())
            &&& s.active_count() + s.delta_rows().len() <= usize::MAX
        }),
    ensures
        ({
            let s = c.scene(shelf, today);
            c.claimed(shelf, today) == s.shown(s.base_order(sort_by), sort_by, direction).len()
        }),
{
    let s = c.scene(shelf, today);
    let table = s.base_rows();
    let places = scene::places(s.matched.len());
    let has = |i: u32| table[i as int] is Some;
    let pick = |i: u32| s.active_row(i);
    shown_len(s, sort_by, direction);
    assert forall|i: int| 0 <= i < places.len() implies has(#[trigger] places[i]) || pick(
        places[i],
    ) is None by {
        assert(table[i] == s.base_row(i));
    }
    assert(s.base_places() == places.filter(has));
    picked_of_kept(places, has, pick);
    if s.deleted.is_empty() && s.modified.is_empty() {
        let kept = s.base_places();
        assert forall|i: int| 0 <= i < kept.len() implies pick(#[trigger] kept[i]) is Some by {
            places.lemma_filter_pred(has, i);
            assert(kept.contains(kept[i]));
            places.lemma_filter_contains_rev(has, kept[i]);
            let k = choose|k: int| 0 <= k < places.len() && places[k] == kept[i];
            assert(table[k] == s.base_row(k));
            assert(!s.modified.dom().contains(s.base_key(k, s.base_row(k)->0.file.file_id)));
        }
        all_picked(kept, pick);
    }
}

/// A page is a piece of the result list, in either direction, and an empty one where it ends
/// before it begins. The number of rows that is reported with it is that of the list.
pub proof fn page_is_a_piece(
    shown: Seq<RowModel>,
    direction: SortDirection,
    start: int,
    end: int,
)
    requires
        0 <= start,
        0 <= end,
    ensures
        ({
            let n = shown.len() as int;
            let from = rows::least(start, n);
            &&& rows::page_rows(shown, n, direction, start, end) == shown.subrange(
                from,
                rows::most(from, rows::least(end, n)),
            )
            &&& rows::page_total(n, n, direction, start, end) == n
        }),
{
    let n = shown.len() as int;
    let from = rows::least(start, n);
    let to = rows::most(from, rows::least(end, n));
    if from == to {
        assert(shown.subrange(from, to) =~= seq![]);
    }
    assert(rows::page_rows(shown, n, direction, start, end) =~= shown.subrange(from, to));
}

/// Pages that follow each other make up the page that reaches over both.
pub proof fn pages_join(
    shown: Seq<RowModel>,
    direction: SortDirection,
    start: int,
    mid: int,
    end: int,
)
    requires
        0 <= start <= mid <= end,
    ensures
        rows::page_rows(shown, shown.len() as int, direction, start, mid) + rows::page_rows(
            shown,
            shown.len() as int,
            direction,
            mid,
            end,
        ) == rows::page_rows(shown, shown.len() as int, direction, start, end),
{
    page_is_a_piece(shown, direction, start, mid);
    page_is_a_piece(shown, direction, mid, end);
    page_is_a_piece(shown, direction, start, end);
    let n = shown.len() as int;
    assert(shown.subrange(rows::least(start, n), rows::least(mid, n)) + shown.subrange(
        rows::least(mid, n),
        rows::least(end, n),
    ) =~= shown.subrange(rows::least(start, n), rows::least(end, n)));
}

impl Scene {
    /// The same, where other changes were taken up.
    pub open spec fn with_delta(self, d: DeltaModel) -> Scene {
        Scene {
            new_files: d.new_files,
            deleted: d.deleted,
            renamed: d.renamed,
            modified: d.modified,
            ..self
        }
    }
}

impl Scene {
    /// Whether no other volume number than `v` stands for the name `name` where something is
    /// matched or changed.
    pub open spec fn numbers_once(self, v: u8, name: Seq<char>) -> bool {
        &&& forall|i: int|
            0 <= i < self.matched.len() ==> self.leads_to(
                sort_cache::volume_of(#[trigger] self.matched[i]),
                v,
                name,
            )
        &&& forall|i: int|
            0 <= i < self.new_files.len() ==> self.leads_to(
                (#[trigger] self.new_files[i]).0,
                v,
                name,
            )
        &&& forall|k: u64| #[trigger]
            self.modified.contains_key(k) ==> self.leads_to(keys::volume_in(k), v, name)
    }

    /// Whether the volume number `w` is `v` where it has the name `name`.
    pub open spec fn leads_to(self, w: u8, v: u8, name: Seq<char>) -> bool {
        w < self.shelf.len() && self.shelf[w as int].name == name ==> w == v
    }
}

/// A file of the volume `name`, which has the number `v`, that was removed, and not added
/// again, is not shown.
pub proof fn removed_is_not_shown(
    s: Scene,
    sort_by: SortBy,
    direction: SortDirection,
    v: u8,
    name: Seq<char>,
    fid: u32,
    r: RowModel,
)
    requires
        s.matched.len() <= u32::MAX,
        s.delta_rows().len() <= usize::MAX,
        s.deleted.contains(keys::key(v, fid)),
        !s.renamed.contains(keys::key(v, fid)),
        s.numbers_once(v, name),
        s.modified.dom().finite(),
        s.shown(s.base_order(sort_by), sort_by, direction).contains(r),
    ensures
        !(r.volume == name && r.file.file_id == fid),
{
    shown_holds(s, sort_by, direction, r);
    base_ascends(s, sort_by);
    if s.active_rows(s.base_order(sort_by)).contains(r) {
        let k = choose|k: u32| #[trigger] s.active_row(k) == Some(r);
        let w = sort_cache::volume_of(s.matched[k as int]);
        assert(s.shelf[w as int].name == r.volume);
        assert(!s.hides(s.base_key(k as int, r.file.file_id)));
    } else {
        merged_rows::delta_row_source(s, r);
        if exists|i: int|
            0 <= i < s.new_files.len() && s.new_row(#[trigger] s.new_files[i]) == Some(r) {
            let i = choose|i: int|
                0 <= i < s.new_files.len() && s.new_row(#[trigger] s.new_files[i]) == Some(r);
            assert(s.shelf[s.new_files[i].0 as int].name == r.volume);
        } else {
            let x = choose|x: u64| #[trigger]
                s.modified.contains_key(x) && s.modified_row(x) == Some(r);
            assert(s.shelf[keys::volume_in(x) as int].name == r.volume);
        }
    }
}

/// Without changes there are no rows for them.
pub proof fn no_delta_rows(s: Scene)
    requires
        s.new_files.len() == 0,
        s.modified == Map::<u64, FileEntry>::empty(),
    ensures
        s.delta_rows() == Seq::<RowModel>::empty(),
{
    reveal(Seq::filter_map);
    assert(Seq::<u64>::empty().to_set() =~= s.modified.dom());
    seqs::ascent_of_set(seq![], s.modified.dom());
    assert(s.modified_keys() =~= seq![]);
    assert(s.delta_rows() =~= seq![]);
}

/// Once the changes are merged, only matched files are shown.
pub proof fn without_changes(s: Scene, sort_by: SortBy, direction: SortDirection, order: Seq<u32>)
    requires
        s.new_files.len() == 0,
        s.modified == Map::<u64, FileEntry>::empty(),
    ensures
        s.shown(order, sort_by, direction) == (match direction {
            SortDirection::Ascending => s.active_rows(order),
            SortDirection::Descending => s.active_rows(order).reverse(),
        }),
{
    no_delta_rows(s);
    rows_sorted_ascends(s.delta_rows(), sort_by);
    let base = s.active_rows(order);
    let delta = s.delta_sorted(sort_by);
    assert(delta.len() == 0);
    if base.len() == 0 {
        assert(delta =~= base);
        assert(delta.reverse() =~= base.reverse());
    }
}

/// A new search gives the beginning of the whole result list, which is in order, and the
/// number of its rows.
pub proof fn search_gives_the_beginning(
    before: VolumeManager,
    after: VolumeManager,
    query: Seq<char>,
    options: SearchOptions,
    today: i32,
    r: (Vec<SearchResult>, usize),
)
    requires
        before.was_searched_anew(after, query, options, today, r),
        after.wf(),
        ({
            let s = after.search_cache->0.scene(before.shelf(), today);
            s.active_count() + s.delta_rows().len() <= usize::MAX
        }),
    ensures
        ({
            let s = after.search_cache->0.scene(before.shelf(), today);
            let list = s.shown(
                s.base_order(options.sort_by),
                options.sort_by,
                options.sort_direction,
            );
            &&& rows::result_models(r.0@) == rows::row_results(
                list.subrange(0, rows::least(FIRST_PAGE as int, list.len() as int)),
            )
            &&& r.1 == list.len()
            &&& is_in_order(options.sort_by, options.sort_direction, list)
        }),
{
    let c = after.search_cache->0.uncounted();
    let s = c.scene(before.shelf(), today);
    assert(after.search_cache->0.scene(before.shelf(), today) == s);
    total_is_exact(c, before.shelf(), today, options.sort_by, options.sort_direction);
    shown_is_in_order(s, options.sort_by, options.sort_direction);
    let list = s.shown(s.base_order(options.sort_by), options.sort_by, options.sort_direction);
    page_is_a_piece(list, options.sort_direction, 0, FIRST_PAGE as int);
}

/// A page of the last search is the piece of the whole result list that was asked for,
/// and the list is in order, as long as the orders are current and the
/// count that is kept is right or not used.
pub proof fn page_gives_the_piece(
    before: VolumeManager,
    after: VolumeManager,
    sort_by: SortBy,
    direction: SortDirection,
    start: usize,
    end: usize,
    age: u64,
    today: i32,
    page: (Vec<SearchResult>, usize),
)
    requires
        before.wf(),
        before.orders_are_current(today),
        before.slice_was_read(after, sort_by, direction, start, end, age, today, Some(page)),
        ({
            let c = before.search_cache->0;
            let s = c.scene(before.shelf(), today);
            &&& c.active_base_count matches Some(n) ==> n == s.active_count() || (
            s.deleted.is_empty() && s.modified.is_empty())
            &&& s.active_count() + s.delta_rows().len() <= usize::MAX
        }),
    ensures
        ({
            let s = before.search_cache->0.scene(before.shelf(), today);
            let list = s.shown(s.base_order(sort_by), sort_by, direction);
            let from = rows::least(start as int, list.len() as int);
            &&& rows::result_models(page.0@) == rows::row_results(
                list.subrange(from, rows::most(from, rows::least(end as int, list.len() as int))),
            )
            &&& page.1 == list.len()
            &&& is_in_order(sort_by, direction, list)
        }),
        after.orders_are_current(today),
{
    let c = before.search_cache->0;
    let s = c.scene(before.shelf(), today);
    assert(before.order_used(c, sort_by, today) == s.base_order(sort_by)) by {
        reveal(VolumeManager::orders_are_current);
    }
    total_is_exact(c, before.shelf(), today, sort_by, direction);
    shown_is_in_order(s, sort_by, direction);
    page_is_a_piece(
        s.shown(s.base_order(sort_by), sort_by, direction),
        direction,
        start as int,
        end as int,
    );
    before.page_leaves_orders_current(after, sort_by, today);
}

/// A page that begins at the first row and reaches over the number of results of a new
/// search gives every row of the list, in order.
pub proof fn long_page_gives_all(
    before: VolumeManager,
    mid: VolumeManager,
    after: VolumeManager,
    query: Seq<char>,
    options: SearchOptions,
    age: u64,
    today: i32,
    first: (Vec<SearchResult>, usize),
    page: (Vec<SearchResult>, usize),
)
    requires
        before.was_searched_anew(mid, query, options, today, first),
        mid.same_volumes(before),
        mid.wf(),
        mid.slice_was_read(
            after,
            options.sort_by,
            options.sort_direction,
            0,
            first.1,
            age,
            today,
            Some(page),
        ),
        ({
            let s = mid.search_cache->0.scene(mid.shelf(), today);
            s.active_count() + s.delta_rows().len() <= usize::MAX
        }),
    ensures
        ({
            let s = mid.search_cache->0.scene(mid.shelf(), today);
            let list = s.shown(
                s.base_order(options.sort_by),
                options.sort_by,
                options.sort_direction,
            );
            &&& rows::result_models(page.0@) == rows::row_results(list)
            &&& page.1 == list.len()
            &&& is_in_order(options.sort_by, options.sort_direction, list)
        }),
{
    let c = mid.search_cache->0;
    let s = c.scene(mid.shelf(), today);
    search_gives_the_beginning(before, mid, query, options, today, first);
    assert(c.uncounted().scene(mid.shelf(), today) == s);
    page_gives_the_piece(
        mid,
        after,
        options.sort_by,
        options.sort_direction,
        0,
        first.1,
        age,
        today,
        page,
    );
    let list = s.shown(s.base_order(options.sort_by), options.sort_by, options.sort_direction);
    assert(list.subrange(0, list.len() as int) =~= list);
}

} // verus!
