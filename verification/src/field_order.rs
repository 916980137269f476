//! What the order of results means for the names, sizes, times and paths of the files in them.

use crate::path_table::TableModel;
use crate::path_table;
use crate::result_list;
use crate::rows;
use crate::rows::RowModel;
use crate::search::{ResultModel, SearchOptions, SearchResult, SortBy, SortDirection};
use crate::sound_pages;
use crate::text;
use crate::text::Rank;
use crate::volume_manager::VolumeManager;
use vstd::prelude::*;

verus! {

/// Whether the texts are the same up to the character `k`, and `a` ends there or has the
/// character with the lower number there.
pub open spec fn parts_at(a: Seq<char>, b: Seq<char>, k: int) -> bool {
    &&& 0 <= k <= a.len()
    &&& k < b.len()
    &&& a.take(k) == b.take(k)
    &&& k < a.len() ==> (a[k] as int) < (b[k] as int)
}

/// Whether `a` stands before `b` in a dictionary of code points.
pub open spec fn reads_before(a: Seq<char>, b: Seq<char>) -> bool {
    exists|k: int| parts_at(a, b, k)
}

/// The rank of two texts is their order in a dictionary.
pub proof fn text_rank_is_dictionary(a: Seq<char>, b: Seq<char>)
    ensures
        text::text_rank(a, b) == Rank::Before <==> reads_before(a, b),
        text::text_rank(a, b) == Rank::Same <==> a == b,
        text::text_rank(a, b) == Rank::After <==> reads_before(b, a),
{
    text::text_rank_same(a, b);
    text::text_rank_flip(a, b);
    before_is_dictionary(a, b);
    before_is_dictionary(b, a);
}

proof fn before_is_dictionary(a: Seq<char>, b: Seq<char>)
    ensures
        text::text_rank(a, b) == Rank::Before <==> reads_before(a, b),
    decreases a.len(),
{
    if b.len() == 0 {
    } else if a.len() == 0 {
        assert(a.take(0) =~= b.take(0));
        assert(parts_at(a, b, 0));
    } else {
        let (x, y) = (a.drop_first(), b.drop_first());
        before_is_dictionary(x, y);
        if reads_before(a, b) {
            let k = choose|k: int| parts_at(a, b, k);
            if k > 0 {
                assert(a.take(k)[0] == b.take(k)[0]);
                assert(x.take(k - 1) =~= a.take(k).drop_first());
                assert(y.take(k - 1) =~= b.take(k).drop_first());
                assert(parts_at(x, y, k - 1));
            }
        }
        if text::text_rank(a, b) == Rank::Before {
            if (a[0] as int) < (b[0] as int) {
                assert(a.take(0) =~= b.take(0));
                assert(parts_at(a, b, 0));
            } else {
                let k = choose|k: int| parts_at(x, y, k);
                assert(a.take(k + 1) =~= seq![a[0]] + x.take(k));
                assert(b.take(k + 1) =~= seq![b[0]] + y.take(k));
                assert(parts_at(a, b, k + 1));
            }
        }
    }
}

/// Whether a row may stand before another: by name, by volume, directory and name, by size or by
/// time, and where these are the same, by file id.
pub open spec fn may_precede(sort_by: SortBy, a: RowModel, b: RowModel) -> bool {
    let by_id = a.file.file_id <= b.file.file_id;
    let by_name = reads_before(a.file.name, b.file.name) || (a.file.name == b.file.name && by_id);
    match sort_by {
        SortBy::Name | SortBy::Score => by_name,
        SortBy::Path => reads_before(a.volume, b.volume) || (a.volume == b.volume && (a.ordinal
            < b.ordinal || (a.ordinal == b.ordinal && by_name))),
        SortBy::Size => a.file.size < b.file.size || (a.file.size == b.file.size && by_id),
        SortBy::ModifiedTime => a.file.modified_time < b.file.modified_time || (
        a.file.modified_time == b.file.modified_time && by_id),
    }
}

/// The rank of two rows is that of what they are sorted by.
pub proof fn rank_is_of_fields(sort_by: SortBy, a: RowModel, b: RowModel)
    ensures
        rows::row_rank(sort_by, a, b) != Rank::After <==> may_precede(sort_by, a, b),
        rows::row_rank(sort_by, a, b) != Rank::Before <==> may_precede(sort_by, b, a),
        rows::row_rank(sort_by, a, b) == Rank::Same <==> may_precede(sort_by, a, b) && may_precede(
            sort_by,
            b,
            a,
        ),
{
    text_rank_is_dictionary(a.file.name, b.file.name);
    text_rank_is_dictionary(a.volume, b.volume);
}

/// A result list in order is in order by its rows: in an ascending one every row may stand before
/// every later one, in a descending one behind it.
pub proof fn list_is_in_order(sort_by: SortBy, direction: SortDirection, list: Seq<RowModel>)
    requires
        result_list::is_in_order(sort_by, direction, list),
    ensures
        forall|i: int, j: int|
            0 <= i < j < list.len() ==> (match direction {
                SortDirection::Ascending => may_precede(
                    sort_by,
                    #[trigger] list[i],
                    #[trigger] list[j],
                ),
                SortDirection::Descending => may_precede(sort_by, list[j], list[i]),
            }),
{
    reveal(result_list::ascends);
    reveal(result_list::descends);
    assert forall|i: int, j: int| 0 <= i < j < list.len() implies (match direction {
        SortDirection::Ascending => may_precede(sort_by, #[trigger] list[i], #[trigger] list[j]),
        SortDirection::Descending => may_precede(sort_by, list[j], list[i]),
    }) by {
        rank_is_of_fields(sort_by, list[i], list[j]);
    }
}

/// Whether a result may stand before another in a list by name, by size or by time, and where
/// these are the same, by file id. Nothing is said of lists by path.
pub open spec fn result_may_precede(sort_by: SortBy, a: ResultModel, b: ResultModel) -> bool {
    let by_id = a.file_id <= b.file_id;
    match sort_by {
        SortBy::Name | SortBy::Score => reads_before(a.name, b.name) || (a.name == b.name && by_id),
        SortBy::Path => true,
        SortBy::Size => a.size < b.size || (a.size == b.size && by_id),
        SortBy::ModifiedTime => a.modified_time < b.modified_time || (a.modified_time
            == b.modified_time && by_id),
    }
}

/// Whether results stand in the order that is asked for.
pub open spec fn results_in_order(
    sort_by: SortBy,
    direction: SortDirection,
    results: Seq<ResultModel>,
) -> bool {
    forall|i: int, j: int|
        0 <= i < j < results.len() ==> (match direction {
            SortDirection::Ascending => result_may_precede(
                sort_by,
                #[trigger] results[i],
                #[trigger] results[j],
            ),
            SortDirection::Descending => result_may_precede(sort_by, results[j], results[i]),
        })
}

/// What `filter_map` makes of a sequence stands in the order of the elements.
proof fn filter_map_in_turn<A, B>(s: Seq<A>, f: spec_fn(A) -> Option<B>, i: int, j: int) -> (r: (
    int,
    int,
))
    requires
        0 <= i < j < s.filter_map(f).len(),
    ensures
        0 <= r.0 < r.1 < s.len(),
        f(s[r.0]) == Some(s.filter_map(f)[i]),
        f(s[r.1]) == Some(s.filter_map(f)[j]),
    decreases s.len(),
{
    reveal(Seq::filter_map);
    let t = s.drop_last();
    let (all, most) = (s.filter_map(f), t.filter_map(f));
    if j < most.len() {
        let (p, q) = filter_map_in_turn(t, f, i, j);
        assert(all[i] == most[i] && all[j] == most[j]);
        (p, q)
    } else {
        assert(all[i] == most[i]);
        assert(most.contains(most[i]));
        t.lemma_filter_map_contains(f, most[i]);
        let a = choose|a: A| #[trigger] t.contains(a) && f(a) == Some(most[i]);
        let p = choose|p: int| 0 <= p < t.len() && t[p] == a;
        (p, s.len() - 1)
    }
}

/// What is handed out of a piece of a result list in order is in order.
proof fn piece_is_in_order(
    sort_by: SortBy,
    direction: SortDirection,
    list: Seq<RowModel>,
    from: int,
    to: int,
)
    requires
        result_list::is_in_order(sort_by, direction, list),
        0 <= from <= to <= list.len(),
    ensures
        results_in_order(sort_by, direction, rows::row_results(list.subrange(from, to))),
{
    let piece = list.subrange(from, to);
    let f = |r: RowModel| rows::row_result(r);
    let results = rows::row_results(piece);
    list_is_in_order(sort_by, direction, list);
    assert forall|i: int, j: int| 0 <= i < j < results.len() implies (match direction {
        SortDirection::Ascending => result_may_precede(
            sort_by,
            #[trigger] results[i],
            #[trigger] results[j],
        ),
        SortDirection::Descending => result_may_precede(sort_by, results[j], results[i]),
    }) by {
        let (p, q) = filter_map_in_turn(piece, f, i, j);
        assert(piece[p] == list[from + p] && piece[q] == list[from + q]);
    }
}

/// The results of a page that is read in a sound state stand in the order that was asked for, by
/// their own names, sizes and times.
pub proof fn page_is_in_order(
    before: VolumeManager,
    after: VolumeManager,
    sort_by: SortBy,
    direction: SortDirection,
    start: usize,
    end: usize,
    age: u64,
    today: i32,
    page: (Vec<SearchResult>, usize),
)
    requires
        before.is_sound(today),
        before.fits(),
        after.wf(),
        before.slice_was_read(after, sort_by, direction, start, end, age, today, Some(page)),
    ensures
        results_in_order(sort_by, direction, rows::result_models(page.0@)),
{
    sound_pages::sound_page(before, after, sort_by, direction, start, end, age, today, page);
    let list = before.list(today, sort_by, direction);
    let from = rows::least(start as int, list.len() as int);
    piece_is_in_order(
        sort_by,
        direction,
        list,
        from,
        rows::most(from, rows::least(end as int, list.len() as int)),
    );
}

/// The results of a search in a sound state stand in the order that was asked for, by their own
/// names, sizes and times.
pub proof fn search_is_in_order(
    before: VolumeManager,
    after: VolumeManager,
    query: Seq<char>,
    options: SearchOptions,
    age: u64,
    today: i32,
    r: (Vec<SearchResult>, usize),
)
    requires
        before.is_sound(today),
        before.fits(),
        after.wf(),
        after.fits(),
        before.was_searched(after, query, options, age, today, r),
    ensures
        results_in_order(options.sort_by, options.sort_direction, rows::result_models(r.0@)),
{
    sound_pages::sound_search(before, after, query, options, age, today, r);
    let list = after.list(today, options.sort_by, options.sort_direction);
    piece_is_in_order(
        options.sort_by,
        options.sort_direction,
        list,
        0,
        rows::least(crate::searching::FIRST_PAGE as int, list.len() as int),
    );
}

/// Numbering directories changes none of their paths.
proof fn numbering_keeps_lineage(t: TableModel, before: TableModel, id: u32, hops: nat)
    requires
        t.is_numbered(before),
    ensures
        t.lineage(id, hops) == before.lineage(id, hops),
    decreases hops,
{
    if hops > 0 && id != path_table::ROOT_PATH_ID && id < t.entries.len() {
        assert(t.entries[id as int].parent == before.entries[id as int].parent);
        numbering_keeps_lineage(t, before, t.entries[id as int].parent, (hops - 1) as nat);
    }
}

/// Once the directories are numbered, they are sorted by their numbers as by their paths, and of
/// two with the same path the one with the smaller id comes first. The directory of what has none
/// comes before all.
pub proof fn numbers_are_in_path_order(t: TableModel, before: TableModel, a: u32, b: u32)
    requires
        t.is_numbered(before),
        a < t.entries.len() && a != path_table::DELETED_PATH_ID,
        b < t.entries.len() && b != path_table::DELETED_PATH_ID,
        a > 0,
    ensures
        b > 0 ==> (t.ordinal(a) < t.ordinal(b) <==> reads_before(t.path(a), t.path(b)) || (t.path(a)
            == t.path(b) && a < b)),
        t.ordinal(0) < t.ordinal(a),
        t.path(a) == before.path(a),
{
    numbering_keeps_lineage(t, before, a, path_table::MAX_DEPTH as nat);
    numbering_keeps_lineage(t, before, b, path_table::MAX_DEPTH as nat);
    text_rank_is_dictionary(before.path(a), before.path(b));
    assert(1 <= t.entries[a as int].ordinal);
    if b > 0 {
        assert(t.entries[a as int].ordinal < t.entries[b as int].ordinal <==> before.path_before(
            a,
            b,
        ));
    }
}

} // verus!
