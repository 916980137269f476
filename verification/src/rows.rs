//! Rows of a result list: what they are sorted by, and how two sorted lists of them
//! are merged.

use crate::field_order;
use crate::path_table::PathTable;
use crate::search;
use crate::search::{FileEntry, FileModel, ResultModel, SearchResult, SortBy, SortDirection};
use crate::sorting::{merge_sort, SortOrder};
use crate::text;
use crate::text::{rank_text, Rank};
use rayon::slice::ParallelSliceMut;
use std::cmp::Ordering;
use vstd::prelude::*;
use vstd::relations::*;
use vstd::seq_lib::*;

verus! {

broadcast use vstd::string::group_string_axioms;

/// A row: a file, its volume, the number of its directory, and its path where the
/// volume is at hand.
#[verifier::ext_equal]
pub struct RowModel {
    pub volume: Seq<char>,
    pub ordinal: u32,
    pub file: FileModel,
    pub path: Option<Seq<char>>,
}

/// A row, by reference to what it is made of.
#[derive(Clone, Copy)]
pub struct Row<'a> {
    pub volume: &'a str,
    pub ordinal: u32,
    pub file: &'a FileEntry,
    pub table: Option<&'a PathTable>,
}

impl<'a> View for Row<'a> {
    type V = RowModel;

    open spec fn view(&self) -> RowModel {
        RowModel {
            volume: self.volume@,
            ordinal: self.ordinal,
            file: self.file@,
            path: match self.table {
                Some(t) => Some(t@.file_path(self.file.path_id, self.file.name@)),
                None => None,
            },
        }
    }
}

/// How two rows stand to each other: by the key of `sort_by`, then by file id.
pub open spec fn row_rank(sort_by: SortBy, a: RowModel, b: RowModel) -> Rank {
    text::tie_break(
        key_rank(sort_by, a, b),
        text::number_rank(a.file.file_id as int, b.file.file_id as int),
    )
}

/// How two rows stand to each other by the key of `sort_by`.
pub open spec fn key_rank(sort_by: SortBy, a: RowModel, b: RowModel) -> Rank {
    match sort_by {
        SortBy::Name | SortBy::Score => text::text_rank(a.file.name, b.file.name),
        SortBy::Path => text::tie_break(
            text::text_rank(a.volume, b.volume),
            text::tie_break(
                text::number_rank(a.ordinal as int, b.ordinal as int),
                text::text_rank(a.file.name, b.file.name),
            ),
        ),
        SortBy::Size => text::number_rank(a.file.size as int, b.file.size as int),
        SortBy::ModifiedTime => text::number_rank(
            a.file.modified_time as int,
            b.file.modified_time as int,
        ),
    }
}

/// Swapping two rows flips their rank.
pub proof fn row_rank_flip(sort_by: SortBy, a: RowModel, b: RowModel)
    ensures
        row_rank(sort_by, b, a) == text::flipped(row_rank(sort_by, a, b)),
{
    text::text_rank_flip(a.file.name, b.file.name);
    text::text_rank_flip(a.volume, b.volume);
}

/// The order of rows is transitive: what comes no later than `b` comes no later than
/// what `b` comes no later than, and ties only with what ties with `b`.
pub proof fn row_rank_transitive(sort_by: SortBy, a: RowModel, b: RowModel, c: RowModel)
    requires
        row_rank(sort_by, a, b) != Rank::After,
        row_rank(sort_by, b, c) != Rank::After,
    ensures
        row_rank(sort_by, a, c) != Rank::After,
        row_rank(sort_by, a, c) == Rank::Same <==> row_rank(sort_by, a, b) == Rank::Same
            && row_rank(sort_by, b, c) == Rank::Same,
{
    text_steps(a.file.name, b.file.name, c.file.name);
    text_steps(a.volume, b.volume, c.volume);
}

proof fn text_steps(a: Seq<char>, b: Seq<char>, c: Seq<char>)
    ensures
        text::text_rank(a, b) == Rank::Same <==> a == b,
        text::text_rank(b, c) == Rank::Same <==> b == c,
        text::text_rank(a, c) == Rank::Same <==> a == c,
        text::text_rank(a, b) == Rank::Before && text::text_rank(b, c) == Rank::Before
            ==> text::text_rank(a, c) == Rank::Before,
{
    text::text_rank_same(a, b);
    text::text_rank_same(b, c);
    text::text_rank_same(a, c);
    if text::text_rank(a, b) == Rank::Before && text::text_rank(b, c) == Rank::Before {
        text::text_rank_transitive(a, b, c);
    }
}

fn rank_number(a: u64, b: u64) -> (r: Rank)
    ensures
        r == text::number_rank(a as int, b as int),
{
    if a < b {
        Rank::Before
    } else if a == b {
        Rank::Same
    } else {
        Rank::After
    }
}

/// How two rows stand to each other.
pub fn rank_rows(sort_by: SortBy, a: &Row, b: &Row) -> (r: Rank)
    ensures
        r == row_rank(sort_by, a@, b@),
        r != Rank::After <==> field_order::may_precede(sort_by, a@, b@),
        r != Rank::Before <==> field_order::may_precede(sort_by, b@, a@),
{
    proof {
        field_order::rank_is_of_fields(sort_by, a@, b@);
    }
    let key = match sort_by {
        SortBy::Name | SortBy::Score => rank_text(a.file.name.as_str(), b.file.name.as_str()),
        SortBy::Path => {
            let volume = rank_text(a.volume, b.volume);
            if volume != Rank::Same {
                volume
            } else if a.ordinal != b.ordinal {
                rank_number(a.ordinal as u64, b.ordinal as u64)
            } else {
                rank_text(a.file.name.as_str(), b.file.name.as_str())
            }
        },
        SortBy::Size => rank_number(a.file.size, b.file.size),
        SortBy::ModifiedTime => {
            if a.file.modified_time < b.file.modified_time {
                Rank::Before
            } else if a.file.modified_time == b.file.modified_time {
                Rank::Same
            } else {
                Rank::After
            }
        },
    };
    if key != Rank::Same {
        key
    } else {
        rank_number(a.file.file_id as u64, b.file.file_id as u64)
    }
}

/// The row at place `i`, where there is one.
pub open spec fn row_in(rows: Seq<Option<RowModel>>, i: int) -> RowModel {
    if 0 <= i < rows.len() && rows[i] is Some {
        rows[i]->0
    } else {
        RowModel {
            volume: seq![],
            ordinal: 0,
            file: FileModel {
                name: seq![],
                size: 0,
                path_id: 0,
                file_id: 0,
                modified_time: 0,
                is_directory: false,
            },
            path: None,
        }
    }
}

/// Whether the row at place `i` comes no later than that at `j`: by rank, then by
/// place.
pub open spec fn place_leq(rows: Seq<Option<RowModel>>, sort_by: SortBy, i: int, j: int) -> bool {
    text::tie_break(
        row_rank(sort_by, row_in(rows, i), row_in(rows, j)),
        text::number_rank(i, j),
    ) != Rank::After
}

/// `places` in the order of their rows.
pub open spec fn places_sorted(
    rows: Seq<Option<RowModel>>,
    sort_by: SortBy,
    places: Seq<u32>,
) -> Seq<u32> {
    places.sort_by(|i: u32, j: u32| place_leq(rows, sort_by, i as int, j as int))
}

/// `places`, in the machine's word, in the order of their rows.
pub open spec fn wide_places_sorted(
    rows: Seq<Option<RowModel>>,
    sort_by: SortBy,
    places: Seq<usize>,
) -> Seq<usize> {
    places.sort_by(|i: usize, j: usize| place_leq(rows, sort_by, i as int, j as int))
}

/// The order of places is total.
pub proof fn place_order_total(rows: Seq<Option<RowModel>>, sort_by: SortBy)
    ensures
        total_ordering(|i: int, j: int| place_leq(rows, sort_by, i, j)),
        total_ordering(|i: u32, j: u32| place_leq(rows, sort_by, i as int, j as int)),
        total_ordering(|i: usize, j: usize| place_leq(rows, sort_by, i as int, j as int)),
{
    let leq = |i: int, j: int| place_leq(rows, sort_by, i, j);
    assert forall|i: int| #[trigger] leq(i, i) by {
        row_rank_flip(sort_by, row_in(rows, i), row_in(rows, i));
    }
    assert forall|i: int, j: int| #[trigger] leq(i, j) && #[trigger] leq(j, i) implies i == j by {
        row_rank_flip(sort_by, row_in(rows, i), row_in(rows, j));
    }
    assert forall|i: int, j: int| #[trigger] leq(i, j) || #[trigger] leq(j, i) by {
        row_rank_flip(sort_by, row_in(rows, i), row_in(rows, j));
    }
    assert forall|i: int, j: int, k: int| #[trigger] leq(i, j) && #[trigger] leq(j, k) implies leq(
        i,
        k,
    ) by {
        row_rank_transitive(sort_by, row_in(rows, i), row_in(rows, j), row_in(rows, k));
    }
    let leq32 = |i: u32, j: u32| place_leq(rows, sort_by, i as int, j as int);
    assert forall|i: u32, j: u32| #[trigger] leq32(i, j) == leq(i as int, j as int) by {}
    let wide = |i: usize, j: usize| place_leq(rows, sort_by, i as int, j as int);
    assert forall|i: usize, j: usize| #[trigger] wide(i, j) == leq(i as int, j as int) by {}
}

/// An arrangement of `places` in which no row stands before one that precedes it is
/// `places_sorted`.
pub proof fn sorted_places_unique(
    rows: Seq<Option<RowModel>>,
    sort_by: SortBy,
    places: Seq<u32>,
    sorted: Seq<u32>,
)
    requires
        sorted.to_multiset() == places.to_multiset(),
        forall|i: int, j: int|
            0 <= i < j < sorted.len() ==> place_leq(
                rows,
                sort_by,
                #[trigger] sorted[i] as int,
                #[trigger] sorted[j] as int,
            ),
    ensures
        sorted == places_sorted(rows, sort_by, places),
{
    let leq = |i: u32, j: u32| place_leq(rows, sort_by, i as int, j as int);
    place_order_total(rows, sort_by);
    places.lemma_sort_by_ensures(leq);
    assert(sorted_by(sorted, leq));
    lemma_sorted_unique(sorted, places_sorted(rows, sort_by, places), leq);
}

/// What `places_sorted` gives: the same places, in order.
pub proof fn places_sorted_sorts(
    rows: Seq<Option<RowModel>>,
    sort_by: SortBy,
    places: Seq<u32>,
)
    ensures
        places_sorted(rows, sort_by, places).to_multiset() == places.to_multiset(),
        places_sorted(rows, sort_by, places).len() == places.len(),
        forall|i: int, j: int|
            0 <= i < j < places.len() ==> place_leq(
                rows,
                sort_by,
                #[trigger] places_sorted(rows, sort_by, places)[i] as int,
                #[trigger] places_sorted(rows, sort_by, places)[j] as int,
            ),
{
    broadcast use group_to_multiset_ensures;

    let leq = |i: u32, j: u32| place_leq(rows, sort_by, i as int, j as int);
    let sorted = places_sorted(rows, sort_by, places);
    place_order_total(rows, sort_by);
    places.lemma_sort_by_ensures(leq);
    assert(places.len() == places.to_multiset().len());
    assert(sorted.len() == sorted.to_multiset().len());
    assert forall|i: int, j: int| 0 <= i < j < sorted.len() implies place_leq(
        rows,
        sort_by,
        #[trigger] sorted[i] as int,
        #[trigger] sorted[j] as int,
    ) by {
        assert(leq(sorted[i], sorted[j]));
    }
}

/// The models of optional rows.
pub open spec fn row_models(rows: Seq<Option<Row>>) -> Seq<Option<RowModel>> {
    rows.map_values(
        |r: Option<Row>|
            match r {
                Some(r) => Some(r@),
                None => None,
            },
    )
}

/// The order of the places of `rows` by `sort_by`.
pub struct RowOrder<'a> {
    pub rows: &'a Vec<Option<Row<'a>>>,
    pub sort_by: SortBy,
}

impl<'a> RowOrder<'a> {
    /// Whether there is a row at place `i`.
    pub open spec fn has(&self, i: int) -> bool {
        0 <= i < self.rows@.len() && self.rows@[i] is Some
    }

    /// How the rows at two places stand to each other; the smaller place comes first
    /// where they tie.
    pub fn rank(&self, i: usize, j: usize) -> (r: Rank)
        requires
            self.has(i as int),
            self.has(j as int),
        ensures
            r == text::tie_break(
                row_rank(
                    self.sort_by,
                    row_in(row_models(self.rows@), i as int),
                    row_in(row_models(self.rows@), j as int),
                ),
                text::number_rank(i as int, j as int),
            ),
    {
        let a = self.rows[i].as_ref().unwrap();
        let b = self.rows[j].as_ref().unwrap();
        let first = rank_rows(self.sort_by, a, b);
        if first != Rank::Same {
            first
        } else {
            rank_number(i as u64, j as u64)
        }
    }

    /// The rank of two places; places without rows tie with all others.
    fn rank_narrow(&self, i: u32, j: u32) -> (r: Rank)
        ensures
            self.has(i as int) && self.has(j as int) ==> {
                &&& r == Rank::After <==> !place_leq(
                    row_models(self.rows@),
                    self.sort_by,
                    i as int,
                    j as int,
                )
                &&& r == Rank::Before <==> !place_leq(
                    row_models(self.rows@),
                    self.sort_by,
                    j as int,
                    i as int,
                )
            },
    {
        if !self.has_row(i as usize) || !self.has_row(j as usize) {
            return Rank::Same;
        }
        proof {
            row_rank_flip(
                self.sort_by,
                row_in(row_models(self.rows@), i as int),
                row_in(row_models(self.rows@), j as int),
            );
        }
        self.rank(i as usize, j as usize)
    }

    /// The rank of two places, as sorts take it.
    pub fn ordering(&self, i: &u32, j: &u32) -> (r: Ordering)
        ensures
            self.covers(*i) && self.covers(*j) ==> (r == Ordering::Greater <==> !self.leq(*i, *j)),
            self.covers(*i) && self.covers(*j) ==> (r == Ordering::Less <==> !self.leq(*j, *i)),
    {
        match self.rank_narrow(*i, *j) {
            Rank::Before => Ordering::Less,
            Rank::Same => Ordering::Equal,
            Rank::After => Ordering::Greater,
        }
    }

    /// Whether there is a row at place `i`.
    pub fn has_row(&self, i: usize) -> (r: bool)
        ensures
            r == self.has(i as int),
    {
        i < self.rows.len() && self.rows[i].is_some()
    }
}

impl<'a> SortOrder<u32> for RowOrder<'a> {
    open spec fn covers(&self, i: u32) -> bool {
        self.has(i as int)
    }

    open spec fn leq(&self, i: u32, j: u32) -> bool {
        place_leq(row_models(self.rows@), self.sort_by, i as int, j as int)
    }

    proof fn total(&self) {
        place_order_total(row_models(self.rows@), self.sort_by);
        assert((|i: u32, j: u32| self.leq(i, j)) =~= (|i: u32, j: u32|
            place_leq(row_models(self.rows@), self.sort_by, i as int, j as int)));
    }

    fn le(&self, i: &u32, j: &u32) -> (r: bool) {
        self.rank(*i as usize, *j as usize) != Rank::After
    }
}

impl<'a> SortOrder<usize> for RowOrder<'a> {
    open spec fn covers(&self, i: usize) -> bool {
        self.has(i as int)
    }

    open spec fn leq(&self, i: usize, j: usize) -> bool {
        place_leq(row_models(self.rows@), self.sort_by, i as int, j as int)
    }

    proof fn total(&self) {
        place_order_total(row_models(self.rows@), self.sort_by);
        assert((|i: usize, j: usize| self.leq(i, j)) =~= (|i: usize, j: usize|
            place_leq(row_models(self.rows@), self.sort_by, i as int, j as int)));
    }

    fn le(&self, i: &usize, j: &usize) -> (r: bool) {
        self.rank(*i, *j) != Rank::After
    }
}

/// `par_sort_unstable_by` of `rayon` sorts in parallel by a comparison that must be a
/// total order, as that of places with rows is: the same places come out, and none
/// stands before one that precedes it.
#[verifier::external_body]
fn par_sort_places(order: &RowOrder, places: &mut Vec<u32>)
    requires
        forall|i: int| 0 <= i < old(places)@.len() ==> order.covers(#[trigger] old(places)@[i]),
    ensures
        final(places)@.to_multiset() == old(places)@.to_multiset(),
        forall|i: int, j: int|
            0 <= i < j < final(places)@.len() ==> order.leq(
                #[trigger] final(places)@[i],
                #[trigger] final(places)@[j],
            ),
{
    places.par_sort_unstable_by(|a, b| order.ordering(a, b))
}

/// Sorts places by their rows, in parallel.
pub fn sort_places(order: &RowOrder, places: &mut Vec<u32>)
    requires
        forall|i: int| 0 <= i < old(places)@.len() ==> order.covers(#[trigger] old(places)@[i]),
    ensures
        final(places)@ == places_sorted(row_models(order.rows@), order.sort_by, old(places)@),
{
    par_sort_places(order, places);
    proof {
        sorted_places_unique(
            row_models(order.rows@),
            order.sort_by,
            old(places)@,
            places@,
        );
    }
}

/// The models of rows.
pub open spec fn row_views(rows: Seq<Row>) -> Seq<RowModel> {
    rows.map_values(|r: Row| r@)
}

/// The rows in the order `sort_by`; of rows that tie, the earlier comes first.
pub open spec fn rows_sorted(rows: Seq<RowModel>, sort_by: SortBy) -> Seq<RowModel> {
    wide_places_sorted(
        rows.map_values(|r: RowModel| Some(r)),
        sort_by,
        Seq::new(rows.len(), |i: int| i as usize),
    ).map_values(|i: usize| rows[i as int])
}

/// The rows in the order `sort_by`; of rows that tie, the earlier comes first.
pub fn sort_rows<'a>(rows: &Vec<Row<'a>>, sort_by: SortBy) -> (r: Vec<Row<'a>>)
    ensures
        row_views(r@) == rows_sorted(row_views(rows@), sort_by),
        r@.len() == rows@.len(),
{
    let mut table: Vec<Option<Row<'a>>> = Vec::new();
    let mut places: Vec<usize> = Vec::new();
    let mut i: usize = 0;
    while i < rows.len()
        invariant
            i <= rows@.len(),
            table@.len() == i,
            places@ =~= Seq::new(i as nat, |k: int| k as usize),
            forall|k: int| 0 <= k < i ==> #[trigger] table@[k] == Some(rows@[k]),
        decreases rows@.len() - i,
    {
        table.push(Some(rows[i]));
        places.push(i);
        i += 1;
    }
    let order = RowOrder { rows: &table, sort_by };
    let ghost models = row_views(rows@).map_values(|r: RowModel| Some(r));
    assert(row_models(table@) =~= models);
    let sorted = merge_sort(&order, &places);
    proof {
        assert((|a: usize, b: usize| SortOrder::<usize>::leq(&order, a, b)) =~= (|
            a: usize,
            b: usize,
        | place_leq(models, sort_by, a as int, b as int)));
        assert(sorted@ == wide_places_sorted(models, sort_by, places@));
        crate::sorting::in_order_sorts(order, places@);
        broadcast use group_to_multiset_ensures;

        assert forall|k: int| 0 <= k < sorted@.len() implies #[trigger] sorted@[k]
            < rows@.len() by {
            assert(sorted@.to_multiset().count(sorted@[k]) > 0);
            assert(places@.contains(sorted@[k]));
        }
    }
    let mut r: Vec<Row<'a>> = Vec::new();
    let mut k: usize = 0;
    while k < sorted.len()
        invariant
            k <= sorted@.len(),
            forall|n: int| 0 <= n < sorted@.len() ==> #[trigger] sorted@[n] < rows@.len(),
            r@.len() == k,
            forall|n: int| 0 <= n < k ==> #[trigger] r@[n] == rows@[sorted@[n] as int],
        decreases sorted@.len() - k,
    {
        r.push(rows[sorted[k]]);
        k += 1;
    }
    assert(row_views(r@) =~= rows_sorted(row_views(rows@), sort_by));
    r
}

/// Two ascending lists in one, ascending; of rows that tie, that of `base` comes
/// first.
pub open spec fn merged_up(sort_by: SortBy, base: Seq<RowModel>, delta: Seq<RowModel>) -> Seq<
    RowModel,
>
    decreases base.len() + delta.len(),
{
    if base.len() == 0 {
        delta
    } else if delta.len() == 0 {
        base
    } else if row_rank(sort_by, base[0], delta[0]) != Rank::After {
        seq![base[0]] + merged_up(sort_by, base.drop_first(), delta)
    } else {
        seq![delta[0]] + merged_up(sort_by, base, delta.drop_first())
    }
}

/// Two ascending lists in one, descending; of rows that tie, that of `base` comes
/// first.
pub open spec fn merged_down(sort_by: SortBy, base: Seq<RowModel>, delta: Seq<RowModel>) -> Seq<
    RowModel,
>
    decreases base.len() + delta.len(),
{
    if base.len() == 0 {
        delta.reverse()
    } else if delta.len() == 0 {
        base.reverse()
    } else if row_rank(sort_by, base.last(), delta.last()) != Rank::Before {
        seq![base.last()] + merged_down(sort_by, base.drop_last(), delta)
    } else {
        seq![delta.last()] + merged_down(sort_by, base, delta.drop_last())
    }
}

/// The whole result list, in the order in which it is shown.
pub open spec fn merged(
    sort_by: SortBy,
    direction: SortDirection,
    base: Seq<RowModel>,
    delta: Seq<RowModel>,
) -> Seq<RowModel> {
    match direction {
        SortDirection::Ascending => merged_up(sort_by, base, delta),
        SortDirection::Descending => merged_down(sort_by, base, delta),
    }
}

/// Merging neither loses nor makes rows.
pub proof fn merged_len(
    sort_by: SortBy,
    direction: SortDirection,
    base: Seq<RowModel>,
    delta: Seq<RowModel>,
)
    ensures
        merged(sort_by, direction, base, delta).len() == base.len() + delta.len(),
    decreases base.len() + delta.len(),
{
    if base.len() > 0 && delta.len() > 0 {
        match direction {
            SortDirection::Ascending => {
                if row_rank(sort_by, base[0], delta[0]) != Rank::After {
                    merged_len(sort_by, direction, base.drop_first(), delta);
                } else {
                    merged_len(sort_by, direction, base, delta.drop_first());
                }
            },
            SortDirection::Descending => {
                if row_rank(sort_by, base.last(), delta.last()) != Rank::Before {
                    merged_len(sort_by, direction, base.drop_last(), delta);
                } else {
                    merged_len(sort_by, direction, base, delta.drop_last());
                }
            },
        }
    }
}

/// What is handed out of a row: nothing where its volume is not at hand.
pub open spec fn row_result(r: RowModel) -> Option<ResultModel> {
    match r.path {
        Some(p) => Some(search::result_of(r.file, p)),
        None => None,
    }
}

/// What is handed out of rows.
pub open spec fn row_results(rows: Seq<RowModel>) -> Seq<ResultModel> {
    rows.filter_map(|r: RowModel| row_result(r))
}

/// What results hold.
pub open spec fn result_models(v: Seq<SearchResult>) -> Seq<ResultModel> {
    v.map_values(|r: SearchResult| r@)
}

/// Hands out one more row.
pub fn push_row(results: &mut Vec<SearchResult>, row: &Row)
    ensures
        result_models(final(results)@) == (match row_result(row@) {
            Some(m) => result_models(old(results)@).push(m),
            None => result_models(old(results)@),
        }),
{
    if let Some(table) = row.table {
        let path = table.resolve_file_path(row.file.path_id, row.file.name.as_str());
        let ghost before = results@;
        results.push(row.file.to_search_result(path));
        assert(result_models(results@) =~= result_models(before).push(
            row_result(row@)->0,
        ));
    }
}

/// The window of a page, in positions of a list of `total` rows in ascending order.
pub open spec fn window(total: int, direction: SortDirection, start: int, end: int) -> (int, int) {
    match direction {
        SortDirection::Ascending => (least(start, total), least(end, total)),
        SortDirection::Descending => {
            let s = most(total - most(end, start), 0);
            (s, most(most(total - start, 0), s))
        },
    }
}

/// The smaller number.
pub open spec fn least(a: int, b: int) -> int {
    if a < b {
        a
    } else {
        b
    }
}

/// The larger number.
pub open spec fn most(a: int, b: int) -> int {
    if a > b {
        a
    } else {
        b
    }
}

/// The rows of a page. `shown` is the whole list in the order in which it is shown,
/// `claimed` the number of rows it was taken to have.
pub open spec fn page_rows(
    shown: Seq<RowModel>,
    claimed: int,
    direction: SortDirection,
    start: int,
    end: int,
) -> Seq<RowModel> {
    let (from, to) = window(claimed, direction, start, end);
    if from >= to {
        seq![]
    } else {
        let (a, b) = match direction {
            SortDirection::Ascending => (from, to),
            SortDirection::Descending => (claimed - to, claimed - from),
        };
        shown.subrange(least(a, shown.len() as int), least(b, shown.len() as int))
    }
}

/// The number of rows that is reported with a page: what the list was taken to have,
/// less what was found missing before the page was full.
pub open spec fn page_total(
    rows: int,
    claimed: int,
    direction: SortDirection,
    start: int,
    end: int,
) -> int {
    let (from, to) = window(claimed, direction, start, end);
    let read = match direction {
        SortDirection::Ascending => to,
        SortDirection::Descending => claimed - from,
    };
    if from >= to || rows >= read {
        claimed
    } else {
        claimed - (read - rows)
    }
}

} // verus!
