//! Reading pages of a search: the matched files that are still shown, merged with
//! the files that were added or changed since.

use crate::keys::{key_of, volume_of_key};
use crate::query::SearchQuery;
use crate::rows;
use crate::rows::{push_row, rank_rows, sort_places, sort_rows, Row, RowModel, RowOrder};
use crate::scene;
use crate::search::{FileEntry, ResultModel, SearchResult, SortBy, SortDirection};
use crate::search_cache;
use crate::search_cache::SearchCache;
use crate::seqs;
use crate::seqs::keys_in_ascent;
use crate::sort_cache;
use crate::sort_cache::{sort_by_slot, unpack_matched, CachedOrder, SortedIndicesCache};
use crate::text;
use crate::text::Rank;
use crate::volume_map;
use crate::volume_map::{Shelf, ShelfModel, VolumeMap};
use vstd::prelude::*;

verus! {

broadcast use {
    vstd::std_specs::hash::group_hash_axioms,
    vstd::std_specs::btree::group_btree_axioms,
    vstd::laws_cmp::group_laws_cmp,
};

/// Where the row of `base` is next, merging goes on behind it.
proof fn base_is_next(sort_by: SortBy, base: Seq<RowModel>, delta: Seq<RowModel>)
    requires
        base.len() > 0,
        delta.len() == 0 || rows::row_rank(sort_by, base[0], delta[0]) != Rank::After,
    ensures
        rows::merged_up(sort_by, base, delta) == seq![base[0]] + rows::merged_up(
            sort_by,
            base.drop_first(),
            delta,
        ),
{
    if delta.len() == 0 {
        assert(base =~= seq![base[0]] + base.drop_first());
        if base.drop_first().len() == 0 {
            assert(delta =~= base.drop_first());
        }
    }
}

/// Where the row of `delta` is next, merging goes on behind it.
proof fn delta_is_next(sort_by: SortBy, base: Seq<RowModel>, delta: Seq<RowModel>)
    requires
        delta.len() > 0,
        base.len() == 0 || rows::row_rank(sort_by, base[0], delta[0]) == Rank::After,
    ensures
        rows::merged_up(sort_by, base, delta) == seq![delta[0]] + rows::merged_up(
            sort_by,
            base,
            delta.drop_first(),
        ),
{
    if base.len() == 0 {
        assert(delta =~= seq![delta[0]] + delta.drop_first());
    }
}

/// Where the last row of `base` is next, merging downwards goes on before it.
proof fn base_is_next_down(sort_by: SortBy, base: Seq<RowModel>, delta: Seq<RowModel>)
    requires
        base.len() > 0,
        delta.len() == 0 || rows::row_rank(sort_by, base.last(), delta.last()) != Rank::Before,
    ensures
        rows::merged_down(sort_by, base, delta) == seq![base.last()] + rows::merged_down(
            sort_by,
            base.drop_last(),
            delta,
        ),
{
    if delta.len() == 0 {
        assert(base.reverse() =~= seq![base.last()] + base.drop_last().reverse());
        if base.drop_last().len() == 0 {
            assert(delta.reverse() =~= base.drop_last().reverse());
        }
    }
}

/// Where the last row of `delta` is next, merging downwards goes on before it.
proof fn delta_is_next_down(sort_by: SortBy, base: Seq<RowModel>, delta: Seq<RowModel>)
    requires
        delta.len() > 0,
        base.len() == 0 || rows::row_rank(sort_by, base.last(), delta.last()) == Rank::Before,
    ensures
        rows::merged_down(sort_by, base, delta) == seq![delta.last()] + rows::merged_down(
            sort_by,
            base,
            delta.drop_last(),
        ),
{
    if base.len() == 0 {
        assert(delta.reverse() =~= seq![delta.last()] + delta.drop_last().reverse());
    }
}

/// One more row of `full` is read.
proof fn one_more(full: Seq<RowModel>, n: int, x: RowModel, rest: Seq<RowModel>, from: int)
    requires
        0 <= n <= full.len(),
        0 <= from,
        full.skip(n) == seq![x] + rest,
    ensures
        n < full.len(),
        full[n] == x,
        full.skip(n + 1) == rest,
        n >= from ==> rows::row_results(full.subrange(rows::least(from, n + 1), n + 1)) == (
        match rows::row_result(x) {
            Some(m) => rows::row_results(full.subrange(rows::least(from, n), n)).push(m),
            None => rows::row_results(full.subrange(rows::least(from, n), n)),
        }),
        n < from ==> rows::row_results(full.subrange(rows::least(from, n + 1), n + 1))
            == rows::row_results(full.subrange(rows::least(from, n), n)),
{
    assert(full.skip(n).len() == full.len() - n);
    assert(full.skip(n)[0] == full[n]);
    assert(full.skip(n + 1) =~= full.skip(n).drop_first());
    assert((seq![x] + rest).drop_first() =~= rest);
    if n >= from {
        let page = full.subrange(rows::least(from, n), n);
        assert(full.subrange(rows::least(from, n + 1), n + 1) =~= page.push(x));
        seqs::filter_map_push(page, x, |r: RowModel| rows::row_result(r));
    } else {
        assert(full.subrange(rows::least(from, n + 1), n + 1) =~= full.subrange(
            rows::least(from, n),
            n,
        ));
    }
}

/// The row of a file of volume `v`.
fn row_for<'a>(shelf: &Shelf<'a>, v: u8, f: &'a FileEntry) -> (r: Row<'a>)
    requires
        shelf.wf(),
        v < shelf.names@.len(),
    ensures
        r@ == scene::row_of(shelf@, v, *f),
{
    match shelf.monitors[v as usize] {
        Some(m) => Row {
            volume: shelf.names[v as usize].as_str(),
            ordinal: m.path_table.get_ordinal(f.path_id),
            file: f,
            table: Some(&m.path_table),
        },
        None => Row {
            volume: shelf.names[v as usize].as_str(),
            ordinal: u32::MAX,
            file: f,
            table: None,
        },
    }
}

/// The row of the file at a packed position.
fn row_at<'a>(shelf: &Shelf<'a>, p: u32) -> (r: Option<Row<'a>>)
    requires
        shelf.wf(),
    ensures
        match (r, volume_map::file_at(shelf@, p)) {
            (Some(row), Some(f)) => row@ == scene::row_of(shelf@, sort_cache::volume_of(p), f),
            (None, None) => true,
            _ => false,
        },
{
    match shelf.file(p) {
        Some(f) => {
            let (v, _) = unpack_matched(p);
            Some(row_for(shelf, v, f))
        },
        None => None,
    }
}

impl SearchCache {
    /// The rows of the matched files.
    fn base_table<'a>(&self, shelf: &Shelf<'a>, today: i32) -> (r: Vec<Option<Row<'a>>>)
        requires
            shelf.wf(),
        ensures
            rows::row_models(r@) == self.scene(shelf@, today).base_rows(),
    {
        let ghost s = self.scene(shelf@, today);
        let mut r: Vec<Option<Row<'a>>> = Vec::new();
        let mut i: usize = 0;
        while i < self.base.matched.len()
            invariant
                i <= self.base.matched@.len(),
                shelf.wf(),
                s == self.scene(shelf@, today),
                r@.len() == i,
                forall|k: int|
                    #![trigger r@[k]]
                    0 <= k < i ==> match r@[k] {
                        Some(row) => s.base_row(k) == Some(row@),
                        None => s.base_row(k) is None,
                    },
            decreases self.base.matched@.len() - i,
        {
            r.push(row_at(shelf, self.base.matched[i]));
            i += 1;
        }
        assert(rows::row_models(r@) =~= s.base_rows());
        r
    }

    /// The row of the matched file at place `i`, where it is shown.
    fn active_row<'a>(&self, shelf: &Shelf<'a>, i: u32, today: i32) -> (r: Option<Row<'a>>)
        requires
            shelf.wf(),
        ensures
            match r {
                Some(row) => self.scene(shelf@, today).active_row(i) == Some(row@),
                None => self.scene(shelf@, today).active_row(i) is None,
            },
    {
        if (i as usize) < self.base.matched.len() {
            match row_at(shelf, self.base.matched[i as usize]) {
                Some(row) => {
                    let (v, _) = unpack_matched(self.base.matched[i as usize]);
                    if self.hides(v, row.file.file_id) {
                        None
                    } else {
                        Some(row)
                    }
                },
                None => None,
            }
        } else {
            None
        }
    }

    /// How many matched files are still there.
    fn count_places(&self, shelf: &Shelf, today: i32) -> (r: usize)
        requires
            shelf.wf(),
            self.wf(),
        ensures
            r == self.scene(shelf@, today).base_places().len(),
            r <= self.base.matched@.len(),
    {
        let ghost s = self.scene(shelf@, today);
        let ghost all = scene::places(s.matched.len());
        let ghost there = |i: u32| s.base_rows()[i as int] is Some;
        let mut n: usize = 0;
        let mut i: usize = 0;
        assert(all.take(0).filter(there).len() == 0) by {
            assert(all.take(0) =~= seq![]);
            reveal(Seq::filter);
        }
        while i < self.base.matched.len()
            invariant
                i <= self.base.matched@.len() <= u32::MAX,
                shelf.wf(),
                s == self.scene(shelf@, today),
                all == scene::places(s.matched.len()),
                there == (|i: u32| s.base_rows()[i as int] is Some),
                n <= i,
                n == all.take(i as int).filter(there).len(),
            decreases self.base.matched@.len() - i,
        {
            proof {
                assert(all.take(i + 1) =~= all.take(i as int).push(i as u32));
                all.take(i as int).lemma_filter_len_push(there, i as u32);
                assert(there(i as u32) == (s.base_row(i as int) is Some));
            }
            if shelf.file(self.base.matched[i]).is_some() {
                n += 1;
            }
            i += 1;
        }
        assert(all.take(i as int) =~= all);
        n
    }

    /// How many matched files are shown.
    fn count_active(&self, shelf: &Shelf, today: i32) -> (r: usize)
        requires
            shelf.wf(),
            self.wf(),
        ensures
            r == self.scene(shelf@, today).active_count(),
            r <= self.base.matched@.len(),
    {
        let ghost s = self.scene(shelf@, today);
        let ghost all = scene::places(s.matched.len());
        let ghost shown = |i: u32| s.active_row(i);
        let mut n: usize = 0;
        let mut i: usize = 0;
        assert(all.take(0) =~= seq![]);
        while i < self.base.matched.len()
            invariant
                i <= self.base.matched@.len() <= u32::MAX,
                shelf.wf(),
                s == self.scene(shelf@, today),
                all == scene::places(s.matched.len()),
                shown == (|i: u32| s.active_row(i)),
                n <= i,
                n == all.take(i as int).filter_map(shown).len(),
            decreases self.base.matched@.len() - i,
        {
            proof {
                all.lemma_filter_map_take_succ(shown, i as int);
                assert(all[i as int] == i as u32);
            }
            if self.active_row(shelf, i as u32, today).is_some() {
                n += 1;
            }
            i += 1;
        }
        assert(all.take(i as int) =~= all);
        n
    }

    /// Counts the matched files that are shown, where they were not counted.
    pub fn ensure_active_base_count(
        &mut self,
        volumes: &VolumeMap,
        vol_names: &Vec<String>,
        today: i32,
    )
        requires
            volumes.wf(),
            old(self).wf(),
        ensures
            final(self).wf(),
            final(self).same_but_count(*old(self)),
            final(self).created_at == old(self).created_at,
            match old(self).active_base_count {
                Some(n) => final(self).active_base_count == Some(n),
                None => final(self).active_base_count is Some && final(self).active_base_count->0
                    == old(self).scene(
                    volume_map::shelf_of(volumes@, vol_names@),
                    today,
                ).active_count(),
            },
    {
        if self.active_base_count.is_none() {
            let shelf = Shelf::new(volumes, vol_names);
            let n: usize = self.count_active(&shelf, today);
            self.active_base_count = Some(n);
        }
    }

    /// Whether a file of volume `v` passes the query, where the volume is at hand, and
    /// is of the kind that is asked for.
    fn takes(&self, shelf: &Shelf, q: &Option<SearchQuery>, v: u8, f: &FileEntry, today: i32) -> (r:
        bool)
        requires
            shelf.wf(),
            match *q {
                Some(q) => search_cache::query_model(self.query@, today) == Some(q@),
                None => search_cache::query_model(self.query@, today) is None,
            },
        ensures
            r == self.scene(shelf@, today).takes(v, *f),
    {
        if v as usize >= shelf.names.len() {
            return false;
        }
        if let Some(query) = q {
            if let Some(m) = shelf.monitors[v as usize] {
                if !entry_matches(query, &m.path_table, f) {
                    return false;
                }
            }
        }
        let overrides = match q {
            Some(query) => query.path_filter_dir_only,
            None => false,
        };
        if self.files_only && f.is_directory && !overrides {
            return false;
        }
        if self.directories_only && !f.is_directory {
            return false;
        }
        true
    }

    /// The rows that are shown of the files that were added or changed.
    fn delta_table<'a>(&'a self, shelf: &Shelf<'a>, today: i32) -> (r: Vec<Row<'a>>)
        requires
            shelf.wf(),
        ensures
            rows::row_views(r@) == self.scene(shelf@, today).delta_rows(),
    {
        let q: Option<SearchQuery> = if text::blank(self.query.as_str()) {
            None
        } else {
            Some(SearchQuery::parse_on(self.query.as_str(), today))
        };
        let ghost s = self.scene(shelf@, today);
        let ghost added = |e: (u8, FileEntry)| s.new_row(e);
        let ghost changed = |k: u64| s.modified_row(k);
        let mut r: Vec<Row<'a>> = Vec::new();
        let mut i: usize = 0;
        assert(s.new_files.take(0) =~= seq![]);
        while i < self.delta.new_files.len()
            invariant
                i <= self.delta.new_files@.len(),
                shelf.wf(),
                s == self.scene(shelf@, today),
                added == (|e: (u8, FileEntry)| s.new_row(e)),
                match q {
                    Some(q) => search_cache::query_model(self.query@, today) == Some(q@),
                    None => search_cache::query_model(self.query@, today) is None,
                },
                rows::row_views(r@) =~= s.new_files.take(i as int).filter_map(added),
            decreases self.delta.new_files@.len() - i,
        {
            let e = &self.delta.new_files[i];
            proof {
                s.new_files.lemma_filter_map_take_succ(added, i as int);
            }
            let k: u64 = key_of(e.0, e.1.file_id);
            let gone = self.delta.deleted_ids.contains(&k) && !self.delta.renamed_fids.contains(&k);
            if !gone && self.takes(shelf, &q, e.0, &e.1, today) {
                r.push(row_for(shelf, e.0, &e.1));
            }
            i += 1;
        }
        assert(s.new_files.take(i as int) =~= s.new_files);
        let ghost first = rows::row_views(r@);
        let keys = keys_in_ascent(&self.delta.modified);
        let mut n: usize = 0;
        assert(keys@.take(0) =~= seq![]);
        assert(first + seq![] =~= first);
        while n < keys.len()
            invariant
                n <= keys@.len(),
                shelf.wf(),
                s == self.scene(shelf@, today),
                changed == (|k: u64| s.modified_row(k)),
                match q {
                    Some(q) => search_cache::query_model(self.query@, today) == Some(q@),
                    None => search_cache::query_model(self.query@, today) is None,
                },
                keys@ == s.modified_keys(),
                keys@.to_set() == s.modified.dom(),
                rows::row_views(r@) =~= first + keys@.take(n as int).filter_map(changed),
            decreases keys@.len() - n,
        {
            let k: u64 = keys[n];
            proof {
                keys@.lemma_filter_map_take_succ(changed, n as int);
                assert(keys@.to_set().contains(k));
                assert(self.delta.modified@.contains_key(k));
            }
            let ghost before = r@;
            let v: u8 = volume_of_key(k);
            if let Some(e) = self.delta.modified.get(&k) {
                if !self.delta.deleted_ids.contains(&key_of(v, e.file_id)) && self.takes(
                    shelf,
                    &q,
                    v,
                    e,
                    today,
                ) {
                    r.push(row_for(shelf, v, e));
                    assert(rows::row_views(r@) =~= rows::row_views(before).push(
                        scene::row_of(shelf@, v, *e),
                    ));
                }
            }
            n += 1;
        }
        assert(keys@.take(n as int) =~= keys@);
        r
    }

    /// The places of the matched files in the order `sort_by`.
    fn sort_base(&self, shelf: &Shelf, sort_by: SortBy, today: i32) -> (r: Vec<u32>)
        requires
            shelf.wf(),
            self.wf(),
        ensures
            r@ == self.scene(shelf@, today).base_order(sort_by),
    {
        let table = self.base_table(shelf, today);
        let ghost models = rows::row_models(table@);
        let ghost all = scene::places(models.len());
        let ghost there = |i: u32| models[i as int] is Some;
        let order = RowOrder { rows: &table, sort_by };
        let mut places: Vec<u32> = Vec::new();
        let mut i: usize = 0;
        assert(all.take(0).filter(there) =~= seq![]) by {
            assert(all.take(0) =~= seq![]);
            reveal(Seq::filter);
        }
        while i < table.len()
            invariant
                i <= table@.len() <= u32::MAX,
                order.rows == table,
                models == rows::row_models(table@),
                all == scene::places(models.len()),
                there == (|i: u32| models[i as int] is Some),
                places@ == all.take(i as int).filter(there),
                forall|k: int| 0 <= k < places@.len() ==> order.has(#[trigger] places@[k] as int),
            decreases table@.len() - i,
        {
            proof {
                assert(all.take(i + 1) =~= all.take(i as int).push(i as u32));
                all.take(i as int).lemma_filter_push(i as u32, there);
            }
            if order.has_row(i) {
                places.push(i as u32);
            }
            i += 1;
        }
        assert(all.take(i as int) =~= all);
        sort_places(&order, &mut places);
        places
    }

    /// The rows `from` to `to` of the ascending list, and how many rows were read.
    fn page_up<'a>(
        &self,
        shelf: &Shelf<'a>,
        order: &Vec<u32>,
        delta: &Vec<Row<'a>>,
        sort_by: SortBy,
        from: usize,
        to: usize,
        today: i32,
    ) -> (r: (Vec<SearchResult>, usize))
        requires
            shelf.wf(),
        ensures
            ({
                let full = rows::merged_up(
                    sort_by,
                    self.scene(shelf@, today).active_rows(order@),
                    rows::row_views(delta@),
                );
                let end = rows::least(to as int, full.len() as int);
                &&& r.1 == end
                &&& rows::result_models(r.0@) == rows::row_results(
                    full.subrange(rows::least(from as int, end), end),
                )
            }),
    {
        let ghost s = self.scene(shelf@, today);
        let ghost shown = |i: u32| s.active_row(i);
        let ghost base = s.active_rows(order@);
        let ghost models = rows::row_views(delta@);
        let ghost full = rows::merged_up(sort_by, base, models);
        let mut results: Vec<SearchResult> = Vec::new();
        let mut bi: usize = 0;
        let mut di: usize = 0;
        let mut n: usize = 0;
        proof {
            assert(order@.skip(0) =~= order@);
            assert(models.skip(0) =~= models);
            assert(full.skip(0) =~= full);
            assert(rows::result_models(results@) =~= seq![]);
            assert(full.subrange(rows::least(from as int, 0), 0) =~= seq![]);
            reveal(Seq::filter_map);
        }
        while n < to
            invariant_except_break
                true,
            invariant
                bi <= order@.len(),
                di <= delta@.len(),
                n <= to,
                n <= full.len(),
                shelf.wf(),
                s == self.scene(shelf@, today),
                shown == (|i: u32| s.active_row(i)),
                models == rows::row_views(delta@),
                full.skip(n as int) == rows::merged_up(
                    sort_by,
                    s.active_rows(order@.skip(bi as int)),
                    models.skip(di as int),
                ),
                rows::result_models(results@) == rows::row_results(
                    full.subrange(rows::least(from as int, n as int), n as int),
                ),
            ensures
                n == to || n == full.len(),
            decreases to - n,
        {
            let mut next: Option<Row<'a>> = None;
            while bi < order.len() && next.is_none()
                invariant
                    bi <= order@.len(),
                    shelf.wf(),
                    s == self.scene(shelf@, today),
                    shown == (|i: u32| s.active_row(i)),
                    match next {
                        Some(row) => bi < order@.len() && s.active_row(order@[bi as int]) == Some(
                            row@,
                        ),
                        None => true,
                    },
                    full.skip(n as int) == rows::merged_up(
                        sort_by,
                        s.active_rows(order@.skip(bi as int)),
                        models.skip(di as int),
                    ),
                decreases
                        order@.len() - bi + (if next is None {
                            1int
                        } else {
                            0int
                        }),
            {
                proof {
                    seqs::filter_map_first(order@.skip(bi as int), shown);
                    assert(order@.skip(bi as int).drop_first() =~= order@.skip(bi + 1));
                }
                next = self.active_row(shelf, order[bi], today);
                if next.is_none() {
                    bi += 1;
                }
            }
            let ghost rest_base = s.active_rows(order@.skip(bi as int));
            let ghost rest_delta = models.skip(di as int);
            let pick_base = match &next {
                Some(row) => di >= delta.len() || rank_rows(sort_by, row, &delta[di])
                    != Rank::After,
                None => {
                    if di >= delta.len() {
                        proof {
                            assert(order@.skip(bi as int) =~= seq![]);
                            assert(rest_delta =~= seq![]);
                            assert(full.skip(n as int).len() == full.len() - n);
                        }
                        break ;
                    }
                    false
                },
            };
            proof {
                if next is Some {
                    seqs::filter_map_first(order@.skip(bi as int), shown);
                    assert(order@.skip(bi as int).drop_first() =~= order@.skip(bi + 1));
                    assert(rest_base[0] == next->0@);
                    assert(rest_base.drop_first() =~= s.active_rows(order@.skip(bi + 1)));
                } else {
                    assert(order@.skip(bi as int) =~= seq![]);
                }
                if di < delta@.len() {
                    assert(rest_delta[0] == delta@[di as int]@);
                    assert(rest_delta.drop_first() =~= models.skip(di + 1));
                }
                if pick_base {
                    base_is_next(sort_by, rest_base, rest_delta);
                    one_more(
                        full,
                        n as int,
                        rest_base[0],
                        rows::merged_up(sort_by, rest_base.drop_first(), rest_delta),
                        from as int,
                    );
                } else {
                    delta_is_next(sort_by, rest_base, rest_delta);
                    one_more(
                        full,
                        n as int,
                        rest_delta[0],
                        rows::merged_up(sort_by, rest_base, rest_delta.drop_first()),
                        from as int,
                    );
                }
            }
            if pick_base {
                if n >= from {
                    if let Some(row) = &next {
                        push_row(&mut results, row);
                    }
                }
                bi += 1;
            } else {
                if n >= from {
                    push_row(&mut results, &delta[di]);
                }
                di += 1;
            }
            n += 1;
        }
        (results, n)
    }
}

impl SearchCache {
    /// The rows `from` to `to` of the descending list, and how many rows were read.
    fn page_down<'a>(
        &self,
        shelf: &Shelf<'a>,
        order: &Vec<u32>,
        delta: &Vec<Row<'a>>,
        sort_by: SortBy,
        from: usize,
        to: usize,
        today: i32,
    ) -> (r: (Vec<SearchResult>, usize))
        requires
            shelf.wf(),
        ensures
            ({
                let full = rows::merged_down(
                    sort_by,
                    self.scene(shelf@, today).active_rows(order@),
                    rows::row_views(delta@),
                );
                let end = rows::least(to as int, full.len() as int);
                &&& r.1 == end
                &&& rows::result_models(r.0@) == rows::row_results(
                    full.subrange(rows::least(from as int, end), end),
                )
            }),
    {
        let ghost s = self.scene(shelf@, today);
        let ghost shown = |i: u32| s.active_row(i);
        let ghost base = s.active_rows(order@);
        let ghost models = rows::row_views(delta@);
        let ghost full = rows::merged_down(sort_by, base, models);
        let mut results: Vec<SearchResult> = Vec::new();
        let mut bi: usize = order.len();
        let mut di: usize = delta.len();
        let mut n: usize = 0;
        proof {
            assert(order@.take(bi as int) =~= order@);
            assert(models.take(di as int) =~= models);
            assert(full.skip(0) =~= full);
            assert(rows::result_models(results@) =~= seq![]);
            assert(full.subrange(rows::least(from as int, 0), 0) =~= seq![]);
            reveal(Seq::filter_map);
        }
        while n < to
            invariant_except_break
                true,
            invariant
                bi <= order@.len(),
                di <= delta@.len(),
                n <= to,
                n <= full.len(),
                shelf.wf(),
                s == self.scene(shelf@, today),
                shown == (|i: u32| s.active_row(i)),
                models == rows::row_views(delta@),
                full.skip(n as int) == rows::merged_down(
                    sort_by,
                    s.active_rows(order@.take(bi as int)),
                    models.take(di as int),
                ),
                rows::result_models(results@) == rows::row_results(
                    full.subrange(rows::least(from as int, n as int), n as int),
                ),
            ensures
                n == to || n == full.len(),
            decreases to - n,
        {
            let mut next: Option<Row<'a>> = None;
            while bi > 0 && next.is_none()
                invariant
                    bi <= order@.len(),
                    shelf.wf(),
                    s == self.scene(shelf@, today),
                    shown == (|i: u32| s.active_row(i)),
                    match next {
                        Some(row) => bi > 0 && s.active_row(order@[bi - 1]) == Some(row@),
                        None => true,
                    },
                    full.skip(n as int) == rows::merged_down(
                        sort_by,
                        s.active_rows(order@.take(bi as int)),
                        models.take(di as int),
                    ),
                decreases
                        bi + (if next is None {
                            1int
                        } else {
                            0int
                        }),
            {
                assert(order@.take(bi as int).drop_last() =~= order@.take(bi - 1));
                next = self.active_row(shelf, order[bi - 1], today);
                if next.is_none() {
                    bi -= 1;
                }
            }
            let ghost rest_base = s.active_rows(order@.take(bi as int));
            let ghost rest_delta = models.take(di as int);
            let pick_base = match &next {
                Some(row) => di == 0 || rank_rows(sort_by, row, &delta[di - 1]) != Rank::Before,
                None => {
                    if di == 0 {
                        proof {
                            assert(order@.take(bi as int) =~= seq![]);
                            assert(rest_delta =~= seq![]);
                            assert(full.skip(n as int).len() == full.len() - n);
                        }
                        break ;
                    }
                    false
                },
            };
            proof {
                if next is Some {
                    assert(order@.take(bi as int).drop_last() =~= order@.take(bi - 1));
                    assert(rest_base.last() == next->0@);
                    assert(rest_base.drop_last() =~= s.active_rows(order@.take(bi - 1)));
                } else {
                    assert(order@.take(bi as int) =~= seq![]);
                }
                if di > 0 {
                    assert(rest_delta.last() == delta@[di - 1]@);
                    assert(rest_delta.drop_last() =~= models.take(di - 1));
                }
                if pick_base {
                    base_is_next_down(sort_by, rest_base, rest_delta);
                    one_more(
                        full,
                        n as int,
                        rest_base.last(),
                        rows::merged_down(sort_by, rest_base.drop_last(), rest_delta),
                        from as int,
                    );
                } else {
                    delta_is_next_down(sort_by, rest_base, rest_delta);
                    one_more(
                        full,
                        n as int,
                        rest_delta.last(),
                        rows::merged_down(sort_by, rest_base, rest_delta.drop_last()),
                        from as int,
                    );
                }
            }
            if pick_base {
                if n >= from {
                    if let Some(row) = &next {
                        push_row(&mut results, row);
                    }
                }
                bi -= 1;
            } else {
                if n >= from {
                    push_row(&mut results, &delta[di - 1]);
                }
                di -= 1;
            }
            n += 1;
        }
        (results, n)
    }

    /// Whether the order of the matched files is at hand: for a blank query among those
    /// kept for blank queries, else among those kept for the last searches.
    pub open spec fn order_kept(
        &self,
        sort_by: SortBy,
        kept: sort_cache::CacheModel,
        blank: bool,
        blank_kept: Seq<Option<sort_cache::OrderModel>>,
        blank_generation: u64,
    ) -> bool {
        if blank {
            blank_kept[sort_cache::slot_of(sort_by)] matches Some(c) && c.generation
                == blank_generation
        } else {
            kept.hit(sort_by, self.base.matched_generation)
        }
    }

    /// The order in which the matched files are taken: that which is at hand, or the
    /// order of what is there now.
    pub open spec fn order_used(
        &self,
        shelf: Seq<ShelfModel>,
        today: i32,
        sort_by: SortBy,
        kept: sort_cache::CacheModel,
        blank: bool,
        blank_kept: Seq<Option<sort_cache::OrderModel>>,
        blank_generation: u64,
    ) -> Seq<u32> {
        if self.order_kept(sort_by, kept, blank, blank_kept, blank_generation) {
            if blank {
                blank_kept[sort_cache::slot_of(sort_by)]->0.order
            } else {
                kept.slots[sort_cache::slot_of(sort_by)]->0.order
            }
        } else {
            self.scene(shelf, today).base_order(sort_by)
        }
    }

    /// The page `start` to `end` where the matched files are taken in the given order,
    /// and how many rows the list has.
    pub open spec fn page_read(
        &self,
        shelf: Seq<ShelfModel>,
        today: i32,
        sort_by: SortBy,
        direction: SortDirection,
        start: int,
        end: int,
        order: Seq<u32>,
    ) -> (Seq<ResultModel>, int) {
        let shown = self.scene(shelf, today).shown(order, sort_by, direction);
        let claimed = self.claimed(shelf, today);
        (
            rows::row_results(rows::page_rows(shown, claimed, direction, start, end)),
            rows::page_total(shown.len() as int, claimed, direction, start, end),
        )
    }

    /// The orders kept for the last searches after `order` was used.
    pub open spec fn kept_after(
        &self,
        sort_by: SortBy,
        kept: sort_cache::CacheModel,
        blank: bool,
        order: Seq<u32>,
    ) -> sort_cache::CacheModel {
        if blank {
            kept
        } else if kept.hit(sort_by, self.base.matched_generation) {
            kept.touched(sort_by)
        } else {
            kept.with_order(sort_by, self.base.matched_generation, order)
        }
    }

    /// The orders kept for blank queries after `order` was used.
    pub open spec fn blank_kept_after(
        &self,
        sort_by: SortBy,
        blank: bool,
        blank_kept: Seq<Option<sort_cache::OrderModel>>,
        blank_generation: u64,
        order: Seq<u32>,
    ) -> Seq<Option<sort_cache::OrderModel>> {
        let slot = sort_cache::slot_of(sort_by);
        if blank && !(blank_kept[slot] matches Some(c) && c.generation == blank_generation) {
            blank_kept.update(
                slot,
                Some(sort_cache::OrderModel { generation: blank_generation, order }),
            )
        } else {
            blank_kept
        }
    }

    /// The count of shown matched files after a page was read: counted where something
    /// was removed or changed.
    pub open spec fn count_after(&self, shelf: Seq<ShelfModel>, today: i32) -> Option<usize> {
        if self.delta.deleted_ids@.is_empty() && self.delta.modified@.is_empty() {
            self.active_base_count
        } else {
            Some(self.base_count(shelf, today) as usize)
        }
    }

    /// The page `start` to `end` of the results, and how many results there are.
    ///
    /// The matched files that are still shown, in the order at hand or else sorted
    /// now, are merged with the files that were added or changed. The order is kept
    /// for the next page.
    pub fn get_sorted_slice(
        &mut self,
        volumes: &VolumeMap,
        vol_names: &Vec<String>,
        sort_by: SortBy,
        sort_direction: SortDirection,
        start: usize,
        end: usize,
        sorted_indices: &mut SortedIndicesCache,
        is_empty_query: bool,
        empty_query_sorted: &mut [Option<CachedOrder>; 4],
        empty_query_generation: u64,
        today: i32,
    ) -> (r: (Vec<SearchResult>, usize))
        requires
            volumes.wf(),
            old(self).wf(),
        ensures
            ({
                let shelf = volume_map::shelf_of(volumes@, vol_names@);
                let kept = old(sorted_indices)@;
                let blank_kept = sort_cache::slot_models(old(empty_query_sorted)@);
                let order = old(self).order_used(
                    shelf,
                    today,
                    sort_by,
                    kept,
                    is_empty_query,
                    blank_kept,
                    empty_query_generation,
                );
                &&& (rows::result_models(r.0@), r.1 as int) == old(self).page_read(
                    shelf,
                    today,
                    sort_by,
                    sort_direction,
                    start as int,
                    end as int,
                    order,
                )
                &&& final(sorted_indices)@ == old(self).kept_after(
                    sort_by,
                    kept,
                    is_empty_query,
                    order,
                )
                &&& sort_cache::slot_models(final(empty_query_sorted)@) == old(
                    self,
                ).blank_kept_after(
                    sort_by,
                    is_empty_query,
                    blank_kept,
                    empty_query_generation,
                    order,
                )
                &&& final(self).active_base_count == old(self).count_after(shelf, today)
            }),
            final(self).wf(),
            final(self).same_but_count(*old(self)),
            final(self).created_at == old(self).created_at,
    {
        let ghost shelf_model = volume_map::shelf_of(volumes@, vol_names@);
        let ghost s = self.scene(shelf_model, today);
        let ghost kept = sorted_indices@;
        let ghost blank_kept = sort_cache::slot_models(empty_query_sorted@);
        let unchanged = self.delta.deleted_ids.is_empty() && self.delta.modified.is_empty();
        if !unchanged {
            self.ensure_active_base_count(volumes, vol_names, today);
        }
        let shelf = Shelf::new(volumes, vol_names);
        let base_n: usize = if unchanged {
            self.count_places(&shelf, today)
        } else {
            self.active_base_count.unwrap_or(0)
        };
        assert(self.scene(shelf_model, today) == s);
        assert(base_n == old(self).base_count(shelf_model, today));
        let delta_rows = self.delta_table(&shelf, today);
        let delta = sort_rows(&delta_rows, sort_by);
        assert(rows::row_views(delta_rows@).len() == delta_rows@.len());
        let ghost order_model = old(self).order_used(
            shelf_model,
            today,
            sort_by,
            kept,
            is_empty_query,
            blank_kept,
            empty_query_generation,
        );
        self.keep_order(
            &shelf,
            sort_by,
            sorted_indices,
            is_empty_query,
            empty_query_sorted,
            empty_query_generation,
            today,
        );
        let slot: usize = sort_by_slot(sort_by);
        let order: &Vec<u32> = if is_empty_query {
            &empty_query_sorted[slot].as_ref().unwrap().order
        } else {
            sorted_indices.order(sort_by)
        };
        assert(order@ == order_model);
        let total: usize = base_n.saturating_add(delta.len());
        assert(total == old(self).claimed(shelf_model, today));
        self.page_of(&shelf, order, &delta, sort_by, sort_direction, start, end, total, today)
    }

    /// Sorts the matched files and keeps their order, where it is not kept.
    fn keep_order(
        &self,
        shelf: &Shelf,
        sort_by: SortBy,
        sorted_indices: &mut SortedIndicesCache,
        is_empty_query: bool,
        empty_query_sorted: &mut [Option<CachedOrder>; 4],
        empty_query_generation: u64,
        today: i32,
    )
        requires
            shelf.wf(),
            self.wf(),
        ensures
            ({
                let kept = old(sorted_indices)@;
                let blank_kept = sort_cache::slot_models(old(empty_query_sorted)@);
                let order = self.order_used(
                    shelf@,
                    today,
                    sort_by,
                    kept,
                    is_empty_query,
                    blank_kept,
                    empty_query_generation,
                );
                let hit = self.order_kept(
                    sort_by,
                    kept,
                    is_empty_query,
                    blank_kept,
                    empty_query_generation,
                );
                &&& final(sorted_indices)@ == (if is_empty_query {
                    kept
                } else if hit {
                    kept.touched(sort_by)
                } else {
                    kept.with_order(sort_by, self.base.matched_generation, order)
                })
                &&& sort_cache::slot_models(final(empty_query_sorted)@) == (if is_empty_query
                    && !hit {
                    blank_kept.update(
                        sort_cache::slot_of(sort_by),
                        Some(
                            sort_cache::OrderModel { generation: empty_query_generation, order },
                        ),
                    )
                } else {
                    blank_kept
                })
                &&& is_empty_query ==> {
                    &&& final(empty_query_sorted)@[sort_cache::slot_of(sort_by)] matches Some(c)
                    &&& c.order@ == order
                }
                &&& !is_empty_query ==> {
                    &&& final(sorted_indices)@.slots[sort_cache::slot_of(sort_by)] matches Some(c)
                    &&& c.order == order
                }
            }),
    {
        let ghost kept = sorted_indices@;
        let ghost blank_kept = sort_cache::slot_models(empty_query_sorted@);
        let slot: usize = sort_by_slot(sort_by);
        if is_empty_query {
            let hit = match &empty_query_sorted[slot] {
                Some(c) => c.generation == empty_query_generation,
                None => false,
            };
            if !hit {
                let sorted = self.sort_base(shelf, sort_by, today);
                empty_query_sorted[slot] = Some(
                    CachedOrder { generation: empty_query_generation, order: sorted },
                );
                assert(sort_cache::slot_models(empty_query_sorted@) =~= blank_kept.update(
                    slot as int,
                    Some(
                        sort_cache::OrderModel {
                            generation: empty_query_generation,
                            order: sorted@,
                        },
                    ),
                ));
            }
        } else {
            let generation: u64 = self.base.matched_generation;
            if !sorted_indices.get(sort_by, generation) {
                let sorted = self.sort_base(shelf, sort_by, today);
                proof {
                    sort_cache::kept_order_is_found(
                        kept,
                        sort_by,
                        generation,
                        sorted@,
                        generation,
                    );
                }
                sorted_indices.insert(sort_by, generation, sorted);
            }
        }
    }

    /// The page `start` to `end` of the merged list, where it is taken to have `claimed`
    /// rows, and how many rows it has.
    fn page_of<'a>(
        &self,
        shelf: &Shelf<'a>,
        order: &Vec<u32>,
        delta: &Vec<Row<'a>>,
        sort_by: SortBy,
        sort_direction: SortDirection,
        start: usize,
        end: usize,
        claimed: usize,
        today: i32,
    ) -> (r: (Vec<SearchResult>, usize))
        requires
            shelf.wf(),
        ensures
            ({
                let shown = rows::merged(
                    sort_by,
                    sort_direction,
                    self.scene(shelf@, today).active_rows(order@),
                    rows::row_views(delta@),
                );
                &&& rows::result_models(r.0@) == rows::row_results(
                    rows::page_rows(
                        shown,
                        claimed as int,
                        sort_direction,
                        start as int,
                        end as int,
                    ),
                )
                &&& r.1 == rows::page_total(
                    shown.len() as int,
                    claimed as int,
                    sort_direction,
                    start as int,
                    end as int,
                )
            }),
    {
        let (from, to): (usize, usize) = match sort_direction {
            SortDirection::Ascending => (
                if start < claimed {
                    start
                } else {
                    claimed
                },
                if end < claimed {
                    end
                } else {
                    claimed
                },
            ),
            SortDirection::Descending => {
                let last: usize = if end > start {
                    end
                } else {
                    start
                };
                let low: usize = claimed.saturating_sub(last);
                let high: usize = claimed.saturating_sub(start);
                (
                    low,
                    if high > low {
                        high
                    } else {
                        low
                    },
                )
            },
        };
        assert((from as int, to as int) == rows::window(
            claimed as int,
            sort_direction,
            start as int,
            end as int,
        ));
        if from >= to {
            let results: Vec<SearchResult> = Vec::new();
            proof {
                assert(rows::result_models(results@) =~= seq![]);
                reveal(Seq::filter_map);
            }
            return (results, claimed);
        }
        let first: usize;
        let last: usize;
        let (results, read) = match sort_direction {
            SortDirection::Ascending => {
                first = from;
                last = to;
                self.page_up(shelf, order, delta, sort_by, first, last, today)
            },
            SortDirection::Descending => {
                first = claimed - to;
                last = claimed - from;
                self.page_down(shelf, order, delta, sort_by, first, last, today)
            },
        };
        if read < last {
            (results, claimed - (last - read))
        } else {
            (results, claimed)
        }
    }
}

/// Whether a stored file passes the query.
pub fn entry_matches(query: &SearchQuery, table: &crate::path_table::PathTable, f: &FileEntry) -> (r:
    bool)
    ensures
        r == query@.accepts_entry(
            f@,
            scene::sought_path(query@, table@.file_path(f.path_id, f.name@)),
        ),
{
    if query.path_filter.is_some() {
        let path = table.resolve_file_path(f.path_id, f.name.as_str());
        query.matches_entry(f, path.as_str())
    } else {
        let path = String::new();
        query.matches_entry(f, path.as_str())
    }
}

} // verus!
