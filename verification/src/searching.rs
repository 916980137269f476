//! Searching all volumes, and reading pages of what was found.

use crate::outside;
use crate::outside::{par_sift, Sift};
use crate::paging::entry_matches;
use crate::query::{QueryModel, SearchQuery};
use crate::rows;
use crate::scene;
use crate::search::{FileEntry, SearchOptions, SearchResult, SortBy, SortDirection};
use crate::search_cache;
use crate::search_cache::{DeltaCache, SearchCache, CACHE_TTL_SECS};
use crate::sort_cache;
use crate::sort_cache::pack_matched;
use crate::text;
use crate::text::{blank, same_text};
use crate::volume_manager::VolumeManager;
use crate::volume_map::VolumeSlot;
use crate::volume_monitor::VolumeMonitor;
use std::time::Instant;
use vstd::prelude::*;

verus! {

broadcast use vstd::string::group_string_axioms;

/// The number of results that a search gives at once.
pub const FIRST_PAGE: usize = 50;

/// Whether a search takes a file: it passes the query, where that is not blank, and is
/// of the kind that is asked for. A query for directories overrides `files_only`.
pub open spec fn takes(
    query: Option<QueryModel>,
    files_only: bool,
    directories_only: bool,
    path: Seq<char>,
    f: FileEntry,
) -> bool {
    &&& query matches Some(q) ==> q.accepts_entry(f@, scene::sought_path(q, path))
    &&& scene::is_asked_for(query, files_only, directories_only, f.is_directory)
}

/// The packed position of the file `f` at place `i` of volume `vol`, where a search
/// takes it.
pub open spec fn found_at(
    m: VolumeMonitor,
    vol: u8,
    query: Option<QueryModel>,
    files_only: bool,
    directories_only: bool,
    i: int,
    f: FileEntry,
) -> Option<u32> {
    if takes(query, files_only, directories_only, m.path_of(f), f) {
        Some(sort_cache::packed(vol, i as u32))
    } else {
        None
    }
}

/// The packed positions of the files of a volume that a search takes.
pub open spec fn found_in(
    m: VolumeMonitor,
    vol: u8,
    query: Option<QueryModel>,
    files_only: bool,
    directories_only: bool,
) -> Seq<u32> {
    Seq::new(m.files@.len(), |i: int| i).filter_map(
        |i: int| found_at(m, vol, query, files_only, directories_only, i, m.files@[i]),
    )
}

/// The packed positions of all files that a search takes.
pub open spec fn found(
    slots: Seq<VolumeSlot>,
    numbers: Map<Seq<char>, u8>,
    query: Option<QueryModel>,
    files_only: bool,
    directories_only: bool,
) -> Seq<u32>
    decreases slots.len(),
{
    if slots.len() == 0 {
        seq![]
    } else {
        found(slots.drop_last(), numbers, query, files_only, directories_only) + found_in(
            slots.last().monitor,
            numbers[slots.last().name@],
            query,
            files_only,
            directories_only,
        )
    }
}

/// What a search asks of the files of one volume.
pub struct Sieve<'a> {
    pub monitor: &'a VolumeMonitor,
    pub vol: u8,
    pub query: &'a Option<SearchQuery>,
    pub files_only: bool,
    pub directories_only: bool,
}

/// The model of a query that may be blank.
pub open spec fn query_in(q: Option<SearchQuery>) -> Option<QueryModel> {
    match q {
        Some(q) => Some(q@),
        None => None,
    }
}

impl<'a> Sift<FileEntry, u32, u32> for Sieve<'a> {
    open spec fn model(&self, r: u32) -> u32 {
        r
    }

    open spec fn finds(&self, i: int, x: FileEntry) -> Option<u32> {
        found_at(
            *self.monitor,
            self.vol,
            query_in(*self.query),
            self.files_only,
            self.directories_only,
            i,
            x,
        )
    }

    fn sift(&self, i: usize, x: &FileEntry) -> (r: Option<u32>) {
        let overrides = match self.query {
            Some(q) => {
                if !entry_matches(q, &self.monitor.path_table, x) {
                    return None;
                }
                q.path_filter_dir_only
            },
            None => false,
        };
        if !overrides && self.files_only && x.is_directory {
            return None;
        }
        if self.directories_only && !x.is_directory {
            return None;
        }
        Some(pack_matched(self.vol, #[verifier::truncate] (i as u32)))
    }
}

/// The packed positions of the files of volume number `vol` that a search takes.
pub(crate) fn sift_volume(
    monitor: &VolumeMonitor,
    vol: u8,
    query: &Option<SearchQuery>,
    files_only: bool,
    directories_only: bool,
) -> (r: Vec<u32>)
    ensures
        r@ == found_in(*monitor, vol, query_in(*query), files_only, directories_only),
{
    let sieve = Sieve { monitor, vol, query, files_only, directories_only };
    let r = par_sift(&monitor.files, &sieve);
    proof {
        let m = *monitor;
        let model = query_in(*query);
        let a = |k: int| sieve.finds(k, m.files@[k]);
        let b = |k: int| found_at(m, vol, model, files_only, directories_only, k, m.files@[k]);
        assert(a =~= b);
        assert(r@.map_values(|v: u32| sieve.model(v)) =~= r@);
    }
    r
}

/// A search finds no more files than there are.
pub proof fn found_bounded(
    slots: Seq<VolumeSlot>,
    numbers: Map<Seq<char>, u8>,
    query: Option<QueryModel>,
    files_only: bool,
    directories_only: bool,
)
    ensures
        found(slots, numbers, query, files_only, directories_only).len()
            <= crate::merging::total_files(slots),
    decreases slots.len(),
{
    if slots.len() > 0 {
        found_bounded(slots.drop_last(), numbers, query, files_only, directories_only);
        let m = slots.last().monitor;
        let vol = numbers[slots.last().name@];
        crate::merging::filter_map_bounded(
            Seq::new(m.files@.len(), |i: int| i),
            |i: int| found_at(m, vol, query, files_only, directories_only, i, m.files@[i]),
        );
    }
}

/// What is found depends on the names, files and paths of the volumes and on their numbers
/// alone.
pub proof fn found_same(
    a: Seq<VolumeSlot>,
    b: Seq<VolumeSlot>,
    a_numbers: Map<Seq<char>, u8>,
    b_numbers: Map<Seq<char>, u8>,
    query: Option<QueryModel>,
    files_only: bool,
    directories_only: bool,
)
    requires
        a.len() == b.len(),
        forall|j: int|
            0 <= j < a.len() ==> {
                &&& (#[trigger] a[j]).name@ == b[j].name@
                &&& a_numbers[a[j].name@] == b_numbers[a[j].name@]
                &&& a[j].monitor.files@ == b[j].monitor.files@
                &&& forall|i: int|
                    0 <= i < a[j].monitor.files@.len() ==> #[trigger] a[j].monitor.path_of(
                        a[j].monitor.files@[i],
                    ) == b[j].monitor.path_of(a[j].monitor.files@[i])
            },
    ensures
        found(a, a_numbers, query, files_only, directories_only) == found(
            b,
            b_numbers,
            query,
            files_only,
            directories_only,
        ),
    decreases a.len(),
{
    if a.len() > 0 {
        let (c, d) = (a.drop_last(), b.drop_last());
        assert forall|j: int| 0 <= j < c.len() implies {
            &&& (#[trigger] c[j]).name@ == d[j].name@
            &&& a_numbers[c[j].name@] == b_numbers[c[j].name@]
            &&& c[j].monitor.files@ == d[j].monitor.files@
            &&& forall|i: int|
                0 <= i < c[j].monitor.files@.len() ==> #[trigger] c[j].monitor.path_of(
                    c[j].monitor.files@[i],
                ) == d[j].monitor.path_of(c[j].monitor.files@[i])
        } by {
            assert(a[j] == c[j] && b[j] == d[j]);
        }
        found_same(c, d, a_numbers, b_numbers, query, files_only, directories_only);
        let n = a.len() - 1;
        let (m, k) = (a[n].monitor, b[n].monitor);
        let vol = a_numbers[a[n].name@];
        let places = Seq::new(m.files@.len(), |i: int| i);
        let f = |i: int| found_at(m, vol, query, files_only, directories_only, i, m.files@[i]);
        let g = |i: int| found_at(k, vol, query, files_only, directories_only, i, k.files@[i]);
        assert forall|i: int| 0 <= i < places.len() implies f(#[trigger] places[i]) == g(
            places[i],
        ) by {
            assert(m.path_of(m.files@[i]) == k.path_of(m.files@[i]));
        }
        crate::seqs::filter_map_same(places, f, g);
    }
}

/// No position is found twice, where the volumes have different numbers and their files can
/// be numbered in positions.
pub proof fn found_once(
    slots: Seq<VolumeSlot>,
    numbers: Map<Seq<char>, u8>,
    query: Option<QueryModel>,
    files_only: bool,
    directories_only: bool,
)
    requires
        forall|i: int, j: int|
            0 <= i < j < slots.len() ==> numbers[(#[trigger] slots[i]).name@] != numbers[(
            #[trigger] slots[j]).name@],
        forall|j: int|
            0 <= j < slots.len() ==> (#[trigger] slots[j]).monitor.files@.len() <= 0x100_0000,
    ensures
        found(slots, numbers, query, files_only, directories_only).no_duplicates(),
    decreases slots.len(),
{
    if slots.len() > 0 {
        let init = slots.drop_last();
        let n = slots.len() - 1;
        assert forall|i: int, j: int| 0 <= i < j < init.len() implies numbers[(
        #[trigger] init[i]).name@] != numbers[(#[trigger] init[j]).name@] by {
            assert(init[i] == slots[i] && init[j] == slots[j]);
        }
        assert forall|j: int| 0 <= j < init.len() implies (
        #[trigger] init[j]).monitor.files@.len() <= 0x100_0000 by {
            assert(init[j] == slots[j]);
        }
        found_once(init, numbers, query, files_only, directories_only);
        let m = slots[n].monitor;
        let vol = numbers[slots[n].name@];
        let places = Seq::new(m.files@.len(), |i: int| i);
        let pick = |i: int| found_at(m, vol, query, files_only, directories_only, i, m.files@[i]);
        assert forall|i: int, j: int|
            places.contains(i) && places.contains(j) && #[trigger] pick(i) is Some && pick(i)
                == #[trigger] pick(j) implies i == j by {
            sort_cache::unpacking_undoes_packing(vol, i as u32);
            sort_cache::unpacking_undoes_packing(vol, j as u32);
        }
        crate::seqs::filter_map_once(places, pick);
        let before = found(init, numbers, query, files_only, directories_only);
        let here = found_in(m, vol, query, files_only, directories_only);
        let all = found(slots, numbers, query, files_only, directories_only);
        assert forall|i: int, j: int| 0 <= i < j < all.len() implies all[i] != all[j] by {
            if i < before.len() && j >= before.len() {
                let p = all[i];
                assert(before[i] == p);
                assert(before.contains(p));
                let r = found_is_taken(init, numbers, query, files_only, directories_only, p);
                assert(init[r.0] == slots[r.0]);
                assert(numbers[slots[r.0].name@] != numbers[slots[n].name@]);
                let q = all[j];
                assert(here[j - before.len()] == q);
                assert(here.contains(q));
                places.lemma_filter_map_contains(pick, q);
            }
        }
    }
}

/// Every file that a search takes is found.
pub proof fn taken_is_found(
    slots: Seq<VolumeSlot>,
    numbers: Map<Seq<char>, u8>,
    query: Option<QueryModel>,
    files_only: bool,
    directories_only: bool,
    k: int,
    i: int,
)
    requires
        0 <= k < slots.len(),
        0 <= i < slots[k].monitor.files@.len(),
        takes(
            query,
            files_only,
            directories_only,
            slots[k].monitor.path_of(slots[k].monitor.files@[i]),
            slots[k].monitor.files@[i],
        ),
    ensures
        found(slots, numbers, query, files_only, directories_only).contains(
            sort_cache::packed(numbers[slots[k].name@], i as u32),
        ),
    decreases slots.len(),
{
    let n = slots.len() - 1;
    let init = slots.drop_last();
    let before = found(init, numbers, query, files_only, directories_only);
    let m = slots[n].monitor;
    let vol = numbers[slots[n].name@];
    let here = found_in(m, vol, query, files_only, directories_only);
    let all = found(slots, numbers, query, files_only, directories_only);
    let p = sort_cache::packed(numbers[slots[k].name@], i as u32);
    if k < n {
        assert(init[k] == slots[k]);
        taken_is_found(init, numbers, query, files_only, directories_only, k, i);
        let j = choose|j: int| 0 <= j < before.len() && before[j] == p;
        assert(all[j] == p);
    } else {
        let pick = |i: int| found_at(m, vol, query, files_only, directories_only, i, m.files@[i]);
        let places = Seq::new(m.files@.len(), |i: int| i);
        crate::seqs::filter_map_has(places, pick, i);
        let j = choose|j: int| 0 <= j < here.len() && here[j] == p;
        assert(all[before.len() + j] == p);
    }
}

/// Every position that is found is that of a file that the search takes.
pub proof fn found_is_taken(
    slots: Seq<VolumeSlot>,
    numbers: Map<Seq<char>, u8>,
    query: Option<QueryModel>,
    files_only: bool,
    directories_only: bool,
    p: u32,
) -> (r: (int, int))
    requires
        found(slots, numbers, query, files_only, directories_only).contains(p),
    ensures
        0 <= r.0 < slots.len(),
        0 <= r.1 < slots[r.0].monitor.files@.len(),
        p == sort_cache::packed(numbers[slots[r.0].name@], r.1 as u32),
        takes(
            query,
            files_only,
            directories_only,
            slots[r.0].monitor.path_of(slots[r.0].monitor.files@[r.1]),
            slots[r.0].monitor.files@[r.1],
        ),
    decreases slots.len(),
{
    let all = found(slots, numbers, query, files_only, directories_only);
    let j = choose|j: int| 0 <= j < all.len() && all[j] == p;
    let n = slots.len() - 1;
    let init = slots.drop_last();
    let before = found(init, numbers, query, files_only, directories_only);
    if j < before.len() {
        assert(before[j] == p);
        assert(before.contains(p));
        let r = found_is_taken(init, numbers, query, files_only, directories_only, p);
        assert(init[r.0] == slots[r.0]);
        r
    } else {
        let m = slots[n].monitor;
        let vol = numbers[slots[n].name@];
        let here = found_in(m, vol, query, files_only, directories_only);
        let pick = |i: int| found_at(m, vol, query, files_only, directories_only, i, m.files@[i]);
        let places = Seq::new(m.files@.len(), |i: int| i);
        assert(here[j - before.len()] == p);
        assert(here.contains(p));
        places.lemma_filter_map_contains(pick, p);
        let i = choose|i: int| #[trigger] places.contains(i) && pick(i) == Some(p);
        (n, i)
    }
}

/// Keys that share a place in the cache sort alike.
proof fn same_slot_same_order(scene: scene::Scene, a: SortBy, b: SortBy)
    requires
        sort_cache::slot_of(a) == sort_cache::slot_of(b),
    ensures
        scene.base_order(a) == scene.base_order(b),
{
    let table = scene.base_rows();
    let f = |i: u32, j: u32| rows::place_leq(table, a, i as int, j as int);
    let g = |i: u32, j: u32| rows::place_leq(table, b, i as int, j as int);
    assert(f =~= g);
}

impl VolumeManager {
    /// The packed positions of all files that a search takes on the given day.
    pub open spec fn found(
        &self,
        query: Seq<char>,
        files_only: bool,
        directories_only: bool,
        today: i32,
    ) -> Seq<u32> {
        found(
            self.volumes.slots@,
            self.volume_index@,
            search_cache::query_model(query, today),
            files_only,
            directories_only,
        )
    }

    /// The packed positions of all files that a search takes, volume by volume.
    fn sift_all(&self, query: &str, files_only: bool, directories_only: bool, today: i32) -> (r: Vec<
        u32,
    >)
        requires
            self.numbered(),
        ensures
            r@ == self.found(query@, files_only, directories_only, today),
    {
        let parsed: Option<SearchQuery> = if blank(query) {
            None
        } else {
            Some(SearchQuery::parse_on(query, today))
        };
        let ghost model = search_cache::query_model(query@, today);
        let ghost slots = self.volumes.slots@;
        let mut all: Vec<u32> = Vec::new();
        let mut i: usize = 0;
        assert(slots.take(0) =~= seq![]);
        while i < self.volumes.slots.len()
            invariant
                i <= slots.len(),
                slots == self.volumes.slots@,
                self.numbered(),
                query_in(parsed) == model,
                all@ == found(
                    slots.take(i as int),
                    self.volume_index@,
                    model,
                    files_only,
                    directories_only,
                ),
            decreases slots.len() - i,
        {
            let slot = &self.volumes.slots[i];
            proof {
                let step = slots.take(i + 1);
                assert(step.drop_last() =~= slots.take(i as int));
                assert(step.last() == slots[i as int]);
            }
            assert(self.volume_index@.contains_key(slots[i as int].name@));
            let vol: u8 = *self.volume_index.get(slot.name.as_str()).unwrap();
            let mut local = sift_volume(
                &slot.monitor,
                vol,
                &parsed,
                files_only,
                directories_only,
            );
            all.append(&mut local);
            i += 1;
        }
        assert(slots.take(i as int) =~= slots);
        all
    }

    /// The order that a page of the last search is taken in.
    pub open spec fn order_used(&self, cache: SearchCache, sort_by: SortBy, today: i32) -> Seq<u32> {
        cache.order_used(
            self.shelf(),
            today,
            sort_by,
            self.sorted_indices_map@,
            text::is_blank(cache.query@),
            self.blank_orders(),
            self.empty_query_generation,
        )
    }

    /// Whether `after` is left when a page was read: the orders are kept, the shown
    /// files may have been counted, and nothing else differs.
    pub open spec fn page_was_read(&self, after: VolumeManager, sort_by: SortBy, today: i32) -> bool {
        &&& self.search_cache matches Some(cache)
        &&& after.search_cache matches Some(c)
        &&& c.same_but_count(cache)
        &&& c.active_base_count == cache.count_after(self.shelf(), today)
        &&& after.sorted_indices_map@ == cache.kept_after(
            sort_by,
            self.sorted_indices_map@,
            text::is_blank(cache.query@),
            self.order_used(cache, sort_by, today),
        )
        &&& after.blank_orders() == cache.blank_kept_after(
            sort_by,
            text::is_blank(cache.query@),
            self.blank_orders(),
            self.empty_query_generation,
            self.order_used(cache, sort_by, today),
        )
        &&& after.cache_generation == self.cache_generation
        &&& after.empty_query_generation == self.empty_query_generation
        &&& after.idle_delta == self.idle_delta
        &&& after.same_volumes(*self)
    }

    /// Reads a page of the last search.
    fn read_page(
        &mut self,
        sort_by: SortBy,
        sort_direction: SortDirection,
        start: usize,
        end: usize,
        today: i32,
    ) -> (r: (Vec<SearchResult>, usize))
        requires
            old(self).wf(),
            old(self).search_cache is Some,
        ensures
            final(self).wf(),
            (rows::result_models(r.0@), r.1 as int) == old(self).search_cache->0.page_read(
                old(self).shelf(),
                today,
                sort_by,
                sort_direction,
                start as int,
                end as int,
                old(self).order_used(old(self).search_cache->0, sort_by, today),
            ),
            old(self).page_was_read(*final(self), sort_by, today),
            final(self).same_request(*old(self)),
    {
        let mut cache = self.search_cache.take().unwrap();
        let is_empty_query = blank(cache.query.as_str());
        let r = cache.get_sorted_slice(
            &self.volumes,
            &self.vol_names,
            sort_by,
            sort_direction,
            start,
            end,
            &mut self.sorted_indices_map,
            is_empty_query,
            &mut self.empty_query_sorted,
            self.empty_query_generation,
            today,
        );
        proof {
            let order = old(self).order_used(old(self).search_cache->0, sort_by, today);
            sort_cache::orders_stay_until(
                old(self).sorted_indices_map@,
                sort_by,
                old(self).cache_generation,
                order,
            );
        }
        self.search_cache = Some(cache);
        r
    }

    /// Whether the last search can be used again: it is of the same query and kinds, and
    /// young enough.
    pub open spec fn can_reuse(&self, query: Seq<char>, options: SearchOptions, age: u64) -> bool {
        &&& self.search_cache matches Some(c)
        &&& age < CACHE_TTL_SECS
        &&& c.query@ == query
        &&& c.files_only == options.files_only
        &&& c.directories_only == options.directories_only
    }

    /// Whether `after` and `r` are left and given by a search on the day `today`, where the
    /// last search is `age` seconds old.
    pub open spec fn was_searched(
        &self,
        after: VolumeManager,
        query: Seq<char>,
        options: SearchOptions,
        age: u64,
        today: i32,
        r: (Vec<SearchResult>, usize),
    ) -> bool {
        &&& after.same_volumes(*self)
        &&& after.last_search_query@ == query
        &&& after.last_search_options == Some(options)
        &&& if self.can_reuse(query, options, age) {
            &&& (rows::result_models(r.0@), r.1 as int) == self.search_cache->0.page_read(
                self.shelf(),
                today,
                options.sort_by,
                options.sort_direction,
                0,
                FIRST_PAGE as int,
                self.order_used(self.search_cache->0, options.sort_by, today),
            )
            &&& self.page_was_read(after, options.sort_by, today)
        } else {
            self.was_searched_anew(after, query, options, today, r)
        }
    }

    /// Whether `after` and `r` are left and given by a search of all volumes on the day
    /// `today`, in which no order that was kept is used. What changed since the volumes were
    /// scanned shows in it too.
    pub open spec fn was_searched_anew(
        &self,
        after: VolumeManager,
        query: Seq<char>,
        options: SearchOptions,
        today: i32,
        r: (Vec<SearchResult>, usize),
    ) -> bool {
        &&& after.search_cache is Some
        &&& after.search_cache->0.uncounted().is_fresh(
            query,
            options.files_only,
            options.directories_only,
            self.found(query, options.files_only, options.directories_only, today),
            after.cache_generation,
            self.held_delta(),
        )
        &&& after.search_cache->0.active_base_count
            == after.search_cache->0.uncounted().count_after(self.shelf(), today)
        &&& after.cache_generation == self.cache_generation.wrapping_add(1)
        &&& after.empty_query_generation == self.empty_query_generation.wrapping_add(1)
        &&& (rows::result_models(r.0@), r.1 as int)
            == after.search_cache->0.uncounted().page_read(
            self.shelf(),
            today,
            options.sort_by,
            options.sort_direction,
            0,
            FIRST_PAGE as int,
            after.search_cache->0.scene(self.shelf(), today).base_order(options.sort_by),
        )
        &&& after.orders_are_current(today)
    }

    /// Whether the orders that pages of the last search are taken in are those of what is
    /// there now, for every key.
    #[verifier::opaque]
    pub open spec fn orders_are_current(&self, today: i32) -> bool {
        self.search_cache matches Some(c) ==> forall|s: SortBy| #[trigger]
            self.order_used(c, s, today) == c.scene(self.shelf(), today).base_order(s)
    }

    /// Reading a page leaves the orders current, so that the next page goes on in the
    /// order of the first, whatever key either is sorted by.
    pub proof fn page_leaves_orders_current(&self, after: VolumeManager, sort_by: SortBy, today: i32)
        requires
            self.page_was_read(after, sort_by, today),
            self.orders_are_current(today),
        ensures
            after.orders_are_current(today),
    {
        reveal(VolumeManager::orders_are_current);
        let c0 = self.search_cache->0;
        let c = after.search_cache->0;
        let blank = text::is_blank(c0.query@);
        let order = self.order_used(c0, sort_by, today);
        let gen = c0.base.matched_generation;
        let scene = c0.scene(self.shelf(), today);
        let kept = self.sorted_indices_map@;
        assert(c.scene(after.shelf(), today) == scene);
        assert(order == scene.base_order(sort_by));
        assert forall|s: SortBy| #[trigger] after.order_used(c, s, today) == scene.base_order(s) by {
            assert(self.order_used(c0, s, today) == scene.base_order(s));
            if sort_cache::slot_of(s) == sort_cache::slot_of(sort_by) {
                same_slot_same_order(scene, s, sort_by);
                if !blank && !kept.hit(sort_by, gen) {
                    sort_cache::kept_order_is_found(kept, sort_by, gen, order, gen);
                }
            } else if !blank && !kept.hit(sort_by, gen) {
                sort_cache::others_stay_or_leave(
                    kept,
                    sort_by,
                    gen,
                    order,
                    sort_cache::slot_of(s),
                );
            }
        }
    }

    /// Searches, by the clock, and gives the first page of the results and their number.
    ///
    /// The clock decides whether the last search is young enough to be used again and
    /// what a relative date in the query means.
    pub fn search_with_options(&mut self, query: &str, options: &SearchOptions) -> (r: (
        Vec<SearchResult>,
        usize,
    ))
        requires
            old(self).wf(),
            old(self).numbered(),
            crate::merging::total_files(old(self).volumes.slots@) <= u32::MAX,
        ensures
            final(self).wf(),
            exists|age: u64, today: i32|
                old(self).was_searched(*final(self), query@, *options, age, today, r),
    {
        let age: u64 = match &self.search_cache {
            Some(c) => outside::seconds_since(&c.created_at),
            None => 0,
        };
        let today: i32 = outside::today_from_ce();
        self.search_on(query, options, age, today)
    }

    /// Whether `after` and `r` are left and given when a page is read on the day `today`,
    /// where the last search is `age` seconds old: nothing where it is too old.
    pub open spec fn slice_was_read(
        &self,
        after: VolumeManager,
        sort_by: SortBy,
        sort_direction: SortDirection,
        start: usize,
        end: usize,
        age: u64,
        today: i32,
        r: Option<(Vec<SearchResult>, usize)>,
    ) -> bool {
        match r {
            Some(page) => {
                &&& self.search_cache is Some
                &&& age < CACHE_TTL_SECS
                &&& (rows::result_models(page.0@), page.1 as int)
                    == self.search_cache->0.page_read(
                    self.shelf(),
                    today,
                    sort_by,
                    sort_direction,
                    start as int,
                    end as int,
                    self.order_used(self.search_cache->0, sort_by, today),
                )
                &&& self.page_was_read(after, sort_by, today)
                &&& after.same_request(*self)
            },
            None => (self.search_cache is None || age >= CACHE_TTL_SECS) && after == *self,
        }
    }

    /// The page `start` to `end` of the last search, on the day `today` and where that
    /// search is `age` seconds old, and the number of results.
    pub fn get_cached_slice_at(
        &mut self,
        sort_by: SortBy,
        sort_direction: SortDirection,
        start: usize,
        end: usize,
        age: u64,
        today: i32,
    ) -> (r: Option<(Vec<SearchResult>, usize)>)
        requires
            old(self).wf(),
        ensures
            final(self).wf(),
            old(self).slice_was_read(
                *final(self),
                sort_by,
                sort_direction,
                start,
                end,
                age,
                today,
                r,
            ),
            old(self).is_sound(today) ==> final(self).is_sound(today),
    {
        if self.search_cache.is_none() || !SearchCache::is_valid_at(age) {
            return None;
        }
        self.refresh_cache(outside::instant_now());
        let page = self.read_page(sort_by, sort_direction, start, end, today);
        proof {
            if old(self).is_sound(today) {
                old(self).page_keeps_sound(*self, sort_by, today);
            }
        }
        Some(page)
    }

    /// The page `start` to `end` of the last search, where that is young enough by the
    /// clock, and the number of results.
    pub fn get_cached_slice(
        &mut self,
        sort_by: SortBy,
        sort_direction: SortDirection,
        start: usize,
        end: usize,
    ) -> (r: Option<(Vec<SearchResult>, usize)>)
        requires
            old(self).wf(),
        ensures
            final(self).wf(),
            exists|age: u64, today: i32|
                old(self).slice_was_read(
                    *final(self),
                    sort_by,
                    sort_direction,
                    start,
                    end,
                    age,
                    today,
                    r,
                ),
    {
        let age: u64 = match &self.search_cache {
            Some(c) => outside::seconds_since(&c.created_at),
            None => 0,
        };
        let today: i32 = outside::today_from_ce();
        self.get_cached_slice_at(sort_by, sort_direction, start, end, age, today)
    }

    /// Searches, on the day `today`, where the last search is `age` seconds old, and gives
    /// the first page of the results and their number.
    ///
    /// A search that can be used again is. Otherwise all volumes are searched anew, and
    /// no order that was kept is used. What changed since the volumes were scanned shows
    /// either way.
    #[verifier::rlimit(40)]
    pub fn search_on(&mut self, query: &str, options: &SearchOptions, age: u64, today: i32) -> (r: (
        Vec<SearchResult>,
        usize,
    ))
        requires
            old(self).wf(),
            old(self).numbered(),
            crate::merging::total_files(old(self).volumes.slots@) <= u32::MAX,
        ensures
            final(self).wf(),
            old(self).was_searched(*final(self), query@, *options, age, today, r),
            old(self).is_sound(today) && old(self).fits() ==> final(self).is_sound(today),
    {
        self.last_search_query = query.to_string();
        self.last_search_options = Some(*options);
        let reuse = match &self.search_cache {
            Some(c) => SearchCache::is_valid_at(age) && same_text(c.query.as_str(), query)
                && c.files_only == options.files_only && c.directories_only
                == options.directories_only,
            None => false,
        };
        if reuse {
            self.refresh_cache(outside::instant_now());
            let r = self.read_page(
                options.sort_by,
                options.sort_direction,
                0,
                FIRST_PAGE,
                today,
            );
            assert(old(self).was_searched(*self, query@, *options, age, today, r));
            proof {
                if old(self).is_sound(today) && old(self).fits() {
                    old(self).search_keeps_sound(*self, query@, *options, age, today, r);
                }
            }
            return r;
        }
        let ghost start = *self;
        let r = self.search_anew(query, options, today);
        assert(start.shelf() == old(self).shelf());
        assert(old(self).was_searched(*self, query@, *options, age, today, r));
        proof {
            if old(self).is_sound(today) && old(self).fits() {
                old(self).search_keeps_sound(*self, query@, *options, age, today, r);
            }
        }
        r
    }

    /// Searches all volumes on the day `today`.
    fn search_anew(&mut self, query: &str, options: &SearchOptions, today: i32) -> (r: (
        Vec<SearchResult>,
        usize,
    ))
        requires
            old(self).wf(),
            old(self).numbered(),
            crate::merging::total_files(old(self).volumes.slots@) <= u32::MAX,
        ensures
            final(self).wf(),
            final(self).same_volumes(*old(self)),
            final(self).same_request(*old(self)),
            old(self).was_searched_anew(*final(self), query@, *options, today, r),
    {
        self.invalidate_search_cache();
        if self.cache_generation == u64::MAX {
            self.sorted_indices_map.clear();
        }
        let matched = self.sift_all(query, options.files_only, options.directories_only, today);
        proof {
            found_bounded(
                self.volumes.slots@,
                self.volume_index@,
                search_cache::query_model(query@, today),
                options.files_only,
                options.directories_only,
            );
        }
        self.cache_generation = self.cache_generation.wrapping_add(1);
        let mut held = DeltaCache::new();
        std::mem::swap(&mut held, &mut self.idle_delta);
        self.search_cache = Some(
            SearchCache::new(
                query,
                options.files_only,
                options.directories_only,
                matched,
                self.cache_generation,
                held,
            ),
        );
        let ghost mid = *self;
        let r = self.read_page(options.sort_by, options.sort_direction, 0, FIRST_PAGE, today);
        proof {
            let c0 = mid.search_cache->0;
            let c = self.search_cache->0;
            assert(c0.scene(mid.shelf(), today) == c.scene(mid.shelf(), today));
            assert(c0.scene(mid.shelf(), today) == c.uncounted().scene(mid.shelf(), today));
            assert forall|s: SortBy| !#[trigger] c0.order_kept(
                s,
                mid.sorted_indices_map@,
                text::is_blank(query@),
                mid.blank_orders(),
                mid.empty_query_generation,
            ) by {
                assert(0 <= sort_cache::slot_of(s) < 4);
            }
            assert(mid.orders_are_current(today)) by {
                reveal(VolumeManager::orders_are_current);
            }
            mid.page_leaves_orders_current(*self, options.sort_by, today);
        }
        r
    }

    /// Lets the last search be good from the moment `now` on.
    fn refresh_cache(&mut self, now: Instant)
        requires
            old(self).wf(),
            old(self).search_cache is Some,
        ensures
            final(self).wf(),
            *final(self) == (VolumeManager {
                search_cache: Some(old(self).search_cache->0.refreshed(now)),
                ..*old(self)
            }),
    {
        let mut cache = self.search_cache.take().unwrap();
        cache.refresh_at(now);
        self.search_cache = Some(cache);
    }
}

} // verus!
