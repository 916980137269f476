//! Bringing the last search up to date after a volume was walked again and its files
//! moved.

use crate::outside;
use crate::paging::entry_matches;
use crate::query::{QueryModel, SearchQuery};
use crate::scene;
use crate::search::FileEntry;
use crate::search_cache;
use crate::search_cache::SearchCache;
use crate::sort_cache;
use crate::soundness;
use crate::sort_cache::{pack_matched, unpack_matched};
use crate::text::blank;
use crate::volume_manager;
use crate::volume_manager::VolumeManager;
use crate::volume_map;
use crate::volume_map::{ShelfModel, VolumeMap};
use crate::volume_monitor::VolumeMonitor;
use vstd::prelude::*;

verus! {

broadcast use vstd::string::group_string_axioms;

/// What walking a volume again found.
#[derive(Debug)]
pub struct IncrementalResult {
    pub added: usize,
    pub updated: usize,
    pub removed: usize,
    pub total: usize,
    /// For each place that a file had, the place that it has now; nothing where it is
    /// gone.
    pub index_map: Vec<Option<usize>>,
    /// The places of the files that were added.
    pub new_file_indices: Vec<usize>,
}

impl IncrementalResult {
    /// Whether every file is where it was, and none was added.
    pub open spec fn is_identity(&self) -> bool {
        &&& self.new_file_indices@.len() == 0
        &&& forall|i: int|
            0 <= i < self.index_map@.len() ==> #[trigger] self.index_map@[i] == Some(i as usize)
    }

    /// Whether every file is where it was, and none was added.
    fn moved_nothing(&self) -> (r: bool)
        ensures
            r == self.is_identity(),
    {
        if self.new_file_indices.len() != 0 {
            return false;
        }
        let mut i: usize = 0;
        while i < self.index_map.len()
            invariant
                i <= self.index_map@.len(),
                forall|k: int|
                    0 <= k < i ==> #[trigger] self.index_map@[k] == Some(k as usize),
            decreases self.index_map@.len() - i,
        {
            let stays = match self.index_map[i] {
                Some(n) => n == i,
                None => false,
            };
            if !stays {
                assert(self.index_map@[i as int] != Some(i));
                return false;
            }
            i += 1;
        }
        true
    }
}

/// The packed position that a matched file has after the files of volume `vol` moved,
/// where it is still there.
pub open spec fn position_after(vol: u8, index_map: Seq<Option<usize>>, p: u32) -> Option<u32> {
    if sort_cache::volume_of(p) != vol {
        Some(p)
    } else if sort_cache::file_of(p) < index_map.len() {
        match index_map[sort_cache::file_of(p) as int] {
            Some(n) => Some(sort_cache::packed(vol, n as u32)),
            None => None,
        }
    } else {
        None
    }
}

/// The path of a file, by the table of directories of volume `vol`; none where the volume
/// is not at hand.
pub open spec fn path_by_number(shelf: Seq<ShelfModel>, vol: u8, f: FileEntry) -> Seq<char> {
    match volume_map::volume_at(shelf, vol) {
        Some(m) => m.path_of(f),
        None => seq![],
    }
}

/// The packed position of the file `files[n]` of volume `vol`, where it passes the query
/// and is of the kind that is asked for.
pub open spec fn new_position(
    shelf: Seq<ShelfModel>,
    vol: u8,
    files: Seq<FileEntry>,
    query: Option<QueryModel>,
    files_only: bool,
    directories_only: bool,
    n: usize,
) -> Option<u32> {
    if n < files.len() && (query matches Some(q) ==> q.accepts_entry(
        files[n as int]@,
        scene::sought_path(q, path_by_number(shelf, vol, files[n as int])),
    )) && scene::is_asked_for(
        query,
        files_only,
        directories_only,
        files[n as int].is_directory,
    ) {
        Some(sort_cache::packed(vol, n as u32))
    } else {
        None
    }
}

/// What is matched after the files of volume `vol` moved: what was matched, where it is
/// now, and the added files that the search takes.
pub open spec fn matched_after(
    cache: SearchCache,
    shelf: Seq<ShelfModel>,
    vol: u8,
    files: Option<Seq<FileEntry>>,
    result: IncrementalResult,
    today: i32,
) -> Seq<u32> {
    cache.base.matched@.filter_map(|p: u32| position_after(vol, result.index_map@, p)) + match files {
        Some(files) => result.new_file_indices@.filter_map(
            |n: usize|
                new_position(
                    shelf,
                    vol,
                    files,
                    search_cache::query_model(cache.query@, today),
                    cache.files_only,
                    cache.directories_only,
                    n,
                ),
        ),
        None => seq![],
    }
}

/// The files of an optional volume.
pub open spec fn files_in(m: Option<&VolumeMonitor>) -> Option<Seq<FileEntry>> {
    match m {
        Some(m) => Some(m.files@),
        None => None,
    }
}

impl SearchCache {
    /// Moves what was matched after the files of volume `vol` moved.
    fn move_matched(&self, vol: u8, index_map: &Vec<Option<usize>>) -> (r: Vec<u32>)
        ensures
            r@ == self.base.matched@.filter_map(|p: u32| position_after(vol, index_map@, p)),
    {
        let ghost matched = self.base.matched@;
        let ghost f = |p: u32| position_after(vol, index_map@, p);
        let mut r: Vec<u32> = Vec::new();
        let mut i: usize = 0;
        assert(matched.take(0) =~= seq![]);
        while i < self.base.matched.len()
            invariant
                i <= self.base.matched@.len(),
                matched == self.base.matched@,
                f == (|p: u32| position_after(vol, index_map@, p)),
                r@ =~= matched.take(i as int).filter_map(f),
            decreases self.base.matched@.len() - i,
        {
            proof {
                matched.lemma_filter_map_take_succ(f, i as int);
            }
            let p: u32 = self.base.matched[i];
            let (v, k) = unpack_matched(p);
            if v != vol {
                r.push(p);
            } else if (k as usize) < index_map.len() {
                if let Some(n) = index_map[k as usize] {
                    r.push(pack_matched(v, #[verifier::truncate] (n as u32)));
                }
            }
            i += 1;
        }
        assert(matched.take(i as int) =~= matched);
        r
    }

    /// The positions of the added files of volume `vol` that the search takes.
    fn match_added(
        &self,
        volumes: &VolumeMap,
        vol_names: &Vec<String>,
        files: &Vec<FileEntry>,
        vol: u8,
        places: &Vec<usize>,
        today: i32,
    ) -> (r: Vec<u32>)
        requires
            volumes.wf(),
        ensures
            r@ == places@.filter_map(
                |n: usize|
                    new_position(
                        volume_map::shelf_of(volumes@, vol_names@),
                        vol,
                        files@,
                        search_cache::query_model(self.query@, today),
                        self.files_only,
                        self.directories_only,
                        n,
                    ),
            ),
    {
        let ghost shelf = volume_map::shelf_of(volumes@, vol_names@);
        let ghost model = search_cache::query_model(self.query@, today);
        let query: Option<SearchQuery> = if blank(self.query.as_str()) {
            None
        } else {
            Some(SearchQuery::parse_on(self.query.as_str(), today))
        };
        let monitor: Option<&VolumeMonitor> = if (vol as usize) < vol_names.len() {
            volumes.get(vol_names[vol as usize].as_str())
        } else {
            None
        };
        let ghost f = |n: usize|
            new_position(
                shelf,
                vol,
                files@,
                model,
                self.files_only,
                self.directories_only,
                n,
            );
        let mut r: Vec<u32> = Vec::new();
        let mut i: usize = 0;
        assert(places@.take(0) =~= seq![]);
        while i < places.len()
            invariant
                i <= places@.len(),
                f == (|n: usize|
                    new_position(
                        shelf,
                        vol,
                        files@,
                        model,
                        self.files_only,
                        self.directories_only,
                        n,
                    )),
                crate::searching::query_in(query) == model,
                match monitor {
                    Some(m) => volume_map::volume_at(shelf, vol) == Some(*m),
                    None => volume_map::volume_at(shelf, vol) is None,
                },
                r@ =~= places@.take(i as int).filter_map(f),
            decreases places@.len() - i,
        {
            proof {
                places@.lemma_filter_map_take_succ(f, i as int);
            }
            let n: usize = places[i];
            i += 1;
            if n >= files.len() {
                continue;
            }
            let file = &files[n];
            if let Some(q) = &query {
                let passes = match monitor {
                    Some(m) => entry_matches(q, &m.path_table, file),
                    None => {
                        let none = String::new();
                        q.matches_entry(file, none.as_str())
                    },
                };
                if !passes {
                    continue;
                }
            }
            let overrides = match &query {
                Some(q) => q.path_filter_dir_only,
                None => false,
            };
            if (self.files_only && file.is_directory && !overrides) || (self.directories_only
                && !file.is_directory) {
                continue;
            }
            r.push(pack_matched(vol, #[verifier::truncate] (n as u32)));
        }
        assert(places@.take(i as int) =~= places@);
        r
    }

    /// Brings the search up to date after the files of volume `vol` moved, and gives the
    /// number of matched files.
    pub fn apply_incremental_to_cache(
        &mut self,
        volumes: &VolumeMap,
        vol_names: &Vec<String>,
        monitor: Option<&VolumeMonitor>,
        vol: u8,
        result: &IncrementalResult,
        today: i32,
    ) -> (r: usize)
        requires
            volumes.wf(),
            old(self).wf(),
            old(self).base.matched@.len() + result.new_file_indices@.len() <= u32::MAX,
        ensures
            final(self).wf(),
            r == final(self).base.matched@.len(),
            result.is_identity() ==> *final(self) == *old(self),
            !result.is_identity() ==> {
                &&& final(self).base.matched@ == matched_after(
                    *old(self),
                    volume_map::shelf_of(volumes@, vol_names@),
                    vol,
                    files_in(monitor),
                    *result,
                    today,
                )
                &&& *final(self) == (SearchCache {
                    active_base_count: None,
                    base_file_bitvec: None,
                    base: search_cache::BaseCache {
                        matched: final(self).base.matched,
                        matched_generation: old(self).base.matched_generation.wrapping_add(1),
                    },
                    ..*old(self)
                })
            },
    {
        if result.moved_nothing() {
            return self.base.matched.len();
        }
        let ghost shelf = volume_map::shelf_of(volumes@, vol_names@);
        let mut matched = self.move_matched(vol, &result.index_map);
        if let Some(m) = monitor {
            let mut found = self.match_added(
                volumes,
                vol_names,
                &m.files,
                vol,
                &result.new_file_indices,
                today,
            );
            matched.append(&mut found);
        }
        proof {
            assert(matched@ =~= matched_after(
                *self,
                shelf,
                vol,
                files_in(monitor),
                *result,
                today,
            ));
            crate::merging::filter_map_bounded(
                self.base.matched@,
                |p: u32| position_after(vol, result.index_map@, p),
            );
            if monitor is Some {
                crate::merging::filter_map_bounded(
                    result.new_file_indices@,
                    |n: usize|
                        new_position(
                            shelf,
                            vol,
                            monitor->0.files@,
                            search_cache::query_model(self.query@, today),
                            self.files_only,
                            self.directories_only,
                            n,
                        ),
                );
            }
        }
        self.base.matched = matched;
        self.invalidate_base_count();
        self.base.matched.len()
    }
}

impl VolumeManager {
    /// Whether `after` and `r` are left and given when the last search is brought up to
    /// date on the day `today`.
    pub open spec fn was_brought_up(
        &self,
        after: VolumeManager,
        drive: Seq<char>,
        result: IncrementalResult,
        today: i32,
        r: usize,
    ) -> bool {
        if !self.volume_index@.contains_key(drive) || self.search_cache is None {
            r == 0 && after == *self
        } else {
            let before = self.search_cache->0;
            let vol = self.volume_index@[drive];
            &&& after.search_cache matches Some(c)
            &&& r == c.base.matched@.len()
            &&& c.base.matched@ == (if result.is_identity() {
                before.base.matched@
            } else {
                matched_after(
                    before,
                    self.shelf(),
                    vol,
                    if self.volumes@.contains_key(drive) {
                        Some(self.volumes@[drive].files@)
                    } else {
                        None
                    },
                    result,
                    today,
                )
            })
            &&& c.delta == before.delta
            &&& c.query == before.query
            &&& c.files_only == before.files_only
            &&& c.directories_only == before.directories_only
            &&& c.created_at == before.created_at
            &&& result.is_identity() ==> c == before
            &&& !result.is_identity() ==> c.active_base_count is None && c.base_file_bitvec is None
            &&& after.cache_generation == c.base.matched_generation
            &&& after.sorted_indices_map@ == sort_cache::CacheModel::empty()
            &&& after.blank_orders() == volume_manager::no_orders()
            &&& after.empty_query_generation == self.empty_query_generation.wrapping_add(1)
            &&& after.same_request(*self)
            &&& after.same_volumes(*self)
        }
    }

    /// Brings the last search up to date after a volume was walked again, on the day
    /// `today`, and gives the number of matched files; 0 where there is no search or no
    /// such volume.
    pub fn apply_incremental_on(
        &mut self,
        drive_letter: &str,
        result: &IncrementalResult,
        today: i32,
    ) -> (r: usize)
        requires
            old(self).wf(),
            old(self).room_for(*result),
        ensures
            final(self).wf(),
            old(self).numbered() ==> final(self).numbered(),
            old(self).was_brought_up(*final(self), drive_letter@, *result, today, r),
            old(self).stands() ==> final(self).stands(),
    {
        let vol: u8 = match self.volume_index.get(drive_letter) {
            Some(i) => *i,
            None => {
                return 0;
            },
        };
        if self.search_cache.is_none() {
            return 0;
        }
        let mut cache = self.search_cache.take().unwrap();
        let monitor = self.volumes.get(drive_letter);
        let n: usize = cache.apply_incremental_to_cache(
            &self.volumes,
            &self.vol_names,
            monitor,
            vol,
            result,
            today,
        );
        self.cache_generation = cache.base.matched_generation;
        self.search_cache = Some(cache);
        self.sorted_indices_map.clear();
        self.empty_query_generation = self.empty_query_generation.wrapping_add(1);
        self.empty_query_sorted = [None, None, None, None];
        assert(self.blank_orders() =~= volume_manager::no_orders());
        proof {
            if old(self).stands() {
                soundness::same_stands(*old(self), *self);
            }
        }
        n
    }

    /// Whether the matched files and the added ones can be numbered.
    pub open spec fn room_for(&self, result: IncrementalResult) -> bool {
        self.search_cache matches Some(c) ==> c.base.matched@.len()
            + result.new_file_indices@.len() <= u32::MAX
    }

    /// Brings the last search up to date after a volume was walked again, by the clock,
    /// and gives the number of matched files.
    pub fn apply_incremental(&mut self, drive_letter: &str, result: &IncrementalResult) -> (r: usize)
        requires
            old(self).wf(),
            old(self).room_for(*result),
        ensures
            final(self).wf(),
            old(self).numbered() ==> final(self).numbered(),
            exists|today: i32|
                old(self).was_brought_up(*final(self), drive_letter@, *result, today, r),
            old(self).stands() ==> final(self).stands(),
    {
        let today: i32 = outside::today_from_ce();
        self.apply_incremental_on(drive_letter, result, today)
    }
}

} // verus!
