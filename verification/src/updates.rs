//! What full scans, removals and merges leave of the index, and how much memory it
//! takes.

use crate::changes::DeltaModel;
use crate::fid_index;
use crate::fid_index::build_index;
use crate::merging;
use crate::outside;
use crate::path_table::{PathTable, TableModel};
use crate::rows;
use crate::search::FileEntry;
use crate::search_cache::DeltaCache;
use crate::sort_cache;
use crate::sort_cache::SortedIndicesCache;
use crate::sound_volumes;
use crate::soundness;
use crate::text::times;
use crate::volume_manager;
use crate::volume_manager::VolumeManager;
use crate::volume_map;
use crate::volume_map::VolumeSlot;
use crate::volume_monitor;
use crate::volume_monitor::VolumeMonitor;
use crate::walking::{WalkModel, Walked};
use vstd::prelude::*;

verus! {

broadcast use {
    vstd::std_specs::hash::group_hash_axioms,
    vstd::std_specs::btree::group_btree_axioms,
    vstd::laws_cmp::group_laws_cmp,
};

/// More changes than this are merged into the volumes.
pub const DELTA_COUNT_THRESHOLD: usize = 1000;

/// Changes that take more bytes than this are merged into the volumes.
pub const DELTA_MEMORY_THRESHOLD: usize = 10485760;

impl DeltaCache {
    /// About how many bytes the changes take.
    pub open spec fn delta_bytes(&self) -> int {
        (64 * self.new_files@.len() + 8 * self.deleted_ids@.len() + 128
            * self.modified@.len() + 8 * self.renamed_fids@.len() + 4
            * self.matched@.len()) as int
    }

    /// About how many bytes the changes take, up to what the machine
    /// can count.
    fn delta_memory(&self) -> (r: usize)
        ensures
            r == rows::least(self.delta_bytes(), usize::MAX as int),
    {
        times(self.new_files.len(), 64).saturating_add(
            times(self.deleted_ids.len(), 8),
        ).saturating_add(times(self.modified.len(), 128)).saturating_add(
            times(self.renamed_fids.len(), 8),
        ).saturating_add(times(self.matched.len(), 4))
    }

    /// Whether the changes are many or take much memory.
    pub open spec fn needs_merge(&self) -> bool {
        ||| self.new_files@.len() + self.deleted_ids@.len() + self.modified@.len()
            > DELTA_COUNT_THRESHOLD
        ||| self.delta_bytes() > DELTA_MEMORY_THRESHOLD
    }

    /// Whether the changes are many or take much memory.
    fn is_full(&self) -> (r: bool)
        ensures
            r == self.needs_merge(),
    {
        let count: usize = self.new_files.len().saturating_add(
            self.deleted_ids.len(),
        ).saturating_add(self.modified.len());
        count > DELTA_COUNT_THRESHOLD || self.delta_memory() > DELTA_MEMORY_THRESHOLD
    }
}

impl SortedIndicesCache {
    /// About how many bytes the orders take, up to what the machine can count.
    pub fn memory_bytes(&self) -> (r: usize)
        ensures
            r == rows::least(self@.bytes(), usize::MAX as int),
    {
        order_memory(&self.entries[0]).saturating_add(order_memory(&self.entries[1])).saturating_add(
            order_memory(&self.entries[2]),
        ).saturating_add(order_memory(&self.entries[3]))
    }
}

/// How many bytes the places of a kept order take.
pub open spec fn order_bytes(s: Option<sort_cache::OrderModel>) -> int {
    match s {
        Some(c) => 4 * c.order.len() as int,
        None => 0,
    }
}

/// How many bytes the places of a kept order take, up to what the machine can count.
fn order_memory(s: &Option<sort_cache::CachedOrder>) -> (r: usize)
    ensures
        r == rows::least(order_bytes(sort_cache::slot_model(*s)), usize::MAX as int),
{
    match s {
        Some(c) => times(c.order.len(), 4),
        None => 0,
    }
}

impl sort_cache::CacheModel {
    /// How many bytes the places of the kept orders take.
    pub open spec fn bytes(self) -> int {
        order_bytes(self.slots[0]) + order_bytes(self.slots[1]) + order_bytes(self.slots[2])
            + order_bytes(self.slots[3])
    }
}

/// About how many bytes the volumes' tables of directories take, each up to what the
/// machine can count.
pub open spec fn table_bytes(slots: Seq<VolumeSlot>) -> int
    decreases slots.len(),
{
    if slots.len() == 0 {
        0
    } else {
        let t = slots.last().monitor.path_table@;
        table_bytes(slots.drop_last()) + rows::least(
            (32 * t.entries.len() + 28 * t.ids.len()) as int,
            usize::MAX as int,
        )
    }
}

/// About how many bytes the volumes' indexes of file ids take.
pub open spec fn index_bytes(slots: Seq<VolumeSlot>) -> int
    decreases slots.len(),
{
    if slots.len() == 0 {
        0
    } else {
        index_bytes(slots.drop_last()) + match slots.last().monitor.fid_index {
            Some(index) => 16 * index@.len() as int,
            None => 0,
        }
    }
}

impl VolumeManager {
    /// About how many bytes the changes that were not merged take, up to what the machine
    /// can count.
    pub fn delta_memory_bytes(&self) -> (r: usize)
        ensures
            r == rows::least(self.held_delta().delta_bytes(), usize::MAX as int),
    {
        self.held().delta_memory()
    }

    /// How many files were added since the volumes were scanned, and not merged into them.
    pub fn delta_count(&self) -> (r: usize)
        ensures
            r == self.changes().new_files.len(),
    {
        self.held().new_files.len()
    }

    /// What changed since the volumes were scanned, and was not merged into them.
    fn held(&self) -> (r: &DeltaCache)
        ensures
            *r == self.held_delta(),
    {
        match &self.search_cache {
            Some(c) => &c.delta,
            None => &self.idle_delta,
        }
    }

    /// About how many bytes the files, the tables of directories, the indexes of file
    /// ids, the changes that were not merged and the kept orders take, each up to what
    /// the machine can count.
    pub fn memory_stats(&self) -> (r: (usize, usize, usize, usize, usize))
        ensures
            r.0 == rows::least(
                48 * merging::total_files(self.volumes.slots@) as int,
                usize::MAX as int,
            ),
            r.1 == rows::least(table_bytes(self.volumes.slots@), usize::MAX as int),
            r.2 == rows::least(index_bytes(self.volumes.slots@), usize::MAX as int),
            r.3 == rows::least(self.held_delta().delta_bytes(), usize::MAX as int),
            r.4 == rows::least(self.sorted_indices_map@.bytes(), usize::MAX as int),
    {
        let files: usize = times(self.total_file_count(), 48);
        let ghost slots = self.volumes.slots@;
        let mut tables: usize = 0;
        let mut indexes: usize = 0;
        let mut i: usize = 0;
        assert(slots.take(0) =~= seq![]);
        while i < self.volumes.slots.len()
            invariant
                i <= slots.len(),
                slots == self.volumes.slots@,
                table_bytes(slots.take(i as int)) >= 0,
                index_bytes(slots.take(i as int)) >= 0,
                tables == rows::least(table_bytes(slots.take(i as int)), usize::MAX as int),
                indexes == rows::least(index_bytes(slots.take(i as int)), usize::MAX as int),
            decreases slots.len() - i,
        {
            proof {
                let step = slots.take(i + 1);
                assert(step.drop_last() =~= slots.take(i as int));
                assert(step.last() == slots[i as int]);
            }
            let m = &self.volumes.slots[i].monitor;
            tables = tables.saturating_add(m.path_table.memory_estimate());
            indexes = indexes.saturating_add(
                match &m.fid_index {
                    Some(index) => times(index.len(), 16),
                    None => 0,
                },
            );
            i += 1;
        }
        assert(slots.take(i as int) =~= slots);
        (files, tables, indexes, self.delta_memory_bytes(), self.sorted_indices_map.memory_bytes())
    }

    /// Takes the files of a full scan: the volume has them and their directories from
    /// then on. The last search is forgotten, and with it what changed in the volume before
    /// the scan.
    pub fn apply_full_scan(
        &mut self,
        drive_letter: &str,
        files: Vec<FileEntry>,
        path_table: PathTable,
    )
        requires
            old(self).wf(),
            path_table@.entries.len() <= u32::MAX,
        ensures
            final(self).wf(),
            final(self).forgot(*old(self)),
            final(self).volume_index == old(self).volume_index,
            final(self).vol_names == old(self).vol_names,
            final(self).scan_errors == old(self).scan_errors,
            if old(self).volumes@.contains_key(drive_letter@) {
                let m = final(self).volumes@[drive_letter@];
                &&& final(self).volumes@ == old(self).volumes@.insert(drive_letter@, m)
                &&& m.files@ == files@
                &&& m.path_table@.is_numbered(
                    TableModel { entries: path_table@.entries, ids: Map::empty() },
                )
                &&& m.fid_index matches Some(index) && index@ == fid_index::index_of_files(files@)
                &&& m.use_usn
                &&& m == (VolumeMonitor {
                    files: m.files,
                    path_table: m.path_table,
                    fid_index: m.fid_index,
                    use_usn: true,
                    ..old(self).volumes@[drive_letter@]
                })
            } else {
                final(self).volumes == old(self).volumes
            },
            final(self).changes() == old(self).changes().without(
                old(self).vol_names@,
                drive_letter@,
            ),
            old(self).numbered() ==> final(self).numbered(),
            old(self).stands() && path_table@.sound() && soundness::files_stand(
                files@,
                path_table@,
            ) ==> forall|today: i32| #[trigger] final(self).is_sound(today),
    {
        let ghost scanned = files@;
        let ghost scanned_table = path_table@;
        self.forget_search();
        self.idle_delta.forget_volume(&self.vol_names, drive_letter);
        if let Some(i) = self.volumes.find(drive_letter) {
            let ghost before = self.volumes.slots@;
            let index = build_index(&files);
            let mut table = path_table;
            table.clear_dedup_map();
            table.compute_ordinals();
            let m = &mut self.volumes.slots[i].monitor;
            m.files = files;
            m.path_table = table;
            m.fid_index = Some(index);
            m.use_usn = true;
            proof {
                let slot = self.volumes.slots@[i as int];
                volume_map::slot_exchanged(before, i as int, slot);
                assert(self.volumes.slots@ =~= before.update(i as int, slot));
            }
        }
        proof {
            if old(self).stands() && scanned_table.sound() && soundness::files_stand(
                scanned,
                scanned_table,
            ) {
                sound_volumes::sound_numbers_fit(*old(self));
                sound_volumes::full_scan_stands(
                    *old(self),
                    *self,
                    drive_letter@,
                    scanned,
                    scanned_table,
                );
            }
        }
    }

    /// Takes up the entries of a whole walk of each volume, in the order of the volumes,
    /// and forgets the last search and what changed before the walk. Gives the number of
    /// files, up to what the machine can count.
    pub fn scan_all(&mut self, walks: &Vec<Vec<Walked>>, now: i64) -> (r: usize)
        requires
            old(self).wf(),
            walks@.len() == old(self).volumes.slots@.len(),
        ensures
            final(self).wf(),
            old(self).numbered() ==> final(self).numbered(),
            final(self).forgot(*old(self)),
            final(self).volume_index == old(self).volume_index,
            final(self).vol_names == old(self).vol_names,
            final(self).scan_errors == old(self).scan_errors,
            final(self).held_delta().is_clear(),
            final(self).volumes.slots@.len() == old(self).volumes.slots@.len(),
            forall|k: int|
                0 <= k < walks@.len() ==> slot_walked(
                    old(self).volumes.slots@[k],
                    #[trigger] final(self).volumes.slots@[k],
                    walks@[k]@,
                    now,
                ),
            r == rows::least(
                merging::total_files(final(self).volumes.slots@) as int,
                usize::MAX as int,
            ),
            old(self).stands() && sound_volumes::walks_fit(old(self).volumes.slots@, walks@)
                ==> forall|today: i32| #[trigger] final(self).is_sound(today),
    {
        let ghost before = self.volumes.slots@;
        let mut i: usize = 0;
        while i < self.volumes.slots.len()
            invariant
                i <= before.len(),
                before == old(self).volumes.slots@,
                self.volumes.slots@.len() == before.len(),
                walks@.len() == before.len(),
                old(self).wf(),
                forall|k: int|
                    0 <= k < i ==> slot_walked(
                        before[k],
                        #[trigger] self.volumes.slots@[k],
                        walks@[k]@,
                        now,
                    ),
                forall|k: int|
                    i <= k < before.len() ==> #[trigger] self.volumes.slots@[k] == before[k],
                *self == (VolumeManager { volumes: self.volumes, ..*old(self) }),
            decreases before.len() - i,
        {
            self.volumes.slots[i].monitor.scan(&walks[i], now);
            i += 1;
        }
        proof {
            let after = self.volumes.slots@;
            assert forall|k: int| 0 <= k < before.len() implies (#[trigger] after[k]).monitor.wf()
                && after[k].name == before[k].name by {
                assert(slot_walked(before[k], after[k], walks@[k]@, now));
                assert(before[k].monitor.wf());
            }
            assert(volume_map::names_differ(before));
        }
        self.forget_search();
        self.idle_delta.forget();
        proof {
            if old(self).stands() && sound_volumes::walks_fit(before, walks@) {
                sound_volumes::walks_stand(*old(self), *self, walks@, now);
            }
        }
        self.total_file_count()
    }

    /// Whether `after` is left when the changes are merged on the day `today` where they are
    /// many or take much memory.
    pub open spec fn was_merged_if_needed(&self, after: VolumeManager, today: i32) -> bool {
        if self.held_delta().needs_merge() {
            &&& self.changes_were_merged(after, today)
            &&& after.sorted_indices_map@ == sort_cache::CacheModel::empty()
            &&& after.blank_orders() == volume_manager::no_orders()
            &&& after.empty_query_generation == self.empty_query_generation.wrapping_add(1)
        } else {
            after == *self
        }
    }

    /// Merges the changes into the volumes on the day `today` where they are many or take
    /// much memory.
    pub fn merge_if_needed_on(&mut self, today: i32)
        requires
            old(self).wf(),
            old(self).numbered(),
            old(self).merge_fits(),
        ensures
            final(self).wf(),
            final(self).numbered(),
            old(self).was_merged_if_needed(*final(self), today),
            old(self).is_sound(today) && final(self).fits() ==> final(self).is_sound(today),
    {
        if self.held().is_full() {
            self.merge_changes(today);
            self.sorted_indices_map.clear();
            self.empty_query_generation = self.empty_query_generation.wrapping_add(1);
            self.empty_query_sorted = [None, None, None, None];
            assert(self.blank_orders() =~= volume_manager::no_orders());
        }
        proof {
            if old(self).is_sound(today) && self.fits() {
                old(self).merge_keeps_sound(*self, today);
            }
        }
    }

    /// Merges the changes into the volumes, by the clock, where they are many or take much
    /// memory.
    pub fn merge_if_needed(&mut self)
        requires
            old(self).wf(),
            old(self).numbered(),
            old(self).merge_fits(),
        ensures
            final(self).wf(),
            final(self).numbered(),
            exists|today: i32| old(self).was_merged_if_needed(*final(self), today),
    {
        let today: i32 = outside::today_from_ce();
        self.merge_if_needed_on(today);
    }

    /// Whether the files of all volumes and those that were added can be numbered.
    pub open spec fn merge_fits(&self) -> bool {
        merging::total_files(self.volumes.slots@) + self.changes().new_files.len() <= u32::MAX
    }

    /// Whether `after` is left when the changes are merged into the volumes on the day
    /// `today`, but for the orders that are kept.
    pub open spec fn changes_were_merged(&self, after: VolumeManager, today: i32) -> bool {
        &&& match self.search_cache {
            Some(before) => {
                &&& after.search_cache matches Some(c)
                &&& before.was_merged(c, self.volumes, after.volumes, self.vol_names@, today)
                &&& after.cache_generation == c.base.matched_generation
                &&& after.idle_delta == self.idle_delta
            },
            None => {
                &&& after.search_cache is None
                &&& merging::volumes_after(
                    self.volumes.slots@,
                    after.volumes.slots@,
                    self.vol_names@,
                    self.changes(),
                )
                &&& after.cache_generation == self.cache_generation
                &&& after.idle_delta.is_clear()
                &&& after.idle_delta.generation == self.idle_delta.generation.wrapping_add(1)
            },
        }
        &&& after.same_request(*self)
        &&& after.volume_index == self.volume_index
        &&& after.vol_names == self.vol_names
        &&& after.scan_errors == self.scan_errors
    }

    /// Merges the changes into the volumes on the day `today`. The orders that are kept are
    /// of no use from then on.
    fn merge_changes(&mut self, today: i32)
        requires
            old(self).wf(),
            old(self).numbered(),
            old(self).merge_fits(),
        ensures
            final(self).volumes.wf(),
            final(self).volumes.monitors_wf(),
            final(self).numbered(),
            final(self).search_cache matches Some(c) ==> {
                &&& c.wf()
                &&& c.base.matched_generation == final(self).cache_generation
                &&& final(self).idle_delta.is_clear()
            },
            old(self).changes_were_merged(*final(self), today),
            merging::total_files(final(self).volumes.slots@) <= u32::MAX,
            final(self).sorted_indices_map == old(self).sorted_indices_map,
            final(self).empty_query_generation == old(self).empty_query_generation,
    {
        match self.search_cache.take() {
            Some(c) => {
                let mut cache = c;
                cache.merge_delta_to_base(&mut self.volumes, &self.vol_names, today);
                self.cache_generation = cache.base.matched_generation;
                self.search_cache = Some(cache);
            },
            None => {
                self.idle_delta.merge_into(&mut self.volumes, &self.vol_names);
                self.idle_delta.forget();
            },
        }
    }

    /// Drops the file that has the given path from every volume, and repeats the last
    /// search on the day `today`. The changes are merged into the volumes first, so that a
    /// file is found that was added since they were scanned.
    pub fn remove_file_on(&mut self, file_path: &str, today: i32)
        requires
            old(self).wf(),
            old(self).numbered(),
            old(self).merge_fits(),
        ensures
            final(self).wf(),
            final(self).numbered(),
            old(self).file_was_removed(*final(self), file_path@, today),
            old(self).stands() && final(self).fits() ==> final(self).is_sound(today),
    {
        self.merge_changes(today);
        self.sorted_indices_map.clear();
        let ghost merged = *self;
        let ghost before = self.volumes.slots@;
        let mut i: usize = 0;
        while i < self.volumes.slots.len()
            invariant
                i <= before.len(),
                before == merged.volumes.slots@,
                self.volumes.slots@.len() == before.len(),
                merged.wf(),
                merged.numbered(),
                forall|k: int|
                    0 <= k < i ==> slot_without(
                        before[k],
                        #[trigger] self.volumes.slots@[k],
                        file_path@,
                    ),
                forall|k: int|
                    i <= k < before.len() ==> #[trigger] self.volumes.slots@[k] == before[k],
                *self == (VolumeManager { volumes: self.volumes, ..merged }),
            decreases before.len() - i,
        {
            self.volumes.slots[i].monitor.remove_file(file_path);
            i += 1;
        }
        proof {
            let after = self.volumes.slots@;
            assert forall|k: int| 0 <= k < before.len() implies (#[trigger] after[k]).monitor.wf()
                && after[k].name == before[k].name by {
                assert(slot_without(before[k], after[k], file_path@));
                assert(before[k].monitor.wf());
            }
            assert(volume_map::names_differ(before));
            fewer_files(before, after, file_path@);
            let slots = old(self).volumes.slots@;
            let d = old(self).changes();
            assert forall|k: int| 0 <= k < slots.len() implies slot_merged_without(
                slots[k],
                #[trigger] after[k],
                old(self).vol_names@,
                d,
                file_path@,
            ) by {
                assert(slot_without(before[k], after[k], file_path@));
                old(self).volume_was_merged(merged, today, k);
                let (m, n) = (slots[k].monitor, before[k].monitor);
                assert((|f: FileEntry|
                    !(f.name@ == volume_monitor::name_in(file_path@) && m.path_of(f)
                        == file_path@)) =~= (|f: FileEntry|
                    !(f.name@ == volume_monitor::name_in(file_path@) && n.path_of(f)
                        == file_path@)));
            }
        }
        self.forget_search();
        assert(!self.held_delta().has_changes());
        if let Some(options) = self.last_search_options {
            let query = self.last_search_query.clone();
            self.search_on(query.as_str(), &options, 0, today);
        }
        proof {
            if old(self).stands() && self.fits() {
                old(self).removing_file_keeps_sound(*self, file_path@, today);
            }
        }
    }

    /// Drops the file that has the given path from every volume, and repeats the last
    /// search by the clock.
    pub fn remove_file(&mut self, file_path: &str)
        requires
            old(self).wf(),
            old(self).numbered(),
            old(self).merge_fits(),
        ensures
            final(self).wf(),
            final(self).numbered(),
            exists|today: i32| old(self).file_was_removed(*final(self), file_path@, today),
    {
        let today: i32 = outside::today_from_ce();
        self.remove_file_on(file_path, today);
    }

    /// Each volume is as the changes leave it when they were merged, also where there were
    /// none.
    proof fn volume_was_merged(self, after: VolumeManager, today: i32, k: int)
        requires
            self.changes_were_merged(after, today),
            0 <= k < self.volumes.slots@.len(),
        ensures
            after.volumes.slots@.len() == self.volumes.slots@.len(),
            after.volumes.slots@[k].name == self.volumes.slots@[k].name,
            after.volumes.slots@[k].monitor.files@ == merging::files_after(
                self.volumes.slots@[k].monitor.files@,
                self.volumes.slots@[k].name@,
                self.vol_names@,
                self.changes(),
            ),
            after.volumes.slots@[k].monitor.path_table == self.volumes.slots@[k].monitor.path_table,
            after.volumes.slots@[k].monitor.same_settings(self.volumes.slots@[k].monitor),
    {
        let slot = after.volumes.slots@[k];
        if self.search_cache is Some && !self.held_delta().has_changes() {
            merging::nothing_to_merge(
                slot.monitor.files@,
                slot.name@,
                self.vol_names@,
                self.changes(),
            );
        }
    }

    /// Whether `after` is left when the file at `path` was removed on the day `today`: no
    /// volume has it, the changes stand in the volumes, and the last search was made again.
    pub open spec fn file_was_removed(&self, after: VolumeManager, path: Seq<char>, today: i32) -> bool {
        &&& after.volumes.slots@.len() == self.volumes.slots@.len()
        &&& forall|k: int|
            0 <= k < self.volumes.slots@.len() ==> slot_merged_without(
                self.volumes.slots@[k],
                #[trigger] after.volumes.slots@[k],
                self.vol_names@,
                self.changes(),
                path,
            )
        &&& !after.held_delta().has_changes()
        &&& after.held_delta().is_clear() || after.changes() == self.changes()
        &&& after.volume_index == self.volume_index
        &&& after.vol_names == self.vol_names
        &&& after.scan_errors == self.scan_errors
        &&& after.last_search_query@ == self.last_search_query@
        &&& after.last_search_options == self.last_search_options
        &&& match self.last_search_options {
            Some(options) => {
                &&& after.search_cache matches Some(c)
                &&& c.is_fresh(
                    self.last_search_query@,
                    options.files_only,
                    options.directories_only,
                    after.found(
                        self.last_search_query@,
                        options.files_only,
                        options.directories_only,
                        today,
                    ),
                    after.cache_generation,
                    c.delta,
                )
                &&& after.orders_are_current(today)
            },
            None => {
                &&& after.search_cache is None
                &&& after.sorted_indices_map@ == sort_cache::CacheModel::empty()
                &&& after.blank_orders() == volume_manager::no_orders()
            },
        }
    }

    /// Gives back the memory that can be built up again: the last search, the kept orders
    /// and the indexes of file ids. What changed since the volumes were scanned, their files
    /// and their tables of directories stay as they are.
    pub fn release_idle_memory(&mut self)
        requires
            old(self).wf(),
        ensures
            final(self).wf(),
            old(self).numbered() ==> final(self).numbered(),
            final(self).forgot(*old(self)),
            final(self).idle_delta == old(self).held_delta(),
            final(self).volume_index == old(self).volume_index,
            final(self).vol_names == old(self).vol_names,
            final(self).scan_errors == old(self).scan_errors,
            final(self).volumes.slots@ == old(self).volumes.slots@.map_values(
                |s: VolumeSlot|
                    VolumeSlot {
                        name: s.name,
                        monitor: VolumeMonitor { fid_index: None, ..s.monitor },
                    },
            ),
            old(self).stands() ==> forall|today: i32| #[trigger] final(self).is_sound(today),
    {
        self.forget_search();
        let ghost start = *self;
        let ghost slots = self.volumes.slots@;
        let ghost freed = |s: VolumeSlot|
            VolumeSlot {
                name: s.name,
                monitor: VolumeMonitor { fid_index: None, ..s.monitor },
            };
        let mut i: usize = 0;
        while i < self.volumes.slots.len()
            invariant
                i <= slots.len(),
                self.volumes.slots@.len() == slots.len(),
                start.wf(),
                start.volumes.slots@ == slots,
                freed == (|s: VolumeSlot|
                    VolumeSlot {
                        name: s.name,
                        monitor: VolumeMonitor { fid_index: None, ..s.monitor },
                    }),
                forall|k: int| 0 <= k < i ==> #[trigger] self.volumes.slots@[k] == freed(slots[k]),
                forall|k: int|
                    i <= k < slots.len() ==> #[trigger] self.volumes.slots@[k] == slots[k],
                *self == (VolumeManager { volumes: self.volumes, ..start }),
            decreases slots.len() - i,
        {
            self.volumes.slots[i].monitor.fid_index = None;
            i += 1;
        }
        assert(self.volumes.slots@ =~= slots.map_values(freed));
        assert(volume_map::names_differ(slots));
        proof {
            if old(self).stands() {
                sound_volumes::same_slots(*old(self), *self);
                sound_volumes::same_content_stands(*old(self), *self);
            }
        }
    }
}

/// Whether `after` is the volume `before` with the files that a walk met in place of
/// those that were there.
pub open spec fn slot_walked(
    before: VolumeSlot,
    after: VolumeSlot,
    entries: Seq<Walked>,
    now: i64,
) -> bool {
    let m = before.monitor;
    &&& after.name == before.name
    &&& after.monitor.walk_model() == (WalkModel {
        files: seq![],
        table: m.path_table@,
    }).with_entries(m.include_hidden_files, m.include_system_files, entries, now)
    &&& after.monitor == (VolumeMonitor {
        files: after.monitor.files,
        path_table: after.monitor.path_table,
        fid_index: None,
        ..m
    })
}

/// Whether `after` is the volume `before` without the file at `path`.
pub open spec fn slot_without(before: VolumeSlot, after: VolumeSlot, path: Seq<char>) -> bool {
    let m = before.monitor;
    &&& after.name == before.name
    &&& after.monitor.files@ == m.files@.filter(
        |f: FileEntry| !(f.name@ == volume_monitor::name_in(path) && m.path_of(f) == path),
    )
    &&& after.monitor.path_table == m.path_table
    &&& after.monitor.fid_index is None
    &&& after.monitor.same_settings(m)
}

/// Whether `after` is the volume `before` with the changes and without the file at `path`.
pub open spec fn slot_merged_without(
    before: VolumeSlot,
    after: VolumeSlot,
    vol_names: Seq<String>,
    d: DeltaModel,
    path: Seq<char>,
) -> bool {
    let m = before.monitor;
    &&& after.name == before.name
    &&& after.monitor.files@ == merging::files_after(m.files@, before.name@, vol_names, d).filter(
        |f: FileEntry| !(f.name@ == volume_monitor::name_in(path) && m.path_of(f) == path),
    )
    &&& after.monitor.path_table == m.path_table
    &&& after.monitor.fid_index is None
    &&& after.monitor.same_settings(m)
}

/// Removing a file makes no volume larger.
proof fn fewer_files(before: Seq<VolumeSlot>, after: Seq<VolumeSlot>, path: Seq<char>)
    requires
        after.len() == before.len(),
        forall|k: int|
            0 <= k < before.len() ==> slot_without(before[k], #[trigger] after[k], path),
    ensures
        merging::total_files(after) <= merging::total_files(before),
    decreases before.len(),
{
    if before.len() > 0 {
        let b = before.drop_last();
        let a = after.drop_last();
        assert forall|k: int| 0 <= k < b.len() implies slot_without(b[k], #[trigger] a[k], path) by {
            assert(after[k] == a[k]);
        }
        fewer_files(b, a, path);
        let n = before.len() - 1;
        assert(slot_without(before[n], after[n], path));
        let m = before[n].monitor;
        m.files@.lemma_filter_len(
            |f: FileEntry| !(f.name@ == volume_monitor::name_in(path) && m.path_of(f) == path),
        );
    }
}

} // verus!
