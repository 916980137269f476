//! What every state of the index has in common that is reached through its methods: the
//! numbers lead to the volumes, the volumes and their changes fit together, and the last
//! search has matched what its query takes and counts and sorts it as it is.

use crate::changes::DeltaModel;
use crate::counting;
use crate::fid_index;
use crate::keys;
use crate::merging;
use crate::path_table;
use crate::path_table::TableModel;
use crate::query::QueryModel;
use crate::search::{FileEntry, SearchOptions, SearchResult, SortBy};
use crate::search_cache;
use crate::search_cache::SearchCache;
use crate::searching;
use crate::sort_cache;
use crate::volume_manager;
use crate::volume_manager::VolumeManager;
use crate::volume_map;
use crate::volume_map::ShelfModel;
use crate::volume_monitor::VolumeMonitor;
use vstd::prelude::*;

verus! {

/// Whether a directory is in a table, or the marker of removed files.
pub open spec fn dir_known(t: TableModel, id: u32) -> bool {
    id < t.entries.len() || id == path_table::DELETED_PATH_ID
}

/// Whether a file of the list has the id `fid`.
pub open spec fn has_id(files: Seq<FileEntry>, fid: u32) -> bool {
    exists|i: int| 0 <= i < files.len() && (#[trigger] files[i]).file_id == fid
}

/// Whether no two files have the same id, and their directories are in the table.
pub open spec fn files_stand(files: Seq<FileEntry>, t: TableModel) -> bool {
    &&& forall|i: int| 0 <= i < files.len() ==> dir_known(t, (#[trigger] files[i]).path_id)
    &&& forall|i: int, j: int|
        0 <= i < j < files.len() ==> (#[trigger] files[i]).file_id != (
        #[trigger] files[j]).file_id
}

impl VolumeMonitor {
    /// Whether the table of directories is sound and has those of the files, no two files
    /// have the same id, and the index of file ids, where there is one, is that of the files.
    pub open spec fn is_sound(&self) -> bool {
        &&& self.path_table@.sound()
        &&& files_stand(self.files@, self.path_table@)
        &&& self.fid_index matches Some(index) ==> index@ == fid_index::index_of_files(self.files@)
    }
}

/// Whether changes fit their volumes: the added and changed files are such as `ok` says, the
/// changed ones are listed, and an added one that is listed counts as removed.
pub open spec fn changes_stand(
    d: DeltaModel,
    ok: spec_fn(u8, FileEntry) -> bool,
    listed: spec_fn(u64) -> bool,
) -> bool {
    &&& d.is_indexed()
    &&& forall|i: int|
        0 <= i < d.new_files.len() ==> ok((#[trigger] d.new_files[i]).0, d.new_files[i].1)
    &&& forall|k: u64| #[trigger]
        d.modified.contains_key(k) ==> ok(keys::volume_in(k), d.modified[k]) && listed(k)
    &&& forall|k: u64| #[trigger]
        d.index.contains_key(k) && listed(k) ==> d.deleted.contains(k)
}

impl VolumeManager {
    /// Whether the number `v` is that of a volume at hand.
    pub open spec fn is_live(&self, v: u8) -> bool {
        &&& v < self.vol_names@.len()
        &&& self.volume_index@.contains_key(self.vol_names@[v as int]@)
        &&& self.volume_index@[self.vol_names@[v as int]@] == v
        &&& self.volumes@.contains_key(self.vol_names@[v as int]@)
    }

    /// The volume with the number `v`.
    pub open spec fn volume(&self, v: u8) -> VolumeMonitor {
        self.volumes@[self.vol_names@[v as int]@]
    }

    /// Whether volume `v` is at hand and has the directory of the file `f`.
    pub open spec fn has_dir(&self, v: u8, f: FileEntry) -> bool {
        self.is_live(v) && dir_known(self.volume(v).path_table@, f.path_id)
    }

    /// Whether the file with the key `k` is listed by its volume.
    pub open spec fn lists(&self, k: u64) -> bool {
        self.is_live(keys::volume_in(k)) && has_id(
            self.volume(keys::volume_in(k)).files@,
            keys::id_in(k),
        )
    }

    /// Whether every volume has a number, and each number that is known is the last that was
    /// given for its name.
    pub open spec fn numbers_are_sound(&self) -> bool {
        &&& self.numbered()
        &&& self.vol_names@.len() <= 256
        &&& !self.volume_index@.contains_key(Seq::<char>::empty())
        &&& forall|name: Seq<char>| #[trigger]
            self.volume_index@.contains_key(name) ==> merging::last_named(
                self.vol_names@,
                name,
                self.volume_index@[name] as int,
            )
    }

    /// Whether every volume is sound.
    pub open spec fn volumes_are_sound(&self) -> bool {
        forall|name: Seq<char>| #[trigger]
            self.volumes@.contains_key(name) ==> self.volumes@[name].is_sound()
    }

    /// Whether the changes fit the volumes.
    pub open spec fn changes_are_sound(&self) -> bool {
        changes_stand(
            self.changes(),
            |v: u8, f: FileEntry| self.has_dir(v, f),
            |k: u64| self.lists(k),
        )
    }

    /// Whether the last search, where there is one, has matched what its query takes on the
    /// day `today`, each file once, and its count, its bits and the orders that are kept are
    /// those of what is there.
    pub open spec fn search_is_sound(&self, today: i32) -> bool {
        self.search_cache matches Some(c) ==> {
            &&& forall|p: u32| #[trigger]
                c.base.matched@.contains(p) <==> c.matches_in(
                    self.volumes.slots@,
                    self.vol_names@,
                    today,
                ).contains(p)
            &&& counting::ids_differ(counting::matched_keys(self.shelf(), c.base.matched@))
            &&& c.count_is_exact(self.shelf())
            &&& c.bits_are_exact(self.shelf())
            &&& self.orders_are_current(today)
        }
    }

    /// Whether the numbers, the volumes and the changes are as the methods leave them.
    #[verifier::opaque]
    pub open spec fn stands(&self) -> bool {
        &&& self.wf()
        &&& self.numbers_are_sound()
        &&& self.volumes_are_sound()
        &&& self.changes_are_sound()
    }

    /// Whether the index is as its methods leave it, where the last search was made on the
    /// day `today`.
    pub open spec fn is_sound(&self, today: i32) -> bool {
        self.stands() && self.search_is_sound(today)
    }

    /// Whether the machine can number the files of the volumes, the changes and what is
    /// matched, and has bits for the ids of the files.
    pub open spec fn fits(&self) -> bool {
        let d = self.changes();
        &&& merging::total_files(self.volumes.slots@) + d.new_files.len()
            + d.modified.dom().len() <= u32::MAX
        &&& self.search_cache matches Some(c) ==> c.base.matched@.len() + d.new_files.len()
            + d.modified.dom().len() <= u32::MAX
        &&& forall|name: Seq<char>| #[trigger]
            self.volumes@.contains_key(name) ==> volume_fits(self.volumes@[name])
    }
}

/// Whether the files of a volume can be numbered in positions, and their ids have bits.
pub open spec fn volume_fits(m: VolumeMonitor) -> bool {
    &&& m.files@.len() <= 0x100_0000
    &&& forall|i: int|
        0 <= i < m.files@.len() ==> (#[trigger] m.files@[i]).file_id < usize::MAX / 8
}

/// The last number of a name is its number.
pub proof fn last_is_number(vol_names: Seq<String>, name: Seq<char>, i: int)
    requires
        merging::last_named(vol_names, name, i),
    ensures
        merging::number_of(vol_names, name) == i as u8,
        merging::is_numbered(vol_names, name),
{
    let k = choose|k: int| merging::last_named(vol_names, name, k);
    assert(vol_names[k]@ == name && vol_names[i]@ == name);
    assert(k == i);
}

/// The volume in a slot is at hand under its number.
pub proof fn slot_is_live(vm: VolumeManager, j: int) -> (v: u8)
    requires
        vm.volumes.wf(),
        vm.numbers_are_sound(),
        0 <= j < vm.volumes.slots@.len(),
    ensures
        vm.is_live(v),
        vm.volume(v) == vm.volumes.slots@[j].monitor,
        vm.vol_names@[v as int]@ == vm.volumes.slots@[j].name@,
        vm.volume_index@[vm.volumes.slots@[j].name@] == v,
        merging::number_of(vm.vol_names@, vm.volumes.slots@[j].name@) == v,
        merging::numbers_of(vm.vol_names@)[vm.volumes.slots@[j].name@] == v,
{
    let name = vm.volumes.slots@[j].name@;
    volume_map::name_in_slot(vm.volumes.slots@, name);
    assert(vm.volumes@.contains_key(name));
    assert(vm.volume_index@.contains_key(name));
    let v = vm.volume_index@[name];
    last_is_number(vm.vol_names@, name, v as int);
    v
}

/// A volume at hand stands in a slot.
pub proof fn live_has_slot(vm: VolumeManager, v: u8) -> (j: int)
    requires
        vm.volumes.wf(),
        vm.is_live(v),
    ensures
        0 <= j < vm.volumes.slots@.len(),
        vm.volumes.slots@[j].name@ == vm.vol_names@[v as int]@,
        vm.volumes.slots@[j].monitor == vm.volume(v),
{
    let slots = vm.volumes.slots@;
    let name = vm.vol_names@[v as int]@;
    volume_map::name_in_slot(slots, name);
    let j = choose|j: int| 0 <= j < slots.len() && (#[trigger] slots[j]).name@ == name;
    j
}

/// A volume at hand stands on the shelf under its number.
pub proof fn live_on_shelf(vm: VolumeManager, v: u8)
    requires
        vm.is_live(v),
    ensures
        v < vm.shelf().len(),
        vm.shelf()[v as int].name == vm.vol_names@[v as int]@,
        vm.shelf()[v as int].monitor == Some(vm.volume(v)),
{
}

/// Different slots have different numbers.
pub proof fn slots_differ(vm: VolumeManager, i: int, j: int)
    requires
        vm.volumes.wf(),
        vm.numbers_are_sound(),
        0 <= i < vm.volumes.slots@.len(),
        0 <= j < vm.volumes.slots@.len(),
        i != j,
    ensures
        merging::numbers_of(vm.vol_names@)[vm.volumes.slots@[i].name@]
            != merging::numbers_of(vm.vol_names@)[vm.volumes.slots@[j].name@],
{
    let v = slot_is_live(vm, i);
    let w = slot_is_live(vm, j);
    if v == w {
        assert(vm.volumes.slots@[i].name@ == vm.volumes.slots@[j].name@);
    }
}

/// The numbers by name are those that are known.
pub proof fn numbers_agree(
    vm: VolumeManager,
    query: Option<QueryModel>,
    files_only: bool,
    directories_only: bool,
)
    requires
        vm.volumes.wf(),
        vm.numbers_are_sound(),
    ensures
        searching::found(
            vm.volumes.slots@,
            merging::numbers_of(vm.vol_names@),
            query,
            files_only,
            directories_only,
        ) == searching::found(
            vm.volumes.slots@,
            vm.volume_index@,
            query,
            files_only,
            directories_only,
        ),
{
    let slots = vm.volumes.slots@;
    assert forall|j: int| 0 <= j < slots.len() implies merging::numbers_of(vm.vol_names@)[(
    #[trigger] slots[j]).name@] == vm.volume_index@[slots[j].name@] by {
        let v = slot_is_live(vm, j);
    }
    searching::found_same(
        slots,
        slots,
        merging::numbers_of(vm.vol_names@),
        vm.volume_index@,
        query,
        files_only,
        directories_only,
    );
}

/// A position that a search finds is that of a file of a volume at hand.
pub proof fn found_is_live(
    vm: VolumeManager,
    query: Option<QueryModel>,
    files_only: bool,
    directories_only: bool,
    p: u32,
) -> (r: (u8, int))
    requires
        vm.volumes.wf(),
        vm.numbers_are_sound(),
        searching::found(
            vm.volumes.slots@,
            merging::numbers_of(vm.vol_names@),
            query,
            files_only,
            directories_only,
        ).contains(p),
    ensures
        vm.is_live(r.0),
        sort_cache::volume_of(p) == r.0,
        0 <= r.1 < vm.volume(r.0).files@.len(),
        p == sort_cache::packed(r.0, r.1 as u32),
        vm.volume(r.0).files@.len() <= 0x100_0000 ==> volume_map::file_at(vm.shelf(), p) == Some(
            vm.volume(r.0).files@[r.1],
        ),
{
    let (j, i) = searching::found_is_taken(
        vm.volumes.slots@,
        merging::numbers_of(vm.vol_names@),
        query,
        files_only,
        directories_only,
        p,
    );
    let v = slot_is_live(vm, j);
    live_on_shelf(vm, v);
    if vm.volume(v).files@.len() <= 0x100_0000 {
        sort_cache::unpacking_undoes_packing(v, i as u32);
    }
    (v, i)
}

impl VolumeManager {
    /// Whether `p` is the position of the file at place `i` of volume `v`, which is at hand,
    /// and a search takes that file.
    pub open spec fn is_taken_at(
        &self,
        query: Option<QueryModel>,
        files_only: bool,
        directories_only: bool,
        p: u32,
        v: u8,
        i: int,
    ) -> bool {
        let m = self.volume(v);
        &&& self.is_live(v)
        &&& 0 <= i < m.files@.len()
        &&& p == sort_cache::packed(v, i as u32)
        &&& searching::takes(
            query,
            files_only,
            directories_only,
            m.path_of(m.files@[i]),
            m.files@[i],
        )
    }
}

/// A search finds the files that it takes, by the numbers of their volumes.
pub proof fn found_by_number(
    vm: VolumeManager,
    query: Option<QueryModel>,
    files_only: bool,
    directories_only: bool,
    p: u32,
)
    requires
        vm.volumes.wf(),
        vm.numbers_are_sound(),
    ensures
        searching::found(
            vm.volumes.slots@,
            merging::numbers_of(vm.vol_names@),
            query,
            files_only,
            directories_only,
        ).contains(p) <==> exists|v: u8, i: int| #[trigger]
            vm.is_taken_at(query, files_only, directories_only, p, v, i),
{
    let slots = vm.volumes.slots@;
    let numbers = merging::numbers_of(vm.vol_names@);
    if searching::found(slots, numbers, query, files_only, directories_only).contains(p) {
        let (j, i) = searching::found_is_taken(
            slots,
            numbers,
            query,
            files_only,
            directories_only,
            p,
        );
        let v = slot_is_live(vm, j);
        assert(vm.is_taken_at(query, files_only, directories_only, p, v, i));
    }
    if exists|v: u8, i: int| #[trigger]
        vm.is_taken_at(query, files_only, directories_only, p, v, i) {
        let (v, i) = choose|v: u8, i: int| #[trigger]
            vm.is_taken_at(query, files_only, directories_only, p, v, i);
        let j = live_has_slot(vm, v);
        let w = slot_is_live(vm, j);
        searching::taken_is_found(slots, numbers, query, files_only, directories_only, j, i);
    }
}

/// A search finds the same where the same volumes are at hand, with the same files under the
/// same paths.
pub proof fn found_stays(
    a: VolumeManager,
    b: VolumeManager,
    query: Option<QueryModel>,
    files_only: bool,
    directories_only: bool,
    p: u32,
)
    requires
        a.volumes.wf(),
        a.numbers_are_sound(),
        b.volumes.wf(),
        b.numbers_are_sound(),
        forall|v: u8| #[trigger] b.is_live(v) == a.is_live(v),
        forall|v: u8| #[trigger] a.is_live(v) ==> b.volume(v).files@ == a.volume(v).files@,
        forall|v: u8, i: int|
            a.is_live(v) && 0 <= i < a.volume(v).files@.len() ==> a.volume(v).path_of(
                #[trigger] a.volume(v).files@[i],
            ) == b.volume(v).path_of(a.volume(v).files@[i]),
    ensures
        searching::found(
            a.volumes.slots@,
            merging::numbers_of(a.vol_names@),
            query,
            files_only,
            directories_only,
        ).contains(p) <==> searching::found(
            b.volumes.slots@,
            merging::numbers_of(b.vol_names@),
            query,
            files_only,
            directories_only,
        ).contains(p),
{
    found_by_number(a, query, files_only, directories_only, p);
    found_by_number(b, query, files_only, directories_only, p);
    assert forall|v: u8, i: int| #[trigger]
        a.is_taken_at(query, files_only, directories_only, p, v, i) == b.is_taken_at(
        query,
        files_only,
        directories_only,
        p,
        v,
        i,
    ) by {
        assert(b.is_live(v) == a.is_live(v));
        if a.is_live(v) && 0 <= i < a.volume(v).files@.len() {
            assert(a.volume(v).path_of(a.volume(v).files@[i]) == b.volume(v).path_of(
                a.volume(v).files@[i],
            ));
        }
    }
    if exists|v: u8, i: int| #[trigger]
        b.is_taken_at(query, files_only, directories_only, p, v, i) {
        let (v, i) = choose|v: u8, i: int| #[trigger]
            b.is_taken_at(query, files_only, directories_only, p, v, i);
        assert(a.is_taken_at(query, files_only, directories_only, p, v, i));
    }
    if exists|v: u8, i: int| #[trigger]
        a.is_taken_at(query, files_only, directories_only, p, v, i) {
        let (v, i) = choose|v: u8, i: int| #[trigger]
            a.is_taken_at(query, files_only, directories_only, p, v, i);
        assert(b.is_taken_at(query, files_only, directories_only, p, v, i));
    }
}

/// What a search finds has no key twice.
pub proof fn found_keys_differ(
    vm: VolumeManager,
    query: Option<QueryModel>,
    files_only: bool,
    directories_only: bool,
)
    requires
        vm.volumes.wf(),
        vm.numbers_are_sound(),
        vm.volumes_are_sound(),
        vm.fits(),
    ensures
        counting::ids_differ(
            counting::matched_keys(
                vm.shelf(),
                searching::found(
                    vm.volumes.slots@,
                    merging::numbers_of(vm.vol_names@),
                    query,
                    files_only,
                    directories_only,
                ),
            ),
        ),
{
    broadcast use keys::key_has_parts;

    let slots = vm.volumes.slots@;
    let numbers = merging::numbers_of(vm.vol_names@);
    let all = searching::found(slots, numbers, query, files_only, directories_only);
    let ids = counting::matched_keys(vm.shelf(), all);
    assert forall|i: int, j: int| 0 <= i < j < slots.len() implies numbers[(
    #[trigger] slots[i]).name@] != numbers[(#[trigger] slots[j]).name@] by {
        slots_differ(vm, i, j);
    }
    assert forall|j: int| 0 <= j < slots.len() implies (#[trigger] slots[j]).monitor.files@.len()
        <= 0x100_0000 by {
        volume_map::name_in_slot(slots, slots[j].name@);
        assert(vm.volumes@.contains_key(slots[j].name@));
    }
    searching::found_once(slots, numbers, query, files_only, directories_only);
    assert forall|i: int, j: int| 0 <= i < j < ids.len() && (#[trigger] ids[i]) is Some implies ids[i]
        != #[trigger] ids[j] by {
        assert(all.contains(all[i]) && all.contains(all[j]));
        let (v, a) = found_is_live(vm, query, files_only, directories_only, all[i]);
        let (w, b) = found_is_live(vm, query, files_only, directories_only, all[j]);
        assert(volume_fits(vm.volume(v)) && volume_fits(vm.volume(w)));
        assert(vm.volume(v).is_sound());
        assert(all[i] != all[j]);
        if ids[i] == ids[j] {
            assert(keys::volume_in(ids[i]->0) == v && keys::volume_in(ids[j]->0) == w);
            let files = vm.volume(v).files@;
            assert(files[a].file_id == files[b].file_id);
            if a < b {
                assert(files[a].file_id != files[b].file_id);
            } else if b < a {
                assert(files[b].file_id != files[a].file_id);
            }
        }
    }
}

/// What is matched stands in a volume at hand.
pub proof fn matched_is_live(vm: VolumeManager, today: i32, p: u32) -> (r: (u8, int))
    requires
        vm.is_sound(today),
        vm.fits(),
        vm.search_cache is Some,
        vm.search_cache->0.base.matched@.contains(p),
    ensures
        vm.is_live(r.0),
        sort_cache::volume_of(p) == r.0,
        0 <= r.1 < vm.volume(r.0).files@.len(),
        p == sort_cache::packed(r.0, r.1 as u32),
        volume_map::file_at(vm.shelf(), p) == Some(vm.volume(r.0).files@[r.1]),
        dir_known(vm.volume(r.0).path_table@, vm.volume(r.0).files@[r.1].path_id),
        vm.volume(r.0).files@[r.1].file_id < usize::MAX / 8,
{
    reveal(VolumeManager::stands);
    let c = vm.search_cache->0;
    let r = found_is_live(
        vm,
        search_cache::query_model(c.query@, today),
        c.files_only,
        c.directories_only,
        p,
    );
    assert(volume_fits(vm.volume(r.0)));
    assert(vm.volume(r.0).is_sound());
    r
}

/// Where no orders are kept, they are current.
pub proof fn no_orders_are_current(vm: VolumeManager, today: i32)
    requires
        vm.sorted_indices_map@ == sort_cache::CacheModel::empty(),
        vm.blank_orders() == volume_manager::no_orders(),
    ensures
        vm.orders_are_current(today),
{
    reveal(VolumeManager::orders_are_current);
    assert forall|s: SortBy| 0 <= #[trigger] sort_cache::slot_of(s) < 4 by {}
}

/// Where nothing is counted and no bits are there, both are exact.
pub proof fn uncounted_is_exact(c: SearchCache, shelf: Seq<ShelfModel>)
    requires
        c.active_base_count is None,
        c.base_file_bitvec is None,
    ensures
        c.count_is_exact(shelf),
        c.bits_are_exact(shelf),
{
}

impl VolumeManager {
    /// Reading a page leaves the index sound.
    pub proof fn page_keeps_sound(self, after: VolumeManager, sort_by: SortBy, today: i32)
        requires
            self.is_sound(today),
            self.page_was_read(after, sort_by, today),
            after.wf(),
        ensures
            after.is_sound(today),
    {
        reveal(VolumeManager::stands);
        let (c0, c) = (self.search_cache->0, after.search_cache->0);
        counting::page_keeps_count(self, after, sort_by, today);
        self.page_leaves_orders_current(after, sort_by, today);
        same_changes_stand(self, after);
        assert forall|v: u8, fid: u32| c.base_file_bitvec is Some implies #[trigger] c.marks(v, fid)
            == c.base_has(after.shelf(), v, fid) by {
            assert(c0.marks(v, fid) == c0.base_has(self.shelf(), v, fid));
        }
    }

    /// A search leaves the index sound, whether the last one is used again or all volumes are
    /// searched anew.
    pub proof fn search_keeps_sound(
        self,
        after: VolumeManager,
        query: Seq<char>,
        options: SearchOptions,
        age: u64,
        today: i32,
        r: (Vec<SearchResult>, usize),
    )
        requires
            self.is_sound(today),
            self.fits(),
            self.was_searched(after, query, options, age, today, r),
            after.wf(),
        ensures
            after.is_sound(today),
    {
        reveal(VolumeManager::stands);
        if self.can_reuse(query, options, age) {
            self.page_keeps_sound(after, options.sort_by, today);
        } else {
            let c = after.search_cache->0;
            let model = search_cache::query_model(query, today);
            same_changes_stand(self, after);
            numbers_agree(self, model, options.files_only, options.directories_only);
            found_keys_differ(self, model, options.files_only, options.directories_only);
            fresh_is_exact(c, self.shelf(), today);
        }
    }
}

/// The count of a search that was just made is that of what it shows.
proof fn fresh_is_exact(c: SearchCache, shelf: Seq<ShelfModel>, today: i32)
    requires
        c.wf(),
        c.base_file_bitvec is None,
        c.active_base_count == c.uncounted().count_after(shelf, today),
    ensures
        c.count_is_exact(shelf),
        c.bits_are_exact(shelf),
{
    counting::counted_is_exact(c, shelf, today);
}

/// What is the same of the volumes, their numbers and the changes is sound alike.
proof fn same_changes_stand(a: VolumeManager, b: VolumeManager)
    requires
        a.numbers_are_sound(),
        a.volumes_are_sound(),
        a.changes_are_sound(),
        b.volumes == a.volumes,
        b.volume_index == a.volume_index,
        b.vol_names == a.vol_names,
        a.changes() == b.changes(),
    ensures
        b.numbers_are_sound(),
        b.volumes_are_sound(),
        b.changes_are_sound(),
{
    assert((|v: u8, f: FileEntry| a.has_dir(v, f)) =~= (|v: u8, f: FileEntry| b.has_dir(v, f)));
    assert((|k: u64| a.lists(k)) =~= (|k: u64| b.lists(k)));
}

/// Where the volumes, their numbers and the changes are the same, they stand alike.
pub proof fn same_stands(a: VolumeManager, b: VolumeManager)
    requires
        a.stands(),
        b.wf(),
        b.volumes == a.volumes,
        b.volume_index == a.volume_index,
        b.vol_names == a.vol_names,
        a.changes() == b.changes(),
    ensures
        b.stands(),
{
    reveal(VolumeManager::stands);
    same_changes_stand(a, b);
}

} // verus!
