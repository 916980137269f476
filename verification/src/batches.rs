//! What holds of the result list after a batch of changes of a volume was taken up.

use crate::changes;
use crate::changes::DeltaModel;
use crate::delta_index;
use crate::fid_index;
use crate::incremental;
use crate::keys;
use crate::merged_rows;
use crate::path_table;
use crate::path_table::TableModel;
use crate::result_list;
use crate::rows::RowModel;
use crate::scene;
use crate::scene::Scene;
use crate::search::{FileEntry, SearchResult, SortBy, SortDirection};
use crate::sort_cache;
use crate::volume_manager::VolumeManager;
use crate::volume_map;
use crate::volume_map::ShelfModel;
use vstd::prelude::*;

verus! {

/// Whether a batch does not add the removed file `fid` under another path.
pub open spec fn is_not_renamed(
    added: Seq<SearchResult>,
    removed: Seq<(u64, String)>,
    fid: u32,
) -> bool {
    incremental::came_and_went(added, removed, fid) || forall|i: int|
        0 <= i < added.len() ==> (#[trigger] added[i]).file_id != fid
}

/// A file that a batch removes, and does not add again under another path, is gone: also
/// where it was created and removed within the batch.
proof fn batch_removes(
    before: VolumeManager,
    after: VolumeManager,
    drive: Seq<char>,
    added: Seq<SearchResult>,
    removed: Seq<(u64, String)>,
    updated: Seq<(u64, SearchResult)>,
    k: int,
)
    requires
        before.took_up(after, drive, added, removed, updated),
        before.changes().is_indexed(),
        before.changes().new_files.len() + added.len() <= usize::MAX,
        delta_index::own_ids(updated),
        0 <= k < removed.len(),
        is_not_renamed(added, removed, removed[k].0 as u32),
    ensures
        after.changes().is_gone(keys::key(before.volume_index@[drive], removed[k].0 as u32)),
{
    broadcast use keys::key_has_parts;

    delta_index::batch_keeps_index(before, after, drive, added, removed, updated);
    let vol = before.volume_index@[drive];
    let m = before.volumes@[drive];
    let t = m.path_table@;
    let (d1, d2, d3) = delta_index::batch_steps(
        before.changes(),
        vol,
        m.ready_index(),
        t,
        added,
        removed,
        updated,
    );
    let gone = incremental::removed_ids(removed);
    delta_index::removals_keep(d1, vol, gone);
    assert(gone[k] == removed[k].0 as u32);
    let entries = changes::entries_for(
        changes::table_after(t, incremental::results_of(updated)),
        added,
    );
    let passed_over = |fid: u32| incremental::came_and_went(added, removed, fid);
    delta_index::additions_keep(d2, vol, m.ready_index(), entries, passed_over);
    let x = keys::key(vol, gone[k]);
    assert forall|i: int|
        0 <= i < entries.len() && !passed_over(
            (#[trigger] entries[i]).file_id,
        ) implies keys::key(vol, entries[i].file_id) != x by {
        assert(entries[i].file_id == added[i].file_id);
    }
    assert(d3.told(x) == d2.told(x));
}

/// A file that a batch removes, and does not add again under another path, is not in the
/// result list any more: also where it was created and removed within the batch. A file of
/// another volume stays, whatever its id.
pub proof fn batch_removal_hides(
    before: VolumeManager,
    after: VolumeManager,
    drive: Seq<char>,
    added: Seq<SearchResult>,
    removed: Seq<(u64, String)>,
    updated: Seq<(u64, SearchResult)>,
    k: int,
    today: i32,
    sort_by: SortBy,
    direction: SortDirection,
    r: RowModel,
)
    requires
        before.took_up(after, drive, added, removed, updated),
        before.search_cache is Some,
        before.changes().is_indexed(),
        before.changes().new_files.len() + added.len() <= usize::MAX,
        delta_index::own_ids(updated),
        after.wf(),
        0 <= k < removed.len(),
        is_not_renamed(added, removed, removed[k].0 as u32),
        ({
            let s = after.search_cache->0.scene(after.shelf(), today);
            &&& s.numbers_once(before.volume_index@[drive], drive)
            &&& s.delta_rows().len() <= usize::MAX
            &&& s.shown(s.base_order(sort_by), sort_by, direction).contains(r)
        }),
    ensures
        !(r.volume == drive && r.file.file_id == removed[k].0 as u32),
{
    broadcast use vstd::std_specs::btree::group_btree_axioms;

    batch_removes(before, after, drive, added, removed, updated, k);
    result_list::removed_is_not_shown(
        after.search_cache->0.scene(after.shelf(), today),
        sort_by,
        direction,
        before.volume_index@[drive],
        drive,
        removed[k].0 as u32,
        r,
    );
}

/// The file to store for the added result `k` of a batch.
pub open spec fn added_entry(
    t: TableModel,
    added: Seq<SearchResult>,
    updated: Seq<(u64, SearchResult)>,
    k: int,
) -> FileEntry {
    changes::entries_for(changes::table_after(t, incremental::results_of(updated)), added)[k]
}

/// Whether a batch adds the result `k` as the last of its id, and does not remove it under
/// the same path.
pub open spec fn adds_last(
    added: Seq<SearchResult>,
    removed: Seq<(u64, String)>,
    k: int,
) -> bool {
    &&& 0 <= k < added.len()
    &&& !incremental::came_and_went(added, removed, added[k].file_id)
    &&& forall|i: int|
        k < i < added.len() ==> (#[trigger] added[i]).file_id != added[k].file_id
}

/// A file that a batch adds, and does not remove under the same path, is held as it was last
/// added, whatever was held of its id before.
pub proof fn batch_adds(
    before: VolumeManager,
    after: VolumeManager,
    drive: Seq<char>,
    added: Seq<SearchResult>,
    removed: Seq<(u64, String)>,
    updated: Seq<(u64, SearchResult)>,
    k: int,
) -> (entry: FileEntry)
    requires
        before.took_up(after, drive, added, removed, updated),
        before.changes().is_indexed(),
        before.changes().new_files.len() + added.len() <= usize::MAX,
        delta_index::own_ids(updated),
        adds_last(added, removed, k),
    ensures
        after.changes().is_indexed(),
        entry == changes::entry_for(added[k], entry.path_id),
        after.changes().told(keys::key(before.volume_index@[drive], added[k].file_id)) == Some(
            entry,
        ),
        after.changes().index.contains_key(
            keys::key(before.volume_index@[drive], added[k].file_id),
        ),
        entry == added_entry(before.volumes@[drive].path_table@, added, updated, k),
{
    delta_index::batch_keeps_index(before, after, drive, added, removed, updated);
    let vol = before.volume_index@[drive];
    let m = before.volumes@[drive];
    let t = m.path_table@;
    let (d1, d2, d3) = delta_index::batch_steps(
        before.changes(),
        vol,
        m.ready_index(),
        t,
        added,
        removed,
        updated,
    );
    let entries = changes::entries_for(
        changes::table_after(t, incremental::results_of(updated)),
        added,
    );
    assert forall|i: int| k < i < entries.len() implies (#[trigger] entries[i]).file_id
        != entries[k].file_id by {
        assert(entries[i].file_id == added[i].file_id);
    }
    delta_index::last_addition_is_told(
        d2,
        vol,
        m.ready_index(),
        entries,
        |fid: u32| incremental::came_and_went(added, removed, fid),
        k,
    );
    entries[k]
}

/// What the changes hold of a file is in the result list where the search takes it.
pub proof fn told_is_shown(
    s: Scene,
    d: DeltaModel,
    k: u64,
    entry: FileEntry,
    sort_by: SortBy,
    direction: SortDirection,
)
    requires
        d.is_indexed(),
        d.told(k) == Some(entry),
        s == s.with_delta(d),
        s.modified.dom().finite(),
        s.matched.len() <= u32::MAX,
        s.delta_rows().len() <= usize::MAX,
        s.takes(keys::volume_in(k), entry),
    ensures
        s.shown(s.base_order(sort_by), sort_by, direction).contains(
            scene::row_of(s.shelf, keys::volume_in(k), entry),
        ),
{
    broadcast use keys::key_has_parts;

    let row = scene::row_of(s.shelf, keys::volume_in(k), entry);
    merged_rows::delta_row_source(s, row);
    if d.index.contains_key(k) && !d.is_gone(k) {
        let p = d.index[k] as int;
        assert(delta_index::added_key(d.new_files[p]) == k);
        assert(s.new_row(s.new_files[p]) == Some(row));
    } else {
        assert(d.modified.contains_key(k));
        assert(s.modified.contains_key(k) && s.modified_row(k) == Some(row));
    }
    result_list::shown_holds(s, sort_by, direction, row);
}

/// A file of the volume `name` that the changes hold has no other row in the result list,
/// where its volume does not list it or what it lists is hidden.
pub proof fn told_is_only_row(
    s: Scene,
    d: DeltaModel,
    k: u64,
    entry: FileEntry,
    name: Seq<char>,
    sort_by: SortBy,
    direction: SortDirection,
    x: RowModel,
)
    requires
        d.is_indexed(),
        d.told(k) == Some(entry),
        s == s.with_delta(d),
        s.modified.dom().finite(),
        s.matched.len() <= u32::MAX,
        s.delta_rows().len() <= usize::MAX,
        s.numbers_once(keys::volume_in(k), name),
        d.hides(k) || forall|i: int|
            0 <= i < s.matched.len() ==> !(#[trigger] s.is_matched_key(i, k)),
        s.shown(s.base_order(sort_by), sort_by, direction).contains(x),
        x.volume == name,
        x.file.file_id == entry.file_id,
    ensures
        x == scene::row_of(s.shelf, keys::volume_in(k), entry),
{
    broadcast use keys::key_has_parts;

    let v = keys::volume_in(k);
    if d.index.contains_key(k) && !d.is_gone(k) {
        assert(delta_index::added_key(d.new_files[d.index[k] as int]) == k);
    } else {
        assert(d.modified.contains_key(k));
    }
    assert(keys::key(v, entry.file_id) == k);
    result_list::shown_holds(s, sort_by, direction, x);
    result_list::base_ascends(s, sort_by);
    if s.active_rows(s.base_order(sort_by)).contains(x) {
        let i = choose|i: u32| #[trigger] s.active_row(i) == Some(x);
        let w = sort_cache::volume_of(s.matched[i as int]);
        assert(s.shelf[w as int].name == name);
        assert(w == v);
        assert(s.is_matched_key(i as int, k));
        assert(!s.hides(s.base_key(i as int, x.file.file_id)));
    } else {
        merged_rows::delta_row_source(s, x);
        if exists|i: int|
            0 <= i < s.new_files.len() && s.new_row(#[trigger] s.new_files[i]) == Some(x) {
            let i = choose|i: int|
                0 <= i < s.new_files.len() && s.new_row(#[trigger] s.new_files[i]) == Some(x);
            let e = s.new_files[i];
            assert(s.shelf[e.0 as int].name == name);
            assert(e.0 == v);
            assert(delta_index::added_key(d.new_files[i]) == k);
            assert(d.index[k] == i);
        } else {
            let y = choose|y: u64| #[trigger]
                s.modified.contains_key(y) && s.modified_row(y) == Some(x);
            assert(s.shelf[keys::volume_in(y) as int].name == name);
            assert(d.modified.contains_key(y));
            assert(y == k);
        }
    }
}

/// A file that a batch adds is in the result list, as it was last added, where the query
/// takes it: also where the batch removes it under another path, for it was renamed then,
/// and where it was added or removed before.
pub proof fn batch_addition_shows(
    before: VolumeManager,
    after: VolumeManager,
    drive: Seq<char>,
    added: Seq<SearchResult>,
    removed: Seq<(u64, String)>,
    updated: Seq<(u64, SearchResult)>,
    k: int,
    today: i32,
    sort_by: SortBy,
    direction: SortDirection,
) -> (entry: FileEntry)
    requires
        before.took_up(after, drive, added, removed, updated),
        before.search_cache is Some,
        before.changes().is_indexed(),
        before.changes().new_files.len() + added.len() <= usize::MAX,
        delta_index::own_ids(updated),
        after.wf(),
        adds_last(added, removed, k),
        after.search_cache->0.scene(after.shelf(), today).delta_rows().len() <= usize::MAX,
    ensures
        entry == changes::entry_for(added[k], entry.path_id),
        ({
            let vol = before.volume_index@[drive];
            let s = after.search_cache->0.scene(after.shelf(), today);
            s.takes(vol, entry) ==> s.shown(s.base_order(sort_by), sort_by, direction).contains(
                scene::row_of(s.shelf, vol, entry),
            )
        }),
{
    broadcast use keys::key_has_parts;

    broadcast use vstd::std_specs::btree::group_btree_axioms;

    let entry = batch_adds(before, after, drive, added, removed, updated, k);
    let vol = before.volume_index@[drive];
    let s = after.search_cache->0.scene(after.shelf(), today);
    if s.takes(vol, entry) {
        let d = after.changes();
        assert(s == s.with_delta(d));
        told_is_shown(s, d, keys::key(vol, added[k].file_id), entry, sort_by, direction);
    }
    entry
}

/// The file to store for the changed result `k` of a batch.
pub open spec fn updated_entry(
    t: TableModel,
    updated: Seq<(u64, SearchResult)>,
    k: int,
) -> FileEntry {
    changes::entries_for(t, incremental::results_of(updated))[k]
}

/// Whether a batch tells last of the file `updated[k]` that it changed, and neither removes
/// nor adds it.
pub open spec fn updates_last(
    added: Seq<SearchResult>,
    removed: Seq<(u64, String)>,
    updated: Seq<(u64, SearchResult)>,
    k: int,
) -> bool {
    &&& 0 <= k < updated.len()
    &&& forall|i: int|
        k < i < updated.len() ==> (#[trigger] updated[i]).0 as u32 != updated[k].0 as u32
    &&& forall|i: int|
        0 <= i < removed.len() ==> (#[trigger] removed[i]).0 as u32 != updated[k].0 as u32
    &&& forall|i: int|
        0 <= i < added.len() ==> (#[trigger] added[i]).file_id != updated[k].0 as u32
}

impl VolumeManager {
    /// Whether the file `fid` of a volume is there: the volume lists it, or it was added, and
    /// it was not removed since.
    pub open spec fn has_file(&self, drive: Seq<char>, fid: u32) -> bool {
        let k = keys::key(self.volume_index@[drive], fid);
        &&& fid_index::knows(self.volumes@[drive].ready_index(), fid)
            || self.changes().index.contains_key(k)
        &&& !self.changes().is_gone(k)
    }
}

/// A file that is there is held as a batch tells last that it changed.
pub proof fn batch_updates(
    before: VolumeManager,
    after: VolumeManager,
    drive: Seq<char>,
    added: Seq<SearchResult>,
    removed: Seq<(u64, String)>,
    updated: Seq<(u64, SearchResult)>,
    k: int,
) -> (entry: FileEntry)
    requires
        before.took_up(after, drive, added, removed, updated),
        before.changes().is_indexed(),
        before.changes().new_files.len() + added.len() <= usize::MAX,
        delta_index::own_ids(updated),
        updates_last(added, removed, updated, k),
        before.has_file(drive, updated[k].0 as u32),
    ensures
        after.changes().is_indexed(),
        entry == changes::entry_for(updated[k].1, entry.path_id),
        entry.file_id == updated[k].0 as u32,
        entry == updated_entry(before.volumes@[drive].path_table@, updated, k),
        after.changes().told(keys::key(before.volume_index@[drive], updated[k].0 as u32))
            == Some(entry),
{
    broadcast use keys::key_has_parts;

    delta_index::batch_keeps_index(before, after, drive, added, removed, updated);
    let d = before.changes();
    let vol = before.volume_index@[drive];
    let m = before.volumes@[drive];
    let t = m.path_table@;
    let (d1, d2, d3) = delta_index::batch_steps(d, vol, m.ready_index(), t, added, removed, updated);
    let fids = incremental::updated_ids(updated);
    let changed = changes::entries_for(t, incremental::results_of(updated));
    delta_index::changed_under_own_ids(t, updated);
    assert(fids[k] == updated[k].0 as u32);
    assert(updated[k].0 as u32 == updated[k].1.file_id);
    assert forall|i: int| k < i < fids.len() implies #[trigger] fids[i] != fids[k] by {
        assert(updated[i].0 as u32 != updated[k].0 as u32);
    }
    delta_index::last_update_is_told(d, vol, m.ready_index(), fids, changed, k);
    let x = keys::key(vol, fids[k]);
    let gone = incremental::removed_ids(removed);
    delta_index::removals_keep(d1, vol, gone);
    assert forall|i: int| 0 <= i < gone.len() implies keys::key(vol, #[trigger] gone[i]) != x by {
        assert(removed[i].0 as u32 != updated[k].0 as u32);
    }
    assert(d2.told(x) == d1.told(x));
    let entries = changes::entries_for(
        changes::table_after(t, incremental::results_of(updated)),
        added,
    );
    let passed_over = |fid: u32| incremental::came_and_went(added, removed, fid);
    delta_index::additions_keep(d2, vol, m.ready_index(), entries, passed_over);
    assert forall|i: int|
        0 <= i < entries.len() && !passed_over(
            (#[trigger] entries[i]).file_id,
        ) implies keys::key(vol, entries[i].file_id) != x by {
        assert(added[i].file_id != updated[k].0 as u32);
    }
    assert(d3.told(x) == d2.told(x));
    changed[k]
}

/// A file that changes is in the result list as a batch tells last of it, where the query
/// takes it: also where it was added or renamed before. No other row is shown for it, where
/// what its volume lists is hidden once it was added, as every batch leaves it.
pub proof fn batch_update_shows(
    before: VolumeManager,
    after: VolumeManager,
    drive: Seq<char>,
    added: Seq<SearchResult>,
    removed: Seq<(u64, String)>,
    updated: Seq<(u64, SearchResult)>,
    k: int,
    today: i32,
    sort_by: SortBy,
    direction: SortDirection,
) -> (entry: FileEntry)
    requires
        before.took_up(after, drive, added, removed, updated),
        before.search_cache is Some,
        before.changes().is_indexed(),
        before.changes().new_files.len() + added.len() <= usize::MAX,
        delta_index::own_ids(updated),
        after.wf(),
        updates_last(added, removed, updated, k),
        before.has_file(drive, updated[k].0 as u32),
        after.search_cache->0.scene(after.shelf(), today).delta_rows().len() <= usize::MAX,
    ensures
        entry == changes::entry_for(updated[k].1, entry.path_id),
        ({
            let vol = before.volume_index@[drive];
            let x = keys::key(vol, updated[k].0 as u32);
            let s = after.search_cache->0.scene(after.shelf(), today);
            let list = s.shown(s.base_order(sort_by), sort_by, direction);
            let row = scene::row_of(s.shelf, vol, entry);
            &&& s.takes(vol, entry) ==> list.contains(row)
            &&& s.numbers_once(vol, drive) && (after.changes().hides(x) || forall|i: int|
                0 <= i < s.matched.len() ==> !(#[trigger] s.is_matched_key(i, x)))
                ==> forall|r: RowModel| #[trigger]
                list.contains(r) && r.volume == drive && r.file.file_id == updated[k].0 as u32
                    ==> r == row
        }),
{
    broadcast use keys::key_has_parts;

    broadcast use vstd::std_specs::btree::group_btree_axioms;

    let entry = batch_updates(before, after, drive, added, removed, updated, k);
    let vol = before.volume_index@[drive];
    let x = keys::key(vol, updated[k].0 as u32);
    let s = after.search_cache->0.scene(after.shelf(), today);
    let d = after.changes();
    assert(s == s.with_delta(d));
    if s.takes(vol, entry) {
        told_is_shown(s, d, x, entry, sort_by, direction);
    }
    if s.numbers_once(vol, drive) && (d.hides(x) || forall|i: int|
        0 <= i < s.matched.len() ==> !(#[trigger] s.is_matched_key(i, x))) {
        let list = s.shown(s.base_order(sort_by), sort_by, direction);
        assert forall|r: RowModel| #[trigger]
            list.contains(r) && r.volume == drive && r.file.file_id
                == updated[k].0 as u32 implies r == scene::row_of(s.shelf, vol, entry) by {
            told_is_only_row(s, d, x, entry, drive, sort_by, direction, r);
        }
    }
    entry
}

/// How many directories registering the results may add at most.
pub open spec fn directories_of(results: Seq<SearchResult>) -> nat
    decreases results.len(),
{
    if results.len() == 0 {
        0
    } else {
        directories_of(results.drop_last()) + directories_for(results.last())
    }
}

/// How many directories registering a result may add at most.
pub open spec fn directories_for(r: SearchResult) -> nat {
    directories_on(r.path@, r.is_directory)
}

/// How many directories registering a path may add at most.
pub open spec fn directories_on(path: Seq<char>, is_directory: bool) -> nat {
    path_table::depth(changes::parent_dir(path)) + (if is_directory && path.len() > 0 {
        path_table::depth(path)
    } else {
        0
    })
}

/// Registering the directory of a path leaves all that a table holds.
pub proof fn path_extends(t: TableModel, path: Seq<char>, is_directory: bool)
    requires
        t.sound(),
        t.entries.len() + directories_on(path, is_directory) <= u32::MAX,
    ensures
        changes::registered(t, path, is_directory).0.sound(),
        changes::registered(t, path, is_directory).0.extends(t),
        changes::registered(t, path, is_directory).0.entries.len() <= t.entries.len()
            + directories_on(path, is_directory),
        changes::registered(t, path, is_directory).1 < changes::registered(
            t,
            path,
            is_directory,
        ).0.entries.len(),
{
    let parent = changes::parent_dir(path);
    assert(parent.len() > 0) by {
        reveal_strlit("X:\\");
        crate::text::last_place_is_last(path, '\\');
    }
    path_table::interning_extends(t, parent);
    let above = t.interned(parent).0;
    assert(above.well_placed(parent));
    if is_directory && path.len() > 0 {
        path_table::interning_extends(above, path);
    }
}

/// Registering the directory of a result leaves all that a table holds.
pub proof fn registering_extends(t: TableModel, r: SearchResult)
    requires
        t.sound(),
        t.entries.len() + directories_for(r) <= u32::MAX,
    ensures
        changes::registered(t, r.path@, r.is_directory).0.sound(),
        changes::registered(t, r.path@, r.is_directory).0.extends(t),
        changes::registered(t, r.path@, r.is_directory).0.entries.len() <= t.entries.len()
            + directories_for(r),
        changes::registered(t, r.path@, r.is_directory).1 < changes::registered(
            t,
            r.path@,
            r.is_directory,
        ).0.entries.len(),
{
    path_extends(t, r.path@, r.is_directory);
}

/// Registering the directories of results leaves all that a table holds.
pub proof fn table_grows(t: TableModel, results: Seq<SearchResult>)
    requires
        t.sound(),
        t.entries.len() + directories_of(results) <= u32::MAX,
    ensures
        changes::table_after(t, results).sound(),
        changes::table_after(t, results).extends(t),
        changes::table_after(t, results).entries.len() <= t.entries.len() + directories_of(results),
    decreases results.len(),
{
    if results.len() > 0 {
        table_grows(t, results.drop_last());
        registering_extends(changes::table_after(t, results.drop_last()), results.last());
        assert(changes::table_after(t, results).extends(t));
    }
}

/// Registering the directories of further results leaves what was registered before.
pub proof fn table_grows_on(t: TableModel, results: Seq<SearchResult>, k: int)
    requires
        t.sound(),
        t.entries.len() + directories_of(results) <= u32::MAX,
        0 <= k <= results.len(),
    ensures
        directories_of(results.take(k)) + (if k < results.len() {
            directories_for(results[k])
        } else {
            0
        }) <= directories_of(results),
        changes::table_after(t, results).extends(changes::table_after(t, results.take(k))),
    decreases results.len(),
{
    if k < results.len() {
        let init = results.drop_last();
        assert(init.take(k) =~= results.take(k));
        table_grows_on(t, init, k);
        table_grows(t, init);
        registering_extends(changes::table_after(t, init), results.last());
        if k < init.len() {
            assert(init[k] == results[k]);
        } else {
            assert(results.take(k) =~= init);
        }
    } else {
        assert(results.take(k) =~= results);
    }
}

/// An added file is found under its path once a batch was taken up, if its name is what the
/// path ends in.
pub proof fn added_file_has_path(
    t: TableModel,
    added: Seq<SearchResult>,
    updated: Seq<(u64, SearchResult)>,
    k: int,
)
    requires
        t.sound(),
        0 <= k < added.len(),
        path_is_common(added[k]),
        t.entries.len() + directories_of(incremental::results_of(updated)) + directories_of(added)
            + path_table::depth(added[k].path@) <= u32::MAX,
    ensures
        changes::table_after(
            changes::table_after(t, incremental::results_of(updated)),
            added,
        ).file_path(added_entry(t, added, updated, k).path_id, added[k].name@) == added[k].path@,
{
    let r = added[k];
    let mid = changes::table_after(t, incremental::results_of(updated));
    table_grows(t, incremental::results_of(updated));
    table_grows_on(mid, added, k);
    table_grows_on(mid, added, k + 1);
    table_grows(mid, added);
    table_grows(mid, added.take(k));
    let there = changes::table_after(mid, added.take(k));
    let next = changes::table_after(mid, added.take(k + 1));
    assert(added.take(k + 1).drop_last() =~= added.take(k));
    assert(next == changes::registered(there, r.path@, r.is_directory).0);
    registering_extends(there, r);
    changes::registered_file_has_path(there, r.path@, r.is_directory);
    path_table::growing_keeps_paths(
        next,
        changes::table_after(mid, added),
        added_entry(t, added, updated, k).path_id,
    );
}

/// Whether a result has a path that leads through directories, not too many of them, to its
/// name.
pub open spec fn path_is_common(r: SearchResult) -> bool {
    let cut = crate::text::last_place(r.path@, '\\');
    &&& path_table::is_plain(r.path@)
    &&& cut >= 0
    &&& r.name@ == r.path@.skip(cut + 1)
    &&& path_table::depth(changes::parent_dir(r.path@)) <= path_table::MAX_DEPTH
}

/// Whether the files at the places have their directories in the tables of their volumes.
pub open spec fn directories_known(shelf: Seq<ShelfModel>, matched: Seq<u32>) -> bool {
    forall|i: int|
        0 <= i < matched.len() ==> {
            let f = volume_map::file_at(shelf, #[trigger] matched[i]);
            let m = volume_map::volume_at(shelf, sort_cache::volume_of(matched[i]));
            f is Some ==> (f->0.path_id < m->0.path_table@.entries.len() || f->0.path_id
                == path_table::DELETED_PATH_ID)
        }
}

/// A batch of changes leaves the rows of the matched files as they are, and with them the
/// orders that pages are taken in: the next page goes on in the order of the last one.
pub proof fn batch_keeps_orders(
    before: VolumeManager,
    after: VolumeManager,
    drive: Seq<char>,
    added: Seq<SearchResult>,
    removed: Seq<(u64, String)>,
    updated: Seq<(u64, SearchResult)>,
    today: i32,
)
    requires
        before.took_up(after, drive, added, removed, updated),
        before.search_cache is Some,
        before.volumes@.contains_key(drive),
        before.orders_are_current(today),
        directories_known(before.shelf(), before.search_cache->0.base.matched@),
        before.volumes@[drive].path_table@.sound(),
        before.volumes@[drive].path_table@.entries.len() + directories_of(
            incremental::results_of(updated),
        ) + directories_of(added) <= u32::MAX,
    ensures
        after.orders_are_current(today),
        directories_known(after.shelf(), after.search_cache->0.base.matched@),
        after.volumes@[drive].path_table@.sound(),
{
    let (c0, c) = (before.search_cache->0, after.search_cache->0);
    let (s0, s) = (c0.scene(before.shelf(), today), c.scene(after.shelf(), today));
    let t = before.volumes@[drive].path_table@;
    let results = incremental::results_of(updated);
    let mid = changes::table_after(t, results);
    let grown = after.volumes@[drive].path_table@;
    table_grows(t, results);
    table_grows(mid, added);
    assert(grown.extends(t));
    let matched = c0.base.matched@;
    assert(c.base.matched@ == matched);
    assert forall|i: int| 0 <= i < matched.len() implies #[trigger] s.base_row(i) == s0.base_row(
        i,
    ) && volume_map::file_at(s.shelf, matched[i]) == volume_map::file_at(s0.shelf, matched[i]) by {
        let v = sort_cache::volume_of(matched[i]);
        if v < s0.shelf.len() {
            assert(s.shelf[v as int].name == s0.shelf[v as int].name);
            if s0.shelf[v as int].monitor is Some && s0.shelf[v as int].name == drive {
                if let Some(f) = volume_map::file_at(s0.shelf, matched[i]) {
                    assert(f.path_id < t.entries.len() || f.path_id
                        == path_table::DELETED_PATH_ID);
                    path_table::growing_keeps_paths(t, grown, f.path_id);
                }
            }
        }
    }
    assert(s.base_rows() =~= s0.base_rows());
    assert forall|i: int| 0 <= i < matched.len() implies {
        let f = volume_map::file_at(s.shelf, #[trigger] matched[i]);
        let m = volume_map::volume_at(s.shelf, sort_cache::volume_of(matched[i]));
        f is Some ==> (f->0.path_id < m->0.path_table@.entries.len() || f->0.path_id
            == path_table::DELETED_PATH_ID)
    } by {
        assert(s.base_row(i) == s0.base_row(i));
        let v = sort_cache::volume_of(matched[i]);
        if v < s0.shelf.len() {
            assert(s.shelf[v as int].name == s0.shelf[v as int].name);
        }
    }
    assert(after.orders_are_current(today)) by {
        reveal(VolumeManager::orders_are_current);
        assert forall|k: SortBy| #[trigger] after.order_used(c, k, today) == s.base_order(k) by {
            assert(before.order_used(c0, k, today) == s0.base_order(k));
            assert(s.base_order(k) == s0.base_order(k));
        }
    }
}

} // verus!
