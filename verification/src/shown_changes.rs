//! How the changes of a volume show in the result list of a sound state, whatever was searched
//! for.

use crate::batches;
use crate::changes;
use crate::delta_index;
use crate::elsewhere;
use crate::incremental;
use crate::keys;
use crate::path_table;
use crate::reached;
use crate::reached::is_row_of;
use crate::renaming;
use crate::rows;
use crate::rows::RowModel;
use crate::scene;
use crate::search::{FileEntry, SearchOptions, SearchResult, SortBy, SortDirection};
use crate::searching::FIRST_PAGE;
use crate::seqs;
use crate::sort_cache;
use crate::sound_batches;
use crate::sound_pages;
use crate::soundness;
use crate::text;
use crate::volume_manager::VolumeManager;
use crate::volume_map;
use vstd::prelude::*;

verus! {

impl VolumeManager {
    /// Whether `after` is left when a batch of changes was taken up in a sound state, and the
    /// machine can number what there is.
    pub open spec fn soundly_took_up(
        &self,
        after: VolumeManager,
        drive: Seq<char>,
        added: Seq<SearchResult>,
        removed: Seq<(u64, String)>,
        updated: Seq<(u64, SearchResult)>,
        today: i32,
    ) -> bool {
        &&& self.is_sound(today)
        &&& self.fits()
        &&& self.volumes@.contains_key(drive)
        &&& self.took_up(after, drive, added, removed, updated)
        &&& self.can_take_up(drive, added, updated)
        &&& after.wf()
        &&& after.fits()
    }
}

/// What a batch in a sound state leaves: a sound state, with the number of its volume.
pub proof fn batch_is_sound(
    before: VolumeManager,
    after: VolumeManager,
    drive: Seq<char>,
    added: Seq<SearchResult>,
    removed: Seq<(u64, String)>,
    updated: Seq<(u64, SearchResult)>,
    today: i32,
)
    requires
        before.soundly_took_up(after, drive, added, removed, updated, today),
    ensures
        after.is_sound(today),
        before.wf(),
        before.changes().is_indexed(),
        after.changes().is_indexed(),
        after.volume_index == before.volume_index,
        after.volumes@.contains_key(drive),
        before.volume_index@.contains_key(drive),
        changes::is_volume(before.vol_names@, before.volume_index@[drive], drive),
        after.is_live(before.volume_index@[drive]),
{
    sound_batches::batch_keeps_sound(before, after, drive, added, removed, updated, today);
    sound_batches::batch_keeps_volumes(before, after, drive, added, removed, updated);
    reveal(VolumeManager::stands);
    assert(after.is_live(before.volume_index@[drive]) == before.is_live(
        before.volume_index@[drive],
    ));
}

/// The matched files and the changes pass the query after a batch as before.
proof fn batch_alike(
    before: VolumeManager,
    after: VolumeManager,
    drive: Seq<char>,
    added: Seq<SearchResult>,
    removed: Seq<(u64, String)>,
    updated: Seq<(u64, SearchResult)>,
    today: i32,
)
    requires
        before.soundly_took_up(after, drive, added, removed, updated, today),
        before.search_cache is Some,
    ensures
        renaming::alike(before.scene(today), after.scene(today), before.changes()),
{
    let (s, t) = (before.scene(today), after.scene(today));
    let d = before.changes();
    sound_batches::batch_keeps_volumes(before, after, drive, added, removed, updated);
    assert forall|p: u32| #[trigger] volume_map::file_at(t.shelf, p) == volume_map::file_at(
        s.shelf,
        p,
    ) by {
        let v = sort_cache::volume_of(p);
        if v < s.shelf.len() {
            assert(s.shelf[v as int].name == t.shelf[v as int].name);
        }
    }
    assert forall|v: u8, f: FileEntry| #[trigger] before.has_dir(v, f) implies t.takes(v, f)
        == s.takes(v, f) by {
        soundness::live_on_shelf(before, v);
        assert(after.has_dir(v, f));
        soundness::live_on_shelf(after, v);
    }
    reveal(VolumeManager::stands);
    assert forall|i: int| 0 <= i < d.new_files.len() implies t.takes(
        (#[trigger] d.new_files[i]).0,
        d.new_files[i].1,
    ) == s.takes(d.new_files[i].0, d.new_files[i].1) by {
        assert(before.has_dir(d.new_files[i].0, d.new_files[i].1));
    }
    assert forall|k: u64| #[trigger] d.modified.contains_key(k) implies t.takes(
        keys::volume_in(k),
        d.modified[k],
    ) == s.takes(keys::volume_in(k), d.modified[k]) by {
        assert(before.has_dir(keys::volume_in(k), d.modified[k]));
    }
}

/// What the changes of a sound state hold of a file is its only row, and it is in the list
/// where the query takes it.
pub proof fn told_shows(
    vm: VolumeManager,
    today: i32,
    sort_by: SortBy,
    direction: SortDirection,
    drive: Seq<char>,
    entry: FileEntry,
)
    requires
        vm.is_sound(today),
        vm.fits(),
        vm.search_cache is Some,
        vm.volume_index@.contains_key(drive),
        vm.changes().told(vm.key_in(drive, entry.file_id)) == Some(entry),
    ensures
        ({
            let vol = vm.volume_index@[drive];
            let list = vm.list(today, sort_by, direction);
            let row = scene::row_of(vm.shelf(), vol, entry);
            &&& is_row_of(row, drive, entry.file_id)
            &&& list.contains(row) <==> vm.scene(today).takes(vol, entry)
            &&& forall|x: RowModel| #[trigger]
                list.contains(x) && is_row_of(x, drive, entry.file_id) ==> x == row
        }),
{
    broadcast use keys::key_has_parts;

    let s = vm.scene(today);
    let d = vm.changes();
    let vol = vm.volume_index@[drive];
    let k = vm.key_in(drive, entry.file_id);
    let list = vm.list(today, sort_by, direction);
    let row = scene::row_of(vm.shelf(), vol, entry);
    assert(vm.wf() && d.is_indexed()) by {
        reveal(VolumeManager::stands);
    }
    reached::list_fits(vm, today);
    reached::numbers_lead(vm, today, drive);
    if s.takes(vol, entry) {
        batches::told_is_shown(s, d, k, entry, sort_by, direction);
    }
    assert(d.hides(k) || forall|i: int|
        0 <= i < s.matched.len() ==> !(#[trigger] s.is_matched_key(i, k))) by {
        if exists|i: int| 0 <= i < s.matched.len() && #[trigger] s.is_matched_key(i, k) {
            let i = choose|i: int| 0 <= i < s.matched.len() && #[trigger] s.is_matched_key(i, k);
            reached::matched_is_listed(vm, today, i, k);
            if d.index.contains_key(k) {
                reveal(VolumeManager::stands);
            }
        }
    }
    assert forall|x: RowModel| #[trigger]
        list.contains(x) && is_row_of(x, drive, entry.file_id) implies x == row by {
        batches::told_is_only_row(s, d, k, entry, drive, sort_by, direction, x);
    }
    if list.contains(row) {
        let from = reached::row_has_source(
            vm,
            today,
            sort_by,
            direction,
            drive,
            entry.file_id,
            row,
        );
        match from {
            reached::Source::Matched(i) => {
                assert(s.is_matched_key(i, k));
            },
            reached::Source::Added(i) => {
                assert(d.index.contains_key(delta_index::added_key(d.new_files[i])));
            },
            reached::Source::Changed => {
                assert(d.modified.contains_key(k));
            },
        }
    }
}

/// A file that a batch adds in a sound state is in the result list as it was last added, under
/// its own path, exactly where the query takes it, and no other row is shown for it: whatever
/// was known of its id before.
pub proof fn sound_addition(
    before: VolumeManager,
    after: VolumeManager,
    drive: Seq<char>,
    added: Seq<SearchResult>,
    removed: Seq<(u64, String)>,
    updated: Seq<(u64, SearchResult)>,
    k: int,
    today: i32,
    sort_by: SortBy,
    direction: SortDirection,
) -> (entry: FileEntry)
    requires
        before.soundly_took_up(after, drive, added, removed, updated, today),
        before.search_cache is Some,
        batches::adds_last(added, removed, k),
    ensures
        entry == changes::entry_for(added[k], entry.path_id),
        after.is_sound(today),
        ({
            let vol = before.volume_index@[drive];
            let list = after.list(today, sort_by, direction);
            let row = scene::row_of(after.shelf(), vol, entry);
            &&& list.contains(row) <==> after.scene(today).takes(vol, entry)
            &&& forall|x: RowModel| #[trigger]
                list.contains(x) && is_row_of(x, drive, added[k].file_id) ==> x == row
            &&& names_file(before, drive, added, updated, k) ==> row.path == Some(added[k].path@)
        }),
{
    batch_is_sound(before, after, drive, added, removed, updated, today);
    let entry = batches::batch_adds(before, after, drive, added, removed, updated, k);
    told_shows(after, today, sort_by, direction, drive, entry);
    if names_file(before, drive, added, updated, k) {
        added_path_shows(before, after, drive, added, removed, updated, k, today, entry);
    }
    entry
}

/// Whether the path of an added file leads through directories to its name, and there are
/// numbers for them.
pub open spec fn names_file(
    before: VolumeManager,
    drive: Seq<char>,
    added: Seq<SearchResult>,
    updated: Seq<(u64, SearchResult)>,
    k: int,
) -> bool {
    &&& batches::path_is_common(added[k])
    &&& before.volumes@[drive].path_table@.entries.len() + batches::directories_of(
        incremental::results_of(updated),
    ) + batches::directories_of(added) + path_table::depth(added[k].path@) <= u32::MAX
}

proof fn added_path_shows(
    before: VolumeManager,
    after: VolumeManager,
    drive: Seq<char>,
    added: Seq<SearchResult>,
    removed: Seq<(u64, String)>,
    updated: Seq<(u64, SearchResult)>,
    k: int,
    today: i32,
    entry: FileEntry,
)
    requires
        before.soundly_took_up(after, drive, added, removed, updated, today),
        0 <= k < added.len(),
        entry == batches::added_entry(before.volumes@[drive].path_table@, added, updated, k),
        names_file(before, drive, added, updated, k),
    ensures
        scene::row_of(after.shelf(), before.volume_index@[drive], entry).path == Some(
            added[k].path@,
        ),
{
    batch_is_sound(before, after, drive, added, removed, updated, today);
    assert(before.volumes@[drive].is_sound()) by {
        reveal(VolumeManager::stands);
    }
    batches::added_file_has_path(before.volumes@[drive].path_table@, added, updated, k);
    soundness::live_on_shelf(after, before.volume_index@[drive]);
}

/// A file that changes in a sound state is in the result list as a batch tells last of it,
/// exactly where the query takes it, and no other row is shown for it: also where it was added
/// or renamed before.
pub proof fn sound_update(
    before: VolumeManager,
    after: VolumeManager,
    drive: Seq<char>,
    added: Seq<SearchResult>,
    removed: Seq<(u64, String)>,
    updated: Seq<(u64, SearchResult)>,
    k: int,
    today: i32,
    sort_by: SortBy,
    direction: SortDirection,
) -> (entry: FileEntry)
    requires
        before.soundly_took_up(after, drive, added, removed, updated, today),
        before.search_cache is Some,
        batches::updates_last(added, removed, updated, k),
        before.has_file(drive, updated[k].0 as u32),
    ensures
        entry == changes::entry_for(updated[k].1, entry.path_id),
        after.is_sound(today),
        ({
            let vol = before.volume_index@[drive];
            let list = after.list(today, sort_by, direction);
            let row = scene::row_of(after.shelf(), vol, entry);
            &&& list.contains(row) <==> after.scene(today).takes(vol, entry)
            &&& forall|x: RowModel| #[trigger]
                list.contains(x) && is_row_of(x, drive, updated[k].0 as u32) ==> x == row
        }),
{
    batch_is_sound(before, after, drive, added, removed, updated, today);
    let entry = batches::batch_updates(before, after, drive, added, removed, updated, k);
    told_shows(after, today, sort_by, direction, drive, entry);
    entry
}

/// A file that a batch removes in a sound state, and does not add again under another path, is
/// not in the result list: also where it was created and removed within the batch. What is
/// shown of other volumes stays, whatever ids their files have.
pub proof fn sound_removal(
    before: VolumeManager,
    after: VolumeManager,
    drive: Seq<char>,
    added: Seq<SearchResult>,
    removed: Seq<(u64, String)>,
    updated: Seq<(u64, SearchResult)>,
    k: int,
    today: i32,
    sort_by: SortBy,
    direction: SortDirection,
    x: RowModel,
)
    requires
        before.soundly_took_up(after, drive, added, removed, updated, today),
        before.search_cache is Some,
        0 <= k < removed.len(),
        batches::is_not_renamed(added, removed, removed[k].0 as u32),
    ensures
        after.is_sound(today),
        is_row_of(x, drive, removed[k].0 as u32) ==> !after.list(
            today,
            sort_by,
            direction,
        ).contains(x),
        x.volume != drive ==> (after.list(today, sort_by, direction).contains(x) <==> before.list(
            today,
            sort_by,
            direction,
        ).contains(x)),
{
    batch_is_sound(before, after, drive, added, removed, updated, today);
    reached::list_fits(before, today);
    reached::list_fits(after, today);
    reached::numbers_lead(after, today, drive);
    if after.list(today, sort_by, direction).contains(x) {
        batches::batch_removal_hides(
            before,
            after,
            drive,
            added,
            removed,
            updated,
            k,
            today,
            sort_by,
            direction,
            x,
        );
    }
    if x.volume != drive {
        elsewhere::batch_leaves_others(
            before,
            after,
            drive,
            added,
            removed,
            updated,
            today,
            sort_by,
            direction,
            x,
        );
    }
}

/// When a batch removes one file in a sound state, the number of results falls by one where the
/// file was shown, and stays where it was not: whatever was searched for.
pub proof fn removal_takes_its_row(
    before: VolumeManager,
    after: VolumeManager,
    drive: Seq<char>,
    gone: (u64, String),
    today: i32,
    sort_by: SortBy,
    direction: SortDirection,
)
    requires
        before.soundly_took_up(after, drive, seq![], seq![gone], seq![], today),
        before.search_cache is Some,
    ensures
        after.is_sound(today),
        ({
            let (a, b) = (
                before.list(today, sort_by, direction),
                after.list(today, sort_by, direction),
            );
            &&& (exists|x: RowModel| #[trigger] a.contains(x) && is_row_of(x, drive, gone.0 as u32))
                ==> b.len() == a.len() - 1
            &&& !(exists|x: RowModel| #[trigger]
                a.contains(x) && is_row_of(x, drive, gone.0 as u32)) ==> b.len() == a.len()
        }),
{
    batch_is_sound(before, after, drive, seq![], seq![gone], seq![], today);
    batch_alike(before, after, drive, seq![], seq![gone], seq![], today);
    let (s, t) = (before.scene(today), after.scene(today));
    let k = before.key_in(drive, gone.0 as u32);
    reached::list_fits(before, today);
    reached::list_fits(after, today);
    renaming::batch_takes_out(before, after, drive, gone);
    renaming::removal_counts_rows(s, t, before.changes(), k);
    renaming::list_splits(s, k, sort_by, direction);
    renaming::list_splits(t, k, sort_by, direction);
    reached::file_shows_once(before, today, sort_by, direction, drive, gone.0 as u32);
}

/// A file that a batch creates and removes again under the same path, in a sound state whose
/// list does not show it, is neither shown nor counted, whatever was searched for: no added
/// file is more, and the list has as many rows as before and none for it.
pub proof fn vanished_file_does_not_count(
    before: VolumeManager,
    after: VolumeManager,
    drive: Seq<char>,
    r: SearchResult,
    gone: (u64, String),
    today: i32,
    sort_by: SortBy,
    direction: SortDirection,
)
    requires
        before.soundly_took_up(after, drive, seq![r], seq![gone], seq![], today),
        before.search_cache is Some,
        gone.0 as u32 == r.file_id,
        text::ascii_lower(gone.1@) == text::ascii_lower(r.path@),
        forall|x: RowModel| #[trigger]
            before.list(today, sort_by, direction).contains(x) ==> !is_row_of(x, drive, r.file_id),
    ensures
        after.is_sound(today),
        after.changes().new_files == before.changes().new_files,
        forall|x: RowModel| #[trigger]
            after.list(today, sort_by, direction).contains(x) ==> !is_row_of(x, drive, r.file_id),
        after.list(today, sort_by, direction).len() == before.list(today, sort_by, direction).len(),
{
    batch_is_sound(before, after, drive, seq![r], seq![gone], seq![], today);
    batch_alike(before, after, drive, seq![r], seq![gone], seq![], today);
    let (s, t) = (before.scene(today), after.scene(today));
    let k = before.key_in(drive, r.file_id);
    reached::list_fits(before, today);
    reached::list_fits(after, today);
    renaming::batch_vanishes(before, after, drive, r, gone);
    renaming::removal_counts_rows(s, t, before.changes(), k);
    renaming::list_splits(s, k, sort_by, direction);
    renaming::list_splits(t, k, sort_by, direction);
    reached::file_shows_once(before, today, sort_by, direction, drive, r.file_id);
    reached::file_shows_once(after, today, sort_by, direction, drive, r.file_id);
}

/// When a batch renames a file that a sound state shows, the result list shows it exactly once,
/// under its new name and path, where the query takes it under these, and has as many rows as
/// before; where the query does not take it, it is gone from the list, which has one row less.
pub proof fn sound_rename(
    before: VolumeManager,
    after: VolumeManager,
    drive: Seq<char>,
    r: SearchResult,
    gone: (u64, String),
    today: i32,
    sort_by: SortBy,
    direction: SortDirection,
    was: RowModel,
) -> (entry: FileEntry)
    requires
        before.soundly_took_up(after, drive, seq![r], seq![gone], seq![], today),
        before.search_cache is Some,
        gone.0 as u32 == r.file_id,
        text::ascii_lower(gone.1@) != text::ascii_lower(r.path@),
        before.list(today, sort_by, direction).contains(was),
        is_row_of(was, drive, r.file_id),
    ensures
        entry == changes::entry_for(r, entry.path_id),
        after.is_sound(today),
        ({
            let (a, b) = (
                before.list(today, sort_by, direction),
                after.list(today, sort_by, direction),
            );
            let vol = before.volume_index@[drive];
            let row = scene::row_of(after.shelf(), vol, entry);
            &&& is_row_of(row, drive, r.file_id)
            &&& row.file.name == r.name@
            &&& names_file(before, drive, seq![r], seq![], 0) ==> row.path == Some(r.path@)
            &&& b.contains(row) <==> after.scene(today).takes(vol, entry)
            &&& forall|x: RowModel| #[trigger]
                b.contains(x) && is_row_of(x, drive, r.file_id) ==> x == row
            &&& b.len() == (if b.contains(row) {
                a.len() as int
            } else {
                a.len() - 1
            })
        }),
{
    let (added, removed) = (seq![r], seq![gone]);
    let updated = Seq::<(u64, SearchResult)>::empty();
    assert(updated =~= seq![]);
    batch_is_sound(before, after, drive, added, removed, updated, today);
    batch_alike(before, after, drive, added, removed, updated, today);
    let (s, t) = (before.scene(today), after.scene(today));
    let vol = before.volume_index@[drive];
    let k = before.key_in(drive, r.file_id);
    reached::list_fits(before, today);
    reached::list_fits(after, today);
    let entry = renaming::batch_renames(before, after, drive, r, gone);
    renaming::renaming_counts(s, t, before.changes(), vol, entry);
    renaming::list_splits(s, k, sort_by, direction);
    renaming::list_splits(t, k, sort_by, direction);
    reached::file_shows_once(before, today, sort_by, direction, drive, r.file_id);
    assert(batches::adds_last(added, removed, 0)) by {
        reveal_with_fuel(incremental::removed_path, 2);
        reveal_with_fuel(incremental::added_path, 2);
        assert(removed.drop_last() =~= seq![]);
        assert(added.drop_last() =~= seq![]);
    }
    let f = batches::batch_adds(before, after, drive, added, removed, updated, 0);
    assert(f == entry);
    told_shows(after, today, sort_by, direction, drive, entry);
    if names_file(before, drive, added, updated, 0) {
        added_path_shows(before, after, drive, added, removed, updated, 0, today, entry);
    }
    entry
}

/// A file that a batch adds in a sound state is found, as it was last added, by every later
/// search that takes it, whatever was searched for before, and also where nothing was, or where
/// the last search is used again: it has exactly one row in the result list, under its own path,
/// and stands in the first page where the list is no longer than that.
pub proof fn added_is_found_later(
    before: VolumeManager,
    mid: VolumeManager,
    after: VolumeManager,
    drive: Seq<char>,
    added: Seq<SearchResult>,
    removed: Seq<(u64, String)>,
    updated: Seq<(u64, SearchResult)>,
    k: int,
    query: Seq<char>,
    options: SearchOptions,
    age: u64,
    today: i32,
    r: (Vec<SearchResult>, usize),
) -> (entry: FileEntry)
    requires
        before.soundly_took_up(mid, drive, added, removed, updated, today),
        batches::adds_last(added, removed, k),
        mid.was_searched(after, query, options, age, today, r),
        after.wf(),
        after.fits(),
    ensures
        entry == changes::entry_for(added[k], entry.path_id),
        after.is_sound(today),
        after.search_cache is Some,
        after.search_cache->0.query@ == query,
        ({
            let vol = before.volume_index@[drive];
            let list = after.list(today, options.sort_by, options.sort_direction);
            let row = scene::row_of(after.shelf(), vol, entry);
            &&& r.1 == list.len()
            &&& list.contains(row) <==> after.scene(today).takes(vol, entry)
            &&& forall|x: RowModel| #[trigger]
                list.contains(x) && is_row_of(x, drive, added[k].file_id) ==> x == row
            &&& names_file(before, drive, added, updated, k) ==> row.path == Some(added[k].path@)
            &&& list.contains(row) && list.len() <= FIRST_PAGE && row.path is Some
                ==> rows::result_models(r.0@).contains(rows::row_result(row)->0)
        }),
{
    batch_is_sound(before, mid, drive, added, removed, updated, today);
    let entry = batches::batch_adds(before, mid, drive, added, removed, updated, k);
    sound_pages::sound_search(mid, after, query, options, age, today, r);
    told_shows(after, today, options.sort_by, options.sort_direction, drive, entry);
    let vol = before.volume_index@[drive];
    let list = after.list(today, options.sort_by, options.sort_direction);
    let row = scene::row_of(after.shelf(), vol, entry);
    assert(after.shelf() == mid.shelf());
    if names_file(before, drive, added, updated, k) {
        added_path_shows(before, mid, drive, added, removed, updated, k, today, entry);
    }
    if list.contains(row) && list.len() <= FIRST_PAGE && row.path is Some {
        assert(list.subrange(0, list.len() as int) =~= list);
        let n = choose|n: int| 0 <= n < list.len() && list[n] == row;
        seqs::filter_map_has(list, |x: RowModel| rows::row_result(x), n);
    }
    entry
}

} // verus!
