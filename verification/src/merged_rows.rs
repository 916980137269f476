//! What holds of the result list when the changes are merged into the volumes: it shows
//! the same rows.

use crate::changes;
use crate::changes::DeltaModel;
use crate::keys;
use crate::merging;
use crate::result_list;
use crate::rows::RowModel;
use crate::scene;
use crate::scene::Scene;
use crate::search::{FileEntry, SortBy, SortDirection};
use crate::search_cache;
use crate::search_cache::SearchCache;
use crate::searching;
use crate::seqs;
use crate::sort_cache;
use crate::volume_map;
use crate::volume_map::{VolumeMap, VolumeSlot};
use vstd::prelude::*;

verus! {

/// Whether the number `v` leads to a volume at hand.
pub open spec fn is_at_hand(slots: Seq<VolumeSlot>, vol_names: Seq<String>, v: u8) -> bool {
    exists|j: int|
        0 <= j < slots.len() && changes::is_volume(vol_names, v, (#[trigger] slots[j]).name@)
}

/// Whether the file with the key `k` is listed by its volume.
pub open spec fn is_listed(slots: Seq<VolumeSlot>, vol_names: Seq<String>, k: u64) -> bool {
    exists|j: int, i: int| #[trigger] is_listed_at(slots, vol_names, k, j, i)
}

/// Whether the file with the key `k` is that at place `i` of the volume in slot `j`.
pub open spec fn is_listed_at(
    slots: Seq<VolumeSlot>,
    vol_names: Seq<String>,
    k: u64,
    j: int,
    i: int,
) -> bool {
    &&& 0 <= j < slots.len()
    &&& keys::volume_in(k) == merging::number_of(vol_names, slots[j].name@)
    &&& 0 <= i < slots[j].monitor.files@.len()
    &&& k == keys::key(keys::volume_in(k), slots[j].monitor.files@[i].file_id)
}

/// Whether the changes are those of volumes at hand, and the changed files are listed by
/// them.
pub open spec fn changes_fit(
    slots: Seq<VolumeSlot>,
    vol_names: Seq<String>,
    d: DeltaModel,
) -> bool {
    &&& forall|i: int|
        0 <= i < d.new_files.len() ==> is_at_hand(
            slots,
            vol_names,
            (#[trigger] d.new_files[i]).0,
        )
    &&& forall|k: u64| #[trigger]
        d.modified.contains_key(k) ==> is_listed(slots, vol_names, k)
}

/// Whether each volume has a number, and its files can be numbered in positions.
pub open spec fn positions_fit(slots: Seq<VolumeSlot>, vol_names: Seq<String>) -> bool {
    &&& merging::all_numbered(slots, vol_names)
    &&& vol_names.len() <= 256
    &&& forall|j: int|
        0 <= j < slots.len() ==> (#[trigger] slots[j]).monitor.files@.len() <= 0x100_0000
}

/// Whether a search takes a file of the volume in slot `j`.
spec fn taken(c: SearchCache, slots: Seq<VolumeSlot>, today: i32, j: int, f: FileEntry) -> bool {
    searching::takes(
        search_cache::query_model(c.query@, today),
        c.files_only,
        c.directories_only,
        slots[j].monitor.path_of(f),
        f,
    )
}

/// The volume in a slot stands on the shelf under its number, and under every other that its
/// name was given.
proof fn slot_on_shelf(volumes: VolumeMap, vol_names: Seq<String>, j: int)
    requires
        volumes.wf(),
        positions_fit(volumes.slots@, vol_names),
        0 <= j < volumes.slots@.len(),
    ensures
        ({
            let slot = volumes.slots@[j];
            let n = merging::number_of(vol_names, slot.name@);
            let shelf = volume_map::shelf_of(volumes@, vol_names);
            &&& n < shelf.len()
            &&& shelf[n as int].name == slot.name@
            &&& shelf[n as int].monitor == Some(slot.monitor)
            &&& changes::is_volume(vol_names, n, slot.name@)
            &&& forall|v: u8, f: FileEntry|
                changes::is_volume(vol_names, v, slot.name@) ==> #[trigger] scene::row_of(
                    shelf,
                    v,
                    f,
                ) == scene::row_of(shelf, n, f)
            &&& forall|v: u8| #[trigger]
                changes::is_volume(vol_names, v, slot.name@) ==> shelf[v as int]
                    == shelf[n as int]
        }),
{
    let slots = volumes.slots@;
    let name = slots[j].name@;
    assert(merging::is_numbered(vol_names, name));
    let k = choose|k: int| 0 <= k < vol_names.len() && (#[trigger] vol_names[k])@ == name;
    let last = last_number(vol_names, name, k);
    let n = choose|n: int| merging::last_named(vol_names, name, n);
    volume_map::name_in_slot(slots, name);
    assert(volumes@.contains_key(name));
}

/// A name that has a number has a last one.
proof fn last_number(vol_names: Seq<String>, name: Seq<char>, k: int) -> (n: int)
    requires
        0 <= k < vol_names.len(),
        vol_names[k]@ == name,
    ensures
        merging::last_named(vol_names, name, n),
    decreases vol_names.len() - k,
{
    if exists|i: int| k < i < vol_names.len() && (#[trigger] vol_names[i])@ == name {
        let i = choose|i: int| k < i < vol_names.len() && (#[trigger] vol_names[i])@ == name;
        last_number(vol_names, name, i)
    } else {
        k
    }
}

/// A file of the volumes that the search takes and that is not hidden is shown.
proof fn taken_is_active(
    c: SearchCache,
    volumes: VolumeMap,
    vol_names: Seq<String>,
    today: i32,
    j: int,
    i: int,
) -> (k: u32)
    requires
        c.wf(),
        volumes.wf(),
        positions_fit(volumes.slots@, vol_names),
        forall|p: u32| #[trigger]
            c.matches_in(volumes.slots@, vol_names, today).contains(p)
                ==> c.base.matched@.contains(p),
        0 <= j < volumes.slots@.len(),
        0 <= i < volumes.slots@[j].monitor.files@.len(),
        taken(c, volumes.slots@, today, j, volumes.slots@[j].monitor.files@[i]),
        !c.delta.model(None).hides(
            keys::key(
                merging::number_of(vol_names, volumes.slots@[j].name@),
                volumes.slots@[j].monitor.files@[i].file_id,
            ),
        ),
    ensures
        ({
            let shelf = volume_map::shelf_of(volumes@, vol_names);
            let slot = volumes.slots@[j];
            let n = merging::number_of(vol_names, slot.name@);
            c.scene(shelf, today).active_row(k) == Some(
                scene::row_of(shelf, n, slot.monitor.files@[i]),
            )
        }),
{
    let slots = volumes.slots@;
    let n = merging::number_of(vol_names, slots[j].name@);
    let shelf = volume_map::shelf_of(volumes@, vol_names);
    slot_on_shelf(volumes, vol_names, j);
    assert(slots[j].monitor.files@.len() <= 0x100_0000);
    assert(merging::is_numbered(vol_names, slots[j].name@));
    searching::taken_is_found(
        slots,
        merging::numbers_of(vol_names),
        search_cache::query_model(c.query@, today),
        c.files_only,
        c.directories_only,
        j,
        i,
    );
    let p = sort_cache::packed(n, i as u32);
    sort_cache::unpacking_undoes_packing(n, i as u32);
    assert(c.matches_in(slots, vol_names, today).contains(p));
    assert(c.base.matched@.contains(p));
    let k = choose|k: int| 0 <= k < c.base.matched@.len() && c.base.matched@[k] == p;
    let s = c.scene(shelf, today);
    assert(s.base_row(k) == Some(scene::row_of(shelf, n, slots[j].monitor.files@[i])));
    k as u32
}

/// What is shown of the matched files is a file of the volumes that the search takes and
/// that is not hidden.
proof fn active_is_taken(
    c: SearchCache,
    volumes: VolumeMap,
    vol_names: Seq<String>,
    today: i32,
    k: u32,
) -> (r: (int, int))
    requires
        c.wf(),
        volumes.wf(),
        positions_fit(volumes.slots@, vol_names),
        forall|p: u32| #[trigger]
            c.base.matched@.contains(p) ==> c.matches_in(
                volumes.slots@,
                vol_names,
                today,
            ).contains(p),
        c.scene(volume_map::shelf_of(volumes@, vol_names), today).active_row(k) is Some,
    ensures
        ({
            let slots = volumes.slots@;
            let shelf = volume_map::shelf_of(volumes@, vol_names);
            let f = slots[r.0].monitor.files@[r.1];
            let n = merging::number_of(vol_names, slots[r.0].name@);
            &&& 0 <= r.0 < slots.len()
            &&& 0 <= r.1 < slots[r.0].monitor.files@.len()
            &&& taken(c, slots, today, r.0, f)
            &&& !c.delta.model(None).hides(keys::key(n, f.file_id))
            &&& c.scene(shelf, today).active_row(k) == Some(scene::row_of(shelf, n, f))
        }),
{
    let slots = volumes.slots@;
    let p = c.base.matched@[k as int];
    assert(c.base.matched@.contains(p));
    assert(c.matches_in(slots, vol_names, today).contains(p));
    let (j, i) = searching::found_is_taken(
        slots,
        merging::numbers_of(vol_names),
        search_cache::query_model(c.query@, today),
        c.files_only,
        c.directories_only,
        p,
    );
    let n = merging::number_of(vol_names, slots[j].name@);
    slot_on_shelf(volumes, vol_names, j);
    assert(slots[j].monitor.files@.len() <= 0x100_0000);
    assert(merging::is_numbered(vol_names, slots[j].name@));
    sort_cache::unpacking_undoes_packing(n, i as u32);
    (j, i)
}

/// Where a row of the changes comes from.
pub proof fn delta_row_source(s: Scene, r: RowModel)
    requires
        s.modified.dom().finite(),
    ensures
        s.delta_rows().contains(r) <==> (exists|i: int|
            0 <= i < s.new_files.len() && s.new_row(#[trigger] s.new_files[i]) == Some(r)) || (
        exists|k: u64| #[trigger] s.modified.contains_key(k) && s.modified_row(k) == Some(r)),
{
    let new = |e: (u8, FileEntry)| s.new_row(e);
    let changed = |k: u64| s.modified_row(k);
    let (a, b) = (s.new_files.filter_map(new), s.modified_keys().filter_map(changed));
    let all = s.delta_rows();
    assert(all == a + b);
    seqs::in_ascent_ascends(s.modified.dom());
    if all.contains(r) {
        let n = choose|n: int| 0 <= n < all.len() && all[n] == r;
        if n < a.len() {
            assert(a.contains(r));
            s.new_files.lemma_filter_map_contains(new, r);
            let e = choose|e: (u8, FileEntry)| #[trigger]
                s.new_files.contains(e) && new(e) == Some(r);
            let i = choose|i: int| 0 <= i < s.new_files.len() && s.new_files[i] == e;
            assert(s.new_row(s.new_files[i]) == Some(r));
        } else {
            assert(b[n - a.len()] == r);
            assert(b.contains(r));
            s.modified_keys().lemma_filter_map_contains(changed, r);
            let k = choose|k: u64| #[trigger]
                s.modified_keys().contains(k) && changed(k) == Some(r);
            assert(s.modified_keys().to_set().contains(k));
            assert(s.modified.contains_key(k));
        }
    }
    if exists|i: int| 0 <= i < s.new_files.len() && s.new_row(#[trigger] s.new_files[i]) == Some(r) {
        let i = choose|i: int|
            0 <= i < s.new_files.len() && s.new_row(#[trigger] s.new_files[i]) == Some(r);
        seqs::filter_map_has(s.new_files, new, i);
        let n = choose|n: int| 0 <= n < a.len() && a[n] == r;
        assert(all[n] == r);
    }
    if exists|k: u64| #[trigger] s.modified.contains_key(k) && s.modified_row(k) == Some(r) {
        let k = choose|k: u64| #[trigger] s.modified.contains_key(k) && s.modified_row(k) == Some(r);
        assert(s.modified_keys().to_set().contains(k));
        let i = s.modified_keys().index_of(k);
        seqs::filter_map_has(s.modified_keys(), changed, i);
        let n = choose|n: int| 0 <= n < b.len() && b[n] == r;
        assert(all[a.len() + n] == r);
    }
}

/// A file that the merge leaves in a volume came from the volume or from the changes.
proof fn merged_file_source(
    files: Seq<FileEntry>,
    name: Seq<char>,
    vol_names: Seq<String>,
    d: DeltaModel,
    f: FileEntry,
)
    ensures
        merging::files_after(files, name, vol_names, d).contains(f) <==> (exists|i: int|
            0 <= i < files.len() && merging::settled(
                d,
                merging::number_of(vol_names, name),
                #[trigger] files[i],
            ) == Some(f)) || (exists|i: int|
            0 <= i < d.new_files.len() && merging::added_file(
                d,
                vol_names,
                name,
                #[trigger] d.new_files[i],
            ) == Some(f)),
{
    let vol = merging::number_of(vol_names, name);
    let settle = |f: FileEntry| merging::settled(d, vol, f);
    let pick = |e: (u8, FileEntry)| merging::added_file(d, vol_names, name, e);
    let (a, b) = (files.filter_map(settle), d.new_files.filter_map(pick));
    let all = merging::files_after(files, name, vol_names, d);
    assert(all == a + b);
    if all.contains(f) {
        let n = choose|n: int| 0 <= n < all.len() && all[n] == f;
        if n < a.len() {
            assert(a.contains(f));
            files.lemma_filter_map_contains(settle, f);
            let e = choose|e: FileEntry| #[trigger] files.contains(e) && settle(e) == Some(f);
            let i = choose|i: int| 0 <= i < files.len() && files[i] == e;
            assert(merging::settled(d, vol, files[i]) == Some(f));
        } else {
            assert(b[n - a.len()] == f);
            assert(b.contains(f));
            d.new_files.lemma_filter_map_contains(pick, f);
            let e = choose|e: (u8, FileEntry)| #[trigger]
                d.new_files.contains(e) && pick(e) == Some(f);
            let i = choose|i: int| 0 <= i < d.new_files.len() && d.new_files[i] == e;
            assert(merging::added_file(d, vol_names, name, d.new_files[i]) == Some(f));
        }
    }
    if exists|i: int|
        0 <= i < files.len() && merging::settled(d, vol, #[trigger] files[i]) == Some(f) {
        let i = choose|i: int|
            0 <= i < files.len() && merging::settled(d, vol, #[trigger] files[i]) == Some(f);
        seqs::filter_map_has(files, settle, i);
        let n = choose|n: int| 0 <= n < a.len() && a[n] == f;
        assert(all[n] == f);
    }
    if exists|i: int|
        0 <= i < d.new_files.len() && merging::added_file(
            d,
            vol_names,
            name,
            #[trigger] d.new_files[i],
        ) == Some(f) {
        let i = choose|i: int|
            0 <= i < d.new_files.len() && merging::added_file(
                d,
                vol_names,
                name,
                #[trigger] d.new_files[i],
            ) == Some(f);
        seqs::filter_map_has(d.new_files, pick, i);
        let n = choose|n: int| 0 <= n < b.len() && b[n] == f;
        assert(all[a.len() + n] == f);
    }
}

/// A volume has the same rows for its files before and after a merge.
proof fn merge_keeps_row_of(
    volumes: VolumeMap,
    merged: VolumeMap,
    vol_names: Seq<String>,
    d: DeltaModel,
    j: int,
    f: FileEntry,
)
    requires
        volumes.wf(),
        merged.wf(),
        positions_fit(volumes.slots@, vol_names),
        positions_fit(merged.slots@, vol_names),
        merging::volumes_after(volumes.slots@, merged.slots@, vol_names, d),
        0 <= j < volumes.slots@.len(),
    ensures
        ({
            let n = merging::number_of(vol_names, volumes.slots@[j].name@);
            &&& merged.slots@[j].name == volumes.slots@[j].name
            &&& merged.slots@[j].monitor.path_of(f) == volumes.slots@[j].monitor.path_of(f)
            &&& scene::row_of(volume_map::shelf_of(merged@, vol_names), n, f) == scene::row_of(
                volume_map::shelf_of(volumes@, vol_names),
                n,
                f,
            )
        }),
{
    assert(merged.slots@[j].name == volumes.slots@[j].name);
    slot_on_shelf(volumes, vol_names, j);
    slot_on_shelf(merged, vol_names, j);
}

/// A file that stands in a volume after the merge, and that the search takes, is shown.
proof fn merged_file_is_shown(
    c: SearchCache,
    after: SearchCache,
    volumes: VolumeMap,
    merged: VolumeMap,
    vol_names: Seq<String>,
    today: i32,
    j: int,
    f: FileEntry,
) -> (k: u32)
    requires
        after.wf(),
        volumes.wf(),
        merged.wf(),
        positions_fit(volumes.slots@, vol_names),
        positions_fit(merged.slots@, vol_names),
        c.delta.has_changes(),
        c.was_merged(after, volumes, merged, vol_names, today),
        0 <= j < volumes.slots@.len(),
        merging::files_after(
            volumes.slots@[j].monitor.files@,
            volumes.slots@[j].name@,
            vol_names,
            c.delta.model(None),
        ).contains(f),
        taken(c, volumes.slots@, today, j, f),
    ensures
        ({
            let n = merging::number_of(vol_names, volumes.slots@[j].name@);
            after.scene(volume_map::shelf_of(merged@, vol_names), today).active_row(k) == Some(
                scene::row_of(volume_map::shelf_of(volumes@, vol_names), n, f),
            )
        }),
{
    merge_keeps_row_of(volumes, merged, vol_names, c.delta.model(None), j, f);
    let files = merged.slots@[j].monitor.files@;
    let i = choose|i: int| 0 <= i < files.len() && files[i] == f;
    assert(after.matches_in(merged.slots@, vol_names, today) == after.base.matched@);
    taken_is_active(after, merged, vol_names, today, j, i)
}

/// Where what is matched is what the search takes on the same day, the changes are those of
/// volumes at hand, and the changed files are listed by these, merging the changes into the
/// volumes leaves the rows of the result list as they were: nothing that was shown is
/// missing, and nothing is shown that was not.
pub proof fn merge_keeps_rows(
    c: SearchCache,
    after: SearchCache,
    volumes: VolumeMap,
    merged: VolumeMap,
    vol_names: Seq<String>,
    today: i32,
    sort_by: SortBy,
    direction: SortDirection,
    r: RowModel,
)
    requires
        c.wf(),
        after.wf(),
        volumes.wf(),
        merged.wf(),
        c.was_merged(after, volumes, merged, vol_names, today),
        positions_fit(volumes.slots@, vol_names),
        positions_fit(merged.slots@, vol_names),
        changes_fit(volumes.slots@, vol_names, c.delta.model(None)),
        forall|p: u32| #[trigger]
            c.base.matched@.contains(p) <==> c.matches_in(
                volumes.slots@,
                vol_names,
                today,
            ).contains(p),
        c.scene(volume_map::shelf_of(volumes@, vol_names), today).delta_rows().len() <= usize::MAX,
    ensures
        ({
            let s = c.scene(volume_map::shelf_of(volumes@, vol_names), today);
            let t = after.scene(volume_map::shelf_of(merged@, vol_names), today);
            s.shown(s.base_order(sort_by), sort_by, direction).contains(r) <==> t.shown(
                t.base_order(sort_by),
                sort_by,
                direction,
            ).contains(r)
        }),
{
    let s = c.scene(volume_map::shelf_of(volumes@, vol_names), today);
    let t = after.scene(volume_map::shelf_of(merged@, vol_names), today);
    if c.delta.has_changes() {
        result_list::no_delta_rows(t);
        if s.shown(s.base_order(sort_by), sort_by, direction).contains(r) {
            let k = shown_stays(c, after, volumes, merged, vol_names, today, sort_by, direction, r);
            result_list::matched_is_shown(t, sort_by, direction, k);
        }
        if t.shown(t.base_order(sort_by), sort_by, direction).contains(r) {
            result_list::shown_holds(t, sort_by, direction, r);
            result_list::base_ascends(t, sort_by);
            let k = choose|k: u32| #[trigger] t.active_row(k) == Some(r);
            shown_was(c, after, volumes, merged, vol_names, today, sort_by, direction, k);
        }
    }
}

/// What was shown before the merge is among the matched files after it.
proof fn shown_stays(
    c: SearchCache,
    after: SearchCache,
    volumes: VolumeMap,
    merged: VolumeMap,
    vol_names: Seq<String>,
    today: i32,
    sort_by: SortBy,
    direction: SortDirection,
    r: RowModel,
) -> (k: u32)
    requires
        c.wf(),
        after.wf(),
        volumes.wf(),
        merged.wf(),
        c.delta.has_changes(),
        c.was_merged(after, volumes, merged, vol_names, today),
        positions_fit(volumes.slots@, vol_names),
        positions_fit(merged.slots@, vol_names),
        changes_fit(volumes.slots@, vol_names, c.delta.model(None)),
        forall|p: u32| #[trigger]
            c.base.matched@.contains(p) <==> c.matches_in(
                volumes.slots@,
                vol_names,
                today,
            ).contains(p),
        ({
            let s = c.scene(volume_map::shelf_of(volumes@, vol_names), today);
            &&& s.delta_rows().len() <= usize::MAX
            &&& s.shown(s.base_order(sort_by), sort_by, direction).contains(r)
        }),
    ensures
        after.scene(volume_map::shelf_of(merged@, vol_names), today).active_row(k) == Some(r),
{
    broadcast use keys::key_has_parts;

    broadcast use vstd::std_specs::btree::group_btree_axioms;

    let slots = volumes.slots@;
    let d = c.delta.model(None);
    let s = c.scene(volume_map::shelf_of(volumes@, vol_names), today);
    result_list::shown_holds(s, sort_by, direction, r);
    result_list::base_ascends(s, sort_by);
    if s.active_rows(s.base_order(sort_by)).contains(r) {
        let k = choose|k: u32| #[trigger] s.active_row(k) == Some(r);
        let (j, i) = active_is_taken(c, volumes, vol_names, today, k);
        let (m, n) = (slots[j].monitor, merging::number_of(vol_names, slots[j].name@));
        let f = m.files@[i];
        assert(merging::settled(d, n, m.files@[i]) == Some(f));
        merged_file_source(m.files@, slots[j].name@, vol_names, d, f);
        merged_file_is_shown(c, after, volumes, merged, vol_names, today, j, f)
    } else {
        delta_row_source(s, r);
        if exists|i: int|
            0 <= i < s.new_files.len() && s.new_row(#[trigger] s.new_files[i]) == Some(r) {
            let i = choose|i: int|
                0 <= i < s.new_files.len() && s.new_row(#[trigger] s.new_files[i]) == Some(r);
            let (v, f) = s.new_files[i];
            assert(is_at_hand(slots, vol_names, d.new_files[i].0));
            let j = choose|j: int|
                0 <= j < slots.len() && changes::is_volume(
                    vol_names,
                    v,
                    (#[trigger] slots[j]).name@,
                );
            slot_on_shelf(volumes, vol_names, j);
            assert(merging::added_file(d, vol_names, slots[j].name@, d.new_files[i]) == Some(f));
            merged_file_source(slots[j].monitor.files@, slots[j].name@, vol_names, d, f);
            merged_file_is_shown(c, after, volumes, merged, vol_names, today, j, f)
        } else {
            let x = choose|x: u64| #[trigger]
                s.modified.contains_key(x) && s.modified_row(x) == Some(r);
            assert(d.modified.contains_key(x));
            let (j, i) = choose|j: int, i: int| #[trigger]
                is_listed_at(slots, vol_names, x, j, i);
            slot_on_shelf(volumes, vol_names, j);
            let f = d.modified[x];
            let n = merging::number_of(vol_names, slots[j].name@);
            assert(keys::volume_in(x) == n);
            assert(merging::settled(d, n, slots[j].monitor.files@[i]) == Some(f));
            merged_file_source(slots[j].monitor.files@, slots[j].name@, vol_names, d, f);
            merged_file_is_shown(c, after, volumes, merged, vol_names, today, j, f)
        }
    }
}

/// What is shown after the merge was shown before it.
proof fn shown_was(
    c: SearchCache,
    after: SearchCache,
    volumes: VolumeMap,
    merged: VolumeMap,
    vol_names: Seq<String>,
    today: i32,
    sort_by: SortBy,
    direction: SortDirection,
    k: u32,
)
    requires
        c.wf(),
        after.wf(),
        volumes.wf(),
        merged.wf(),
        c.delta.has_changes(),
        c.was_merged(after, volumes, merged, vol_names, today),
        positions_fit(volumes.slots@, vol_names),
        positions_fit(merged.slots@, vol_names),
        forall|p: u32| #[trigger]
            c.base.matched@.contains(p) <==> c.matches_in(
                volumes.slots@,
                vol_names,
                today,
            ).contains(p),
        c.scene(volume_map::shelf_of(volumes@, vol_names), today).delta_rows().len() <= usize::MAX,
        after.scene(volume_map::shelf_of(merged@, vol_names), today).active_row(k) is Some,
    ensures
        ({
            let s = c.scene(volume_map::shelf_of(volumes@, vol_names), today);
            let t = after.scene(volume_map::shelf_of(merged@, vol_names), today);
            s.shown(s.base_order(sort_by), sort_by, direction).contains(t.active_row(k)->0)
        }),
{
    broadcast use keys::key_has_parts;

    broadcast use vstd::std_specs::btree::group_btree_axioms;

    let slots = volumes.slots@;
    let d = c.delta.model(None);
    let s = c.scene(volume_map::shelf_of(volumes@, vol_names), today);
    let t = after.scene(volume_map::shelf_of(merged@, vol_names), today);
    let r = t.active_row(k)->0;
    assert(after.matches_in(merged.slots@, vol_names, today) == after.base.matched@);
    let (j, at) = active_is_taken(after, merged, vol_names, today, k);
    let f = merged.slots@[j].monitor.files@[at];
    let name = slots[j].name@;
    let files = slots[j].monitor.files@;
    let n = merging::number_of(vol_names, name);
    merge_keeps_row_of(volumes, merged, vol_names, d, j, f);
    slot_on_shelf(volumes, vol_names, j);
    assert(merged.slots@[j].monitor.files@ == merging::files_after(files, name, vol_names, d));
    assert(merging::files_after(files, name, vol_names, d).contains(f));
    merged_file_source(files, name, vol_names, d, f);
    assert(r == scene::row_of(s.shelf, n, f));
    assert(s.takes(n, f));
    if exists|i: int| 0 <= i < files.len() && merging::settled(d, n, #[trigger] files[i]) == Some(f) {
        let i = choose|i: int|
            0 <= i < files.len() && merging::settled(d, n, #[trigger] files[i]) == Some(f);
        let x = keys::key(n, files[i].file_id);
        if d.modified.contains_key(x) {
            assert(s.modified_row(x) == Some(r));
            assert(s.modified.contains_key(x));
            delta_row_source(s, r);
            result_list::shown_holds(s, sort_by, direction, r);
        } else {
            let k0 = taken_is_active(c, volumes, vol_names, today, j, i);
            result_list::matched_is_shown(s, sort_by, direction, k0);
        }
    } else {
        let i = choose|i: int|
            0 <= i < d.new_files.len() && merging::added_file(
                d,
                vol_names,
                name,
                #[trigger] d.new_files[i],
            ) == Some(f);
        assert(s.new_row(s.new_files[i]) == Some(r));
        delta_row_source(s, r);
        result_list::shown_holds(s, sort_by, direction, r);
    }
}

} // verus!
