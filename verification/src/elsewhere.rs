//! What a batch of changes of one volume leaves of the others: all that the result list
//! shows of them.

use crate::changes;
use crate::changes::DeltaModel;
use crate::delta_index;
use crate::fid_index;
use crate::incremental;
use crate::keys;
use crate::merged_rows;
use crate::result_list;
use crate::rows::RowModel;
use crate::scene::Scene;
use crate::search::{FileEntry, SearchResult, SortBy, SortDirection};
use crate::sort_cache;
use crate::volume_manager::VolumeManager;
use vstd::prelude::*;

verus! {

/// Whether two sets of changes agree on all volumes but `vol`.
pub open spec fn same_elsewhere(d: DeltaModel, e: DeltaModel, vol: u8) -> bool {
    &&& forall|k: u64|
        keys::volume_in(k) != vol ==> #[trigger] d.deleted.contains(k) == e.deleted.contains(k)
    &&& forall|k: u64|
        keys::volume_in(k) != vol ==> #[trigger] d.renamed.contains(k) == e.renamed.contains(k)
    &&& forall|k: u64|
        keys::volume_in(k) != vol ==> #[trigger] d.modified.contains_key(k)
            == e.modified.contains_key(k)
    &&& forall|k: u64|
        keys::volume_in(k) != vol && #[trigger] d.modified.contains_key(k) ==> d.modified[k]
            == e.modified[k]
    &&& forall|x: (u8, FileEntry)|
        x.0 != vol ==> #[trigger] d.new_files.contains(x) == e.new_files.contains(x)
}

/// Exchanging a file of volume `vol` exchanges no file of another one.
proof fn exchange_elsewhere(s: Seq<(u8, FileEntry)>, i: int, x: (u8, FileEntry), y: (u8, FileEntry))
    requires
        0 <= i < s.len(),
        s[i].0 == x.0,
        y.0 != x.0,
    ensures
        s.update(i, x).contains(y) == s.contains(y),
{
    let t = s.update(i, x);
    if s.contains(y) {
        let k = choose|k: int| 0 <= k < s.len() && s[k] == y;
        assert(t[k] == y);
    }
    if t.contains(y) {
        let k = choose|k: int| 0 <= k < t.len() && t[k] == y;
        assert(s[k] == y);
    }
}

proof fn added_change_elsewhere(d: DeltaModel, vol: u8, fid: u32, entry: FileEntry)
    requires
        d.is_indexed(),
    ensures
        same_elsewhere(d, d.with_added_changed(keys::key(vol, fid), entry), vol),
{
    broadcast use keys::key_has_parts;

    let k = keys::key(vol, fid);
    if d.index.contains_key(k) {
        let i = d.index[k] as int;
        assert(delta_index::added_key(d.new_files[i]) == k);
        let e = d.with_added_changed(k, entry);
        assert forall|x: (u8, FileEntry)|
            x.0 != vol implies #[trigger] d.new_files.contains(x) == e.new_files.contains(x) by {
            exchange_elsewhere(d.new_files, i, (vol, entry), x);
        }
    }
}

proof fn addition_elsewhere(d: DeltaModel, vol: u8, known: bool, entry: FileEntry)
    requires
        d.is_indexed(),
        d.new_files.len() < usize::MAX,
    ensures
        same_elsewhere(d, d.with_addition(vol, known, false, entry), vol),
{
    broadcast use keys::key_has_parts;

    let k = keys::key(vol, entry.file_id);
    let c = if known {
        delta_index::removal_keeps(d, k);
        d.with_removal(false, k)
    } else {
        d
    };
    let e = c.with_new(vol, false, entry);
    if c.index.contains_key(k) {
        added_change_elsewhere(c, vol, entry.file_id, entry);
    } else {
        assert forall|x: (u8, FileEntry)|
            x.0 != vol implies #[trigger] d.new_files.contains(x) == e.new_files.contains(x) by {
            if d.new_files.contains(x) {
                let i = choose|i: int| 0 <= i < d.new_files.len() && d.new_files[i] == x;
                assert(e.new_files[i] == x);
            }
            if e.new_files.contains(x) {
                let i = choose|i: int| 0 <= i < e.new_files.len() && e.new_files[i] == x;
                assert(d.new_files[i] == x);
            }
        }
    }
}

proof fn updates_elsewhere(
    d: DeltaModel,
    vol: u8,
    index: Seq<(u32, u32)>,
    fids: Seq<u32>,
    entries: Seq<FileEntry>,
)
    requires
        d.is_indexed(),
        delta_index::under_own_ids(fids, entries),
    ensures
        same_elsewhere(d, d.with_updates(vol, index, |fid: u32| false, fids, entries), vol),
    decreases fids.len(),
{
    broadcast use keys::key_has_parts;

    if fids.len() > 0 {
        let (f, e) = (fids.drop_last(), entries.drop_last());
        assert forall|i: int| 0 <= i < f.len() implies #[trigger] e[i].file_id == f[i] by {
            assert(entries[i].file_id == fids[i]);
        }
        updates_elsewhere(d, vol, index, f, e);
        delta_index::updates_keep(d, vol, index, f, e);
        let most = d.with_updates(vol, index, |fid: u32| false, f, e);
        added_change_elsewhere(most, vol, fids.last(), entries.last());
    }
}

proof fn removals_elsewhere(d: DeltaModel, vol: u8, fids: Seq<u32>)
    ensures
        same_elsewhere(d, d.with_removals(vol, |fid: u32| false, fids), vol),
    decreases fids.len(),
{
    broadcast use keys::key_has_parts;

    if fids.len() > 0 {
        removals_elsewhere(d, vol, fids.drop_last());
    }
}

proof fn additions_elsewhere(
    d: DeltaModel,
    vol: u8,
    index: Seq<(u32, u32)>,
    entries: Seq<FileEntry>,
    passed_over: spec_fn(u32) -> bool,
)
    requires
        d.is_indexed(),
        d.new_files.len() + entries.len() <= usize::MAX,
    ensures
        same_elsewhere(
            d,
            d.with_additions(vol, index, |fid: u32| false, entries, passed_over),
            vol,
        ),
    decreases entries.len(),
{
    if entries.len() > 0 {
        let init = entries.drop_last();
        let e = entries.last();
        additions_elsewhere(d, vol, index, init, passed_over);
        delta_index::additions_keep(d, vol, index, init, passed_over);
        addition_elsewhere(
            d.with_additions(vol, index, |fid: u32| false, init, passed_over),
            vol,
            fid_index::knows(index, e.file_id),
            e,
        );
    }
}

/// A batch of changes of volume `vol` leaves the changes of the others.
pub proof fn batch_elsewhere(
    before: VolumeManager,
    after: VolumeManager,
    drive: Seq<char>,
    added: Seq<SearchResult>,
    removed: Seq<(u64, String)>,
    updated: Seq<(u64, SearchResult)>,
)
    requires
        before.took_up(after, drive, added, removed, updated),
        before.changes().is_indexed(),
        before.changes().new_files.len() + added.len() <= usize::MAX,
        delta_index::own_ids(updated),
    ensures
        same_elsewhere(before.changes(), after.changes(), before.volume_index@[drive]),
{
    delta_index::batch_keeps_index(before, after, drive, added, removed, updated);
    let m = before.volumes@[drive];
    let vol = before.volume_index@[drive];
    let t = m.path_table@;
    let d = before.changes();
    let (d1, d2, d3) = delta_index::batch_steps(d, vol, m.ready_index(), t, added, removed, updated);
    let results = incremental::results_of(updated);
    delta_index::changed_under_own_ids(t, updated);
    updates_elsewhere(
        d,
        vol,
        m.ready_index(),
        incremental::updated_ids(updated),
        changes::entries_for(t, results),
    );
    removals_elsewhere(d1, vol, incremental::removed_ids(removed));
    additions_elsewhere(
        d2,
        vol,
        m.ready_index(),
        changes::entries_for(changes::table_after(t, results), added),
        |fid: u32| incremental::came_and_went(added, removed, fid),
    );
}

/// What two lists are made from, where they agree on all volumes but `vol`, which has the
/// name `drive`.
spec fn alike_elsewhere(
    s: Scene,
    t: Scene,
    d: DeltaModel,
    e: DeltaModel,
    vol: u8,
    drive: Seq<char>,
) -> bool {
    &&& same_elsewhere(d, e, vol)
    &&& s == s.with_delta(d)
    &&& t == t.with_delta(e)
    &&& t.matched == s.matched
    &&& t.query == s.query
    &&& t.files_only == s.files_only
    &&& t.directories_only == s.directories_only
    &&& vol < s.shelf.len()
    &&& s.shelf[vol as int].name == drive
    &&& t.shelf.len() == s.shelf.len()
    &&& forall|w: int|
        0 <= w < s.shelf.len() ==> (#[trigger] t.shelf[w]).name == s.shelf[w].name
    &&& forall|w: int|
        0 <= w < s.shelf.len() && s.shelf[w].name != drive ==> #[trigger] t.shelf[w] == s.shelf[w]
}

proof fn alike_both_ways(
    s: Scene,
    t: Scene,
    d: DeltaModel,
    e: DeltaModel,
    vol: u8,
    drive: Seq<char>,
)
    requires
        alike_elsewhere(s, t, d, e, vol, drive),
    ensures
        alike_elsewhere(t, s, e, d, vol, drive),
{
    assert forall|k: u64| keys::volume_in(k) != vol implies {
        &&& #[trigger] e.deleted.contains(k) == d.deleted.contains(k)
        &&& e.renamed.contains(k) == d.renamed.contains(k)
        &&& e.modified.contains_key(k) == d.modified.contains_key(k)
        &&& e.modified.contains_key(k) ==> e.modified[k] == d.modified[k]
    } by {
        assert(d.deleted.contains(k) == e.deleted.contains(k));
        assert(d.renamed.contains(k) == e.renamed.contains(k));
        assert(d.modified.contains_key(k) == e.modified.contains_key(k));
    }
    assert forall|k: u64|
        keys::volume_in(k) != vol implies #[trigger] e.renamed.contains(k)
        == d.renamed.contains(k) by {
        assert(e.deleted.contains(k) == d.deleted.contains(k));
    }
    assert forall|k: u64| keys::volume_in(k) != vol implies #[trigger] e.modified.contains_key(k)
        == d.modified.contains_key(k) && (e.modified.contains_key(k) ==> e.modified[k]
        == d.modified[k]) by {
        assert(e.deleted.contains(k) == d.deleted.contains(k));
    }
    assert forall|x: (u8, FileEntry)|
        x.0 != vol implies #[trigger] e.new_files.contains(x) == d.new_files.contains(x) by {
        assert(d.new_files.contains(x) == e.new_files.contains(x));
    }
    assert forall|w: int| 0 <= w < t.shelf.len() implies (#[trigger] s.shelf[w]).name
        == t.shelf[w].name && (t.shelf[w].name != drive ==> s.shelf[w] == t.shelf[w]) by {
        assert(t.shelf[w].name == s.shelf[w].name);
    }
}

/// What one list shows of another volume, the other one shows.
proof fn row_elsewhere_stays(
    s: Scene,
    t: Scene,
    d: DeltaModel,
    e: DeltaModel,
    vol: u8,
    drive: Seq<char>,
    sort_by: SortBy,
    direction: SortDirection,
    x: RowModel,
)
    requires
        alike_elsewhere(s, t, d, e, vol, drive),
        s.matched.len() <= u32::MAX,
        s.delta_rows().len() <= usize::MAX,
        t.delta_rows().len() <= usize::MAX,
        s.modified.dom().finite(),
        t.modified.dom().finite(),
        x.volume != drive,
        s.shown(s.base_order(sort_by), sort_by, direction).contains(x),
    ensures
        t.shown(t.base_order(sort_by), sort_by, direction).contains(x),
{
    broadcast use keys::key_has_parts;

    result_list::shown_holds(s, sort_by, direction, x);
    result_list::base_ascends(s, sort_by);
    if s.active_rows(s.base_order(sort_by)).contains(x) {
        let i = choose|i: u32| #[trigger] s.active_row(i) == Some(x);
        let w = sort_cache::volume_of(s.matched[i as int]);
        assert(s.shelf[w as int].name == x.volume);
        assert(t.shelf[w as int] == s.shelf[w as int]);
        let k = s.base_key(i as int, x.file.file_id);
        assert(keys::volume_in(k) == w);
        assert(d.deleted.contains(k) == e.deleted.contains(k));
        assert(d.modified.contains_key(k) == e.modified.contains_key(k));
        assert(t.active_row(i) == Some(x));
        result_list::matched_is_shown(t, sort_by, direction, i);
    } else {
        merged_rows::delta_row_source(s, x);
        merged_rows::delta_row_source(t, x);
        if exists|i: int|
            0 <= i < s.new_files.len() && s.new_row(#[trigger] s.new_files[i]) == Some(x) {
            let i = choose|i: int|
                0 <= i < s.new_files.len() && s.new_row(#[trigger] s.new_files[i]) == Some(x);
            let f = s.new_files[i];
            assert(s.shelf[f.0 as int].name == x.volume);
            assert(t.shelf[f.0 as int] == s.shelf[f.0 as int]);
            assert(d.new_files.contains(f));
            let j = choose|j: int| 0 <= j < e.new_files.len() && e.new_files[j] == f;
            let k = keys::key(f.0, f.1.file_id);
            assert(d.deleted.contains(k) == e.deleted.contains(k));
            assert(d.renamed.contains(k) == e.renamed.contains(k));
            assert(t.new_row(t.new_files[j]) == Some(x));
        } else {
            let y = choose|y: u64| #[trigger]
                s.modified.contains_key(y) && s.modified_row(y) == Some(x);
            let w = keys::volume_in(y);
            assert(s.shelf[w as int].name == x.volume);
            assert(t.shelf[w as int] == s.shelf[w as int]);
            assert(d.modified.contains_key(y) == e.modified.contains_key(y));
            let k = keys::key(w, d.modified[y].file_id);
            assert(d.deleted.contains(k) == e.deleted.contains(k));
            assert(t.modified_row(y) == Some(x));
            assert(t.modified.contains_key(y));
        }
        result_list::shown_holds(t, sort_by, direction, x);
    }
}

/// A batch of changes of one volume leaves every row of the other volumes in the result list
/// and brings none, whatever ids their files have.
pub proof fn batch_leaves_others(
    before: VolumeManager,
    after: VolumeManager,
    drive: Seq<char>,
    added: Seq<SearchResult>,
    removed: Seq<(u64, String)>,
    updated: Seq<(u64, SearchResult)>,
    today: i32,
    sort_by: SortBy,
    direction: SortDirection,
    x: RowModel,
)
    requires
        before.wf(),
        after.wf(),
        before.volumes@.contains_key(drive),
        changes::is_volume(before.vol_names@, before.volume_index@[drive], drive),
        before.took_up(after, drive, added, removed, updated),
        before.search_cache is Some,
        before.changes().is_indexed(),
        before.changes().new_files.len() + added.len() <= usize::MAX,
        delta_index::own_ids(updated),
        before.search_cache->0.scene(before.shelf(), today).delta_rows().len() <= usize::MAX,
        after.search_cache->0.scene(after.shelf(), today).delta_rows().len() <= usize::MAX,
        x.volume != drive,
    ensures
        ({
            let s = before.search_cache->0.scene(before.shelf(), today);
            let t = after.search_cache->0.scene(after.shelf(), today);
            s.shown(s.base_order(sort_by), sort_by, direction).contains(x) <==> t.shown(
                t.base_order(sort_by),
                sort_by,
                direction,
            ).contains(x)
        }),
{
    broadcast use vstd::std_specs::btree::group_btree_axioms;

    batch_elsewhere(before, after, drive, added, removed, updated);
    let vol = before.volume_index@[drive];
    let (d, e) = (before.changes(), after.changes());
    assert(same_elsewhere(d, e, vol));
    let (c0, c) = (before.search_cache->0, after.search_cache->0);
    let (s, t) = (c0.scene(before.shelf(), today), c.scene(after.shelf(), today));
    assert(s == s.with_delta(d));
    assert(t == t.with_delta(e));
    assert(alike_elsewhere(s, t, d, e, vol, drive));
    assert(alike_elsewhere(t, s, e, d, vol, drive)) by {
        alike_both_ways(s, t, d, e, vol, drive);
    }
    if s.shown(s.base_order(sort_by), sort_by, direction).contains(x) {
        row_elsewhere_stays(s, t, d, e, vol, drive, sort_by, direction, x);
    }
    if t.shown(t.base_order(sort_by), sort_by, direction).contains(x) {
        row_elsewhere_stays(t, s, e, d, vol, drive, sort_by, direction, x);
    }
}

} // verus!
