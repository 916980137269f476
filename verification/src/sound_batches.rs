//! A batch of changes of one volume leaves the index sound.

use crate::batches;
use crate::changes;
use crate::changes::DeltaModel;
use crate::counting;
use crate::delta_index;
use crate::fid_index;
use crate::incremental;
use crate::keys;
use crate::path_table;
use crate::path_table::TableModel;
use crate::search::{FileEntry, SearchResult, SortBy};
use crate::search_cache;
use crate::sort_cache;
use crate::soundness;
use crate::soundness::{changes_stand, has_id};
use crate::volume_manager;
use crate::volume_manager::VolumeManager;
use crate::volume_map;
use crate::volume_monitor::VolumeMonitor;
use vstd::prelude::*;

verus! {

/// The files to store for results whose directories are registered in turn have these in the
/// table.
pub proof fn entries_known(t: TableModel, results: Seq<SearchResult>)
    requires
        t.sound(),
        t.entries.len() + batches::directories_of(results) <= u32::MAX,
    ensures
        forall|i: int|
            0 <= i < results.len() ==> (#[trigger] changes::entries_for(t, results)[i]).path_id
                < changes::table_after(t, results).entries.len(),
{
    assert forall|i: int| 0 <= i < results.len() implies (#[trigger] changes::entries_for(
        t,
        results,
    )[i]).path_id < changes::table_after(t, results).entries.len() by {
        batches::table_grows_on(t, results, i);
        batches::table_grows_on(t, results, i + 1);
        batches::table_grows(t, results.take(i));
        batches::registering_extends(changes::table_after(t, results.take(i)), results[i]);
        assert(results.take(i + 1).drop_last() =~= results.take(i));
    }
}

/// Changing a file leaves the changes fitting.
proof fn update_stands(
    d: DeltaModel,
    vol: u8,
    known: bool,
    entry: FileEntry,
    ok: spec_fn(u8, FileEntry) -> bool,
    listed: spec_fn(u64) -> bool,
)
    requires
        changes_stand(d, ok, listed),
        ok(vol, entry),
        known ==> listed(keys::key(vol, entry.file_id)),
    ensures
        changes_stand(
            d.with_update(known, false, keys::key(vol, entry.file_id), entry),
            ok,
            listed,
        ),
{
    broadcast use keys::key_has_parts;

    let k = keys::key(vol, entry.file_id);
    let e = d.with_update(known, false, k, entry);
    delta_index::update_keeps(d, vol, known, entry);
    assert forall|i: int| 0 <= i < e.new_files.len() implies ok(
        (#[trigger] e.new_files[i]).0,
        e.new_files[i].1,
    ) by {
        assert(ok(d.new_files[i].0, d.new_files[i].1));
        if d.index.contains_key(k) && d.index[k] == i {
            assert(delta_index::added_key(d.new_files[i]) == k);
        }
    }
    assert forall|x: u64| #[trigger] e.modified.contains_key(x) implies ok(
        keys::volume_in(x),
        e.modified[x],
    ) && listed(x) by {
        if x != k {
            assert(d.modified.contains_key(x));
        } else if d.modified.contains_key(k) {
            assert(listed(k));
        }
    }
}

/// Removing a file leaves the changes fitting.
proof fn removal_stands(
    d: DeltaModel,
    k: u64,
    ok: spec_fn(u8, FileEntry) -> bool,
    listed: spec_fn(u64) -> bool,
)
    requires
        changes_stand(d, ok, listed),
    ensures
        changes_stand(d.with_removal(false, k), ok, listed),
{
    delta_index::removal_keeps(d, k);
    let e = d.with_removal(false, k);
    assert forall|x: u64| #[trigger] e.modified.contains_key(x) implies ok(
        keys::volume_in(x),
        e.modified[x],
    ) && listed(x) by {
        assert(d.modified.contains_key(x));
    }
    assert forall|x: u64| #[trigger]
        e.index.contains_key(x) && listed(x) implies e.deleted.contains(x) by {
        assert(d.index.contains_key(x));
    }
}

/// Adding a file leaves the changes fitting.
proof fn addition_stands(
    d: DeltaModel,
    vol: u8,
    known: bool,
    entry: FileEntry,
    ok: spec_fn(u8, FileEntry) -> bool,
    listed: spec_fn(u64) -> bool,
)
    requires
        changes_stand(d, ok, listed),
        ok(vol, entry),
        known == listed(keys::key(vol, entry.file_id)),
        d.new_files.len() < usize::MAX,
    ensures
        changes_stand(d.with_addition(vol, known, false, entry), ok, listed),
{
    broadcast use keys::key_has_parts;

    let k = keys::key(vol, entry.file_id);
    let c = if known {
        removal_stands(d, k, ok, listed);
        d.with_removal(false, k)
    } else {
        d
    };
    let e = c.with_new(vol, false, entry);
    delta_index::addition_keeps(d, vol, known, entry);
    assert forall|i: int| 0 <= i < e.new_files.len() implies ok(
        (#[trigger] e.new_files[i]).0,
        e.new_files[i].1,
    ) by {
        if i < c.new_files.len() {
            assert(ok(c.new_files[i].0, c.new_files[i].1));
            if c.index.contains_key(k) && c.index[k] == i {
                assert(delta_index::added_key(c.new_files[i]) == k);
            }
        }
    }
    assert forall|x: u64| #[trigger] e.modified.contains_key(x) implies ok(
        keys::volume_in(x),
        e.modified[x],
    ) && listed(x) by {
        assert(c.modified.contains_key(x));
    }
    assert forall|x: u64| #[trigger]
        e.index.contains_key(x) && listed(x) implies e.deleted.contains(x) by {
        if x != k {
            assert(c.index.contains_key(x));
        }
    }
}

/// Changing files in turn leaves the changes fitting.
proof fn updates_stand(
    d: DeltaModel,
    vol: u8,
    index: Seq<(u32, u32)>,
    fids: Seq<u32>,
    entries: Seq<FileEntry>,
    ok: spec_fn(u8, FileEntry) -> bool,
    listed: spec_fn(u64) -> bool,
)
    requires
        changes_stand(d, ok, listed),
        delta_index::under_own_ids(fids, entries),
        forall|i: int| 0 <= i < entries.len() ==> ok(vol, #[trigger] entries[i]),
        forall|fid: u32| #[trigger]
            fid_index::knows(index, fid) ==> listed(keys::key(vol, fid)),
    ensures
        changes_stand(
            d.with_updates(vol, index, |fid: u32| false, fids, entries),
            ok,
            listed,
        ),
    decreases fids.len(),
{
    if fids.len() > 0 {
        let (f, g) = (fids.drop_last(), entries.drop_last());
        assert forall|i: int| 0 <= i < f.len() implies #[trigger] g[i].file_id == f[i] && ok(
            vol,
            g[i],
        ) by {
            assert(entries[i].file_id == fids[i]);
            assert(ok(vol, entries[i]));
        }
        updates_stand(d, vol, index, f, g, ok, listed);
        assert(entries[fids.len() - 1].file_id == fids.last());
        assert(ok(vol, entries[fids.len() - 1]));
        update_stands(
            d.with_updates(vol, index, |fid: u32| false, f, g),
            vol,
            fid_index::knows(index, fids.last()),
            entries.last(),
            ok,
            listed,
        );
    }
}

/// Removing files in turn leaves the changes fitting.
proof fn removals_stand(
    d: DeltaModel,
    vol: u8,
    fids: Seq<u32>,
    ok: spec_fn(u8, FileEntry) -> bool,
    listed: spec_fn(u64) -> bool,
)
    requires
        changes_stand(d, ok, listed),
    ensures
        changes_stand(d.with_removals(vol, |fid: u32| false, fids), ok, listed),
    decreases fids.len(),
{
    if fids.len() > 0 {
        removals_stand(d, vol, fids.drop_last(), ok, listed);
        removal_stands(
            d.with_removals(vol, |fid: u32| false, fids.drop_last()),
            keys::key(vol, fids.last()),
            ok,
            listed,
        );
    }
}

/// Adding files in turn leaves the changes fitting.
proof fn additions_stand(
    d: DeltaModel,
    vol: u8,
    index: Seq<(u32, u32)>,
    entries: Seq<FileEntry>,
    passed_over: spec_fn(u32) -> bool,
    ok: spec_fn(u8, FileEntry) -> bool,
    listed: spec_fn(u64) -> bool,
)
    requires
        changes_stand(d, ok, listed),
        d.new_files.len() + entries.len() <= usize::MAX,
        forall|i: int| 0 <= i < entries.len() ==> ok(vol, #[trigger] entries[i]),
        forall|fid: u32| #[trigger]
            fid_index::knows(index, fid) == listed(keys::key(vol, fid)),
    ensures
        changes_stand(
            d.with_additions(vol, index, |fid: u32| false, entries, passed_over),
            ok,
            listed,
        ),
    decreases entries.len(),
{
    if entries.len() > 0 {
        let init = entries.drop_last();
        let last = entries.last();
        assert forall|i: int| 0 <= i < init.len() implies ok(vol, #[trigger] init[i]) by {
            assert(init[i] == entries[i]);
        }
        additions_stand(d, vol, index, init, passed_over, ok, listed);
        delta_index::additions_keep(d, vol, index, init, passed_over);
        assert(entries[entries.len() - 1] == last);
        assert(ok(vol, last));
        addition_stands(
            d.with_additions(vol, index, |fid: u32| false, init, passed_over),
            vol,
            fid_index::knows(index, last.file_id),
            last,
            ok,
            listed,
        );
    }
}

impl VolumeManager {
    /// Whether a batch of changes of the volume `drive` is one that the journal tells of, and
    /// the machine can take it up: each file is told to have changed under its own id, and
    /// there are numbers for the files and directories that it may add.
    pub open spec fn can_take_up(
        &self,
        drive: Seq<char>,
        added: Seq<SearchResult>,
        updated: Seq<(u64, SearchResult)>,
    ) -> bool {
        &&& delta_index::own_ids(updated)
        &&& self.changes().new_files.len() + added.len() <= usize::MAX
        &&& self.volumes@[drive].path_table@.entries.len() + batches::directories_of(
            incremental::results_of(updated),
        ) + batches::directories_of(added) <= u32::MAX
    }
}

/// What a batch leaves of the volumes by number.
pub proof fn batch_keeps_volumes(
    before: VolumeManager,
    after: VolumeManager,
    drive: Seq<char>,
    added: Seq<SearchResult>,
    removed: Seq<(u64, String)>,
    updated: Seq<(u64, SearchResult)>,
)
    requires
        before.stands(),
        after.wf(),
        before.volumes@.contains_key(drive),
        before.took_up(after, drive, added, removed, updated),
        before.can_take_up(drive, added, updated),
    ensures
        after.numbers_are_sound(),
        after.volumes_are_sound(),
        forall|v: u8| #[trigger] after.is_live(v) == before.is_live(v),
        forall|v: u8| #[trigger]
            before.is_live(v) ==> after.volume(v).files@ == before.volume(v).files@,
        forall|v: u8, f: FileEntry| #[trigger]
            before.has_dir(v, f) ==> after.has_dir(v, f) && after.volume(v).path_of(f)
                == before.volume(v).path_of(f),
        forall|k: u64| #[trigger] after.lists(k) == before.lists(k),
        ({
            let vol = before.volume_index@[drive];
            &&& before.is_live(vol)
            &&& before.vol_names@[vol as int]@ == drive
            &&& before.volume(vol) == before.volumes@[drive]
            &&& after.volume(vol) == after.volumes@[drive]
            &&& after.volumes@[drive].path_table@.extends(before.volumes@[drive].path_table@)
        }),
{
    reveal(VolumeManager::stands);
    let m = before.volumes@[drive];
    let n = after.volumes@[drive];
    let t = m.path_table@;
    let results = incremental::results_of(updated);
    assert(m.is_sound());
    batches::table_grows(t, results);
    batches::table_grows(changes::table_after(t, results), added);
    let grown = n.path_table@;
    assert(grown.extends(t));
    volume_manager::numbered_by_name(before);
    volume_manager::numbers_stay(before, after);
    assert(before.volume_index@.contains_key(drive));
    assert(n.is_sound());
    assert forall|v: u8, f: FileEntry| #[trigger] before.has_dir(v, f) implies after.has_dir(v, f)
        && after.volume(v).path_of(f) == before.volume(v).path_of(f) by {
        if before.vol_names@[v as int]@ == drive {
            path_table::growing_keeps_paths(t, grown, f.path_id);
        }
    }
}

/// The index of a sound volume knows the files that it lists.
pub proof fn index_knows_listed(m: VolumeMonitor, fid: u32)
    requires
        m.is_sound(),
    ensures
        fid_index::knows(m.ready_index(), fid) == has_id(m.files@, fid),
{
    fid_index::index_knows(m.files@, fid);
}

/// A batch of changes leaves the changes fitting the volumes.
proof fn batch_keeps_changes(
    before: VolumeManager,
    after: VolumeManager,
    drive: Seq<char>,
    added: Seq<SearchResult>,
    removed: Seq<(u64, String)>,
    updated: Seq<(u64, SearchResult)>,
)
    requires
        before.stands(),
        after.wf(),
        before.volumes@.contains_key(drive),
        before.took_up(after, drive, added, removed, updated),
        before.can_take_up(drive, added, updated),
    ensures
        after.changes_are_sound(),
{
    broadcast use keys::key_has_parts;

    batch_keeps_volumes(before, after, drive, added, removed, updated);
    reveal(VolumeManager::stands);
    let d = before.changes();
    let vol = before.volume_index@[drive];
    let m = before.volumes@[drive];
    let t = m.path_table@;
    let results = incremental::results_of(updated);
    let mid = changes::table_after(t, results);
    let ok = |v: u8, f: FileEntry| after.has_dir(v, f);
    let listed = |k: u64| after.lists(k);
    assert(changes_stand(d, ok, listed)) by {
        assert forall|i: int| 0 <= i < d.new_files.len() implies ok(
            (#[trigger] d.new_files[i]).0,
            d.new_files[i].1,
        ) by {
            assert(before.has_dir(d.new_files[i].0, d.new_files[i].1));
        }
        assert forall|k: u64| #[trigger] d.modified.contains_key(k) implies ok(
            keys::volume_in(k),
            d.modified[k],
        ) && listed(k) by {
            assert(before.has_dir(keys::volume_in(k), d.modified[k]) && before.lists(k));
        }
        assert forall|k: u64| #[trigger]
            d.index.contains_key(k) && listed(k) implies d.deleted.contains(k) by {
            assert(before.lists(k));
        }
    }
    assert(m.is_sound());
    assert forall|fid: u32| #[trigger] fid_index::knows(m.ready_index(), fid) == listed(
        keys::key(vol, fid),
    ) by {
        index_knows_listed(m, fid);
        assert(after.lists(keys::key(vol, fid)) == before.lists(keys::key(vol, fid)));
    }
    batches::table_grows(t, results);
    batches::table_grows(mid, added);
    entries_known(t, results);
    entries_known(mid, added);
    let fids = incremental::updated_ids(updated);
    let changed = changes::entries_for(t, results);
    let entries = changes::entries_for(mid, added);
    delta_index::changed_under_own_ids(t, updated);
    assert forall|i: int| 0 <= i < changed.len() implies ok(vol, #[trigger] changed[i]) by {
        assert(after.is_live(vol) == before.is_live(vol));
    }
    assert forall|i: int| 0 <= i < entries.len() implies ok(vol, #[trigger] entries[i]) by {
        assert(after.is_live(vol) == before.is_live(vol));
    }
    let (d1, d2, d3) = delta_index::batch_steps(d, vol, m.ready_index(), t, added, removed, updated);
    delta_index::batch_keeps_index(before, after, drive, added, removed, updated);
    updates_stand(d, vol, m.ready_index(), fids, changed, ok, listed);
    removals_stand(d1, vol, incremental::removed_ids(removed), ok, listed);
    additions_stand(
        d2,
        vol,
        m.ready_index(),
        entries,
        |fid: u32| incremental::came_and_went(added, removed, fid),
        ok,
        listed,
    );
}

/// A batch of changes leaves what is matched that which the query takes.
proof fn batch_keeps_matches(
    before: VolumeManager,
    after: VolumeManager,
    drive: Seq<char>,
    added: Seq<SearchResult>,
    removed: Seq<(u64, String)>,
    updated: Seq<(u64, SearchResult)>,
    today: i32,
)
    requires
        before.is_sound(today),
        after.wf(),
        before.volumes@.contains_key(drive),
        before.took_up(after, drive, added, removed, updated),
        before.can_take_up(drive, added, updated),
        before.search_cache is Some,
    ensures
        after.search_cache is Some,
        after.search_cache->0.base.matched@ == before.search_cache->0.base.matched@,
        forall|p: u32| #[trigger]
            after.search_cache->0.base.matched@.contains(p)
                <==> after.search_cache->0.matches_in(
                after.volumes.slots@,
                after.vol_names@,
                today,
            ).contains(p),
{
    batch_keeps_volumes(before, after, drive, added, removed, updated);
    reveal(VolumeManager::stands);
    let (c0, c) = (before.search_cache->0, after.search_cache->0);
    assert forall|v: u8, i: int|
        before.is_live(v) && 0 <= i < before.volume(v).files@.len() implies before.volume(
        v,
    ).path_of(#[trigger] before.volume(v).files@[i]) == after.volume(v).path_of(
        before.volume(v).files@[i],
    ) by {
        assert(before.volume(v).is_sound());
        assert(before.has_dir(v, before.volume(v).files@[i]));
    }
    assert forall|p: u32| #[trigger] c.base.matched@.contains(p) <==> c.matches_in(
        after.volumes.slots@,
        after.vol_names@,
        today,
    ).contains(p) by {
        assert(c0.base.matched@.contains(p) <==> c0.matches_in(
            before.volumes.slots@,
            before.vol_names@,
            today,
        ).contains(p));
        soundness::found_stays(
            before,
            after,
            search_cache::query_model(c.query@, today),
            c.files_only,
            c.directories_only,
            p,
        );
    }
}

/// A batch of changes of a volume leaves the index sound.
pub proof fn batch_keeps_sound(
    before: VolumeManager,
    after: VolumeManager,
    drive: Seq<char>,
    added: Seq<SearchResult>,
    removed: Seq<(u64, String)>,
    updated: Seq<(u64, SearchResult)>,
    today: i32,
)
    requires
        before.is_sound(today),
        before.fits(),
        after.wf(),
        before.volumes@.contains_key(drive),
        before.took_up(after, drive, added, removed, updated),
        before.can_take_up(drive, added, updated),
    ensures
        after.is_sound(today),
{
    batch_keeps_volumes(before, after, drive, added, removed, updated);
    batch_keeps_changes(before, after, drive, added, removed, updated);
    assert(after.stands()) by {
        reveal(VolumeManager::stands);
    }
    if before.search_cache is Some {
        let (c0, c) = (before.search_cache->0, after.search_cache->0);
        let matched = c0.base.matched@;
        batch_keeps_matches(before, after, drive, added, removed, updated, today);
        assert(before.wf() && before.volumes_are_sound()) by {
            reveal(VolumeManager::stands);
        }
        assert forall|v: u8, fid: u32| #[trigger]
            c0.base_has(before.shelf(), v, fid) implies fid < usize::MAX / 8 by {
            let i = choose|i: int|
                0 <= i < matched.len() && search_cache::has_id(
                    before.shelf(),
                    #[trigger] matched[i],
                    v,
                    fid,
                );
            assert(matched.contains(matched[i]));
            let r = soundness::matched_is_live(before, today, matched[i]);
        }
        counting::batch_keeps_files(before, after, drive, added, removed, updated, matched);
        counting::batch_keeps_count(before, after, drive, added, removed, updated);
        assert(batches::directories_known(before.shelf(), matched)) by {
            assert forall|i: int| 0 <= i < matched.len() implies {
                let f = volume_map::file_at(before.shelf(), #[trigger] matched[i]);
                let m = volume_map::volume_at(before.shelf(), sort_cache::volume_of(matched[i]));
                f is Some ==> (f->0.path_id < m->0.path_table@.entries.len() || f->0.path_id
                    == path_table::DELETED_PATH_ID)
            } by {
                assert(matched.contains(matched[i]));
                let r = soundness::matched_is_live(before, today, matched[i]);
                soundness::live_on_shelf(before, r.0);
            }
        }
        assert(before.volumes@[drive].is_sound());
        batches::batch_keeps_orders(before, after, drive, added, removed, updated, today);
    }
}

/// Making the bits of matched file ids leaves the index sound.
pub proof fn bits_keep_sound(before: VolumeManager, after: VolumeManager, today: i32)
    requires
        before.is_sound(today),
        after.wf(),
        match before.search_cache {
            Some(c) => after.search_cache matches Some(n) && c.bits_made(n, before.shelf()),
            None => after.search_cache is None,
        },
        after == (VolumeManager { search_cache: after.search_cache, ..before }),
    ensures
        after.is_sound(today),
{
    soundness::same_stands(before, after);
    if before.search_cache is Some {
        let (c0, c) = (before.search_cache->0, after.search_cache->0);
        assert forall|v: u8, fid: u32| #[trigger] c.base_has(after.shelf(), v, fid) == c0.base_has(
            before.shelf(),
            v,
            fid,
        ) by {}
        assert forall|v: u8, fid: u32| c.base_file_bitvec is Some implies #[trigger] c.marks(v, fid)
            == c.base_has(after.shelf(), v, fid) by {
            if c0.base_file_bitvec is Some {
                assert(c0.marks(v, fid) == c0.base_has(before.shelf(), v, fid));
            }
        }
        assert(after.orders_are_current(today)) by {
            reveal(VolumeManager::orders_are_current);
            assert(c.scene(after.shelf(), today) == c0.scene(before.shelf(), today));
            assert forall|k: SortBy| #[trigger]
                after.order_used(c, k, today) == c.scene(after.shelf(), today).base_order(k) by {
                assert(before.order_used(c0, k, today) == c0.scene(
                    before.shelf(),
                    today,
                ).base_order(k));
            }
        }
    }
}

} // verus!
