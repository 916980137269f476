//! Taking up a batch of changes of one volume: what it leaves of the volume and of the
//! cache of the last search.

use crate::changes;
use crate::changes::{register_path, DeltaModel};
use crate::fid_index;
use crate::fid_index::{build_index, find_place};
use crate::keys;
use crate::path_table::{PathTable, TableModel};
use crate::search::{FileEntry, SearchResult};
use crate::search_cache::{DeltaCache, SearchCache};
use crate::sound_batches;
use crate::text;
use crate::text::same_ignoring_ascii_case;
use crate::volume_manager::VolumeManager;
use crate::volume_map;
use crate::volume_monitor::VolumeMonitor;
use std::collections::HashMap;
use vstd::prelude::*;

verus! {

broadcast use {
    vstd::string::group_string_axioms,
    vstd::std_specs::hash::group_hash_axioms,
};

/// The results of a list of changed files.
pub open spec fn results_of(updated: Seq<(u64, SearchResult)>) -> Seq<SearchResult> {
    updated.map_values(|u: (u64, SearchResult)| u.1)
}

/// The file ids of a list of changed files, of 32 bits.
pub open spec fn updated_ids(updated: Seq<(u64, SearchResult)>) -> Seq<u32> {
    updated.map_values(|u: (u64, SearchResult)| u.0 as u32)
}

/// The file ids of a list of removed files, of 32 bits.
pub open spec fn removed_ids(removed: Seq<(u64, String)>) -> Seq<u32> {
    removed.map_values(|r: (u64, String)| r.0 as u32)
}

/// The path that a list of removed files gives last for `fid`.
pub open spec fn removed_path(removed: Seq<(u64, String)>, fid: u32) -> Option<Seq<char>>
    decreases removed.len(),
{
    if removed.len() == 0 {
        None
    } else if removed.last().0 as u32 == fid {
        Some(removed.last().1@)
    } else {
        removed_path(removed.drop_last(), fid)
    }
}

/// The path that a list of added files gives last for `fid`.
pub open spec fn added_path(added: Seq<SearchResult>, fid: u32) -> Option<Seq<char>>
    decreases added.len(),
{
    if added.len() == 0 {
        None
    } else if added.last().file_id == fid {
        Some(added.last().path@)
    } else {
        added_path(added.drop_last(), fid)
    }
}

/// Whether `fid` was added and removed under the same path, so that nothing is left of
/// it. Under another path it was renamed.
pub open spec fn came_and_went(
    added: Seq<SearchResult>,
    removed: Seq<(u64, String)>,
    fid: u32,
) -> bool {
    match (removed_path(removed, fid), added_path(added, fid)) {
        (Some(a), Some(b)) => text::ascii_lower(a) == text::ascii_lower(b),
        _ => false,
    }
}

impl DeltaModel {
    /// After files of volume `vol` were changed in turn.
    pub open spec fn with_updates(
        self,
        vol: u8,
        index: Seq<(u32, u32)>,
        in_base: spec_fn(u32) -> bool,
        fids: Seq<u32>,
        entries: Seq<FileEntry>,
    ) -> DeltaModel
        decreases fids.len(),
    {
        if fids.len() == 0 {
            self
        } else {
            self.with_updates(vol, index, in_base, fids.drop_last(), entries.drop_last()).with_update(
                fid_index::knows(index, fids.last()),
                in_base(fids.last()),
                keys::key(vol, fids.last()),
                entries.last(),
            )
        }
    }

    /// After files of volume `vol` were removed in turn.
    pub open spec fn with_removals(
        self,
        vol: u8,
        in_base: spec_fn(u32) -> bool,
        fids: Seq<u32>,
    ) -> DeltaModel
        decreases fids.len(),
    {
        if fids.len() == 0 {
            self
        } else {
            self.with_removals(vol, in_base, fids.drop_last()).with_removal(
                in_base(fids.last()),
                keys::key(vol, fids.last()),
            )
        }
    }

    /// After files of volume `vol` were added in turn, but for those that are passed over.
    pub open spec fn with_additions(
        self,
        vol: u8,
        index: Seq<(u32, u32)>,
        in_base: spec_fn(u32) -> bool,
        entries: Seq<FileEntry>,
        passed_over: spec_fn(u32) -> bool,
    ) -> DeltaModel
        decreases entries.len(),
    {
        if entries.len() == 0 {
            self
        } else {
            let d = self.with_additions(vol, index, in_base, entries.drop_last(), passed_over);
            let e = entries.last();
            if passed_over(e.file_id) {
                d
            } else {
                d.with_addition(vol, fid_index::knows(index, e.file_id), in_base(e.file_id), e)
            }
        }
    }

    /// After a batch of changes of volume `vol`, whose table of directories was `t`: files
    /// are changed, then removed, then added.
    pub open spec fn after_batch(
        self,
        vol: u8,
        index: Seq<(u32, u32)>,
        in_base: spec_fn(u32) -> bool,
        t: TableModel,
        added: Seq<SearchResult>,
        removed: Seq<(u64, String)>,
        updated: Seq<(u64, SearchResult)>,
    ) -> DeltaModel {
        self.with_updates(
            vol,
            index,
            in_base,
            updated_ids(updated),
            changes::entries_for(t, results_of(updated)),
        ).with_removals(vol, in_base, removed_ids(removed)).with_additions(
            vol,
            index,
            in_base,
            changes::entries_for(changes::table_after(t, results_of(updated)), added),
            |fid: u32| came_and_went(added, removed, fid),
        )
    }
}

/// What a batch of changes leaves does not depend on the count of shown files.
pub proof fn batch_uncounted(
    d: DeltaModel,
    vol: u8,
    index: Seq<(u32, u32)>,
    in_base: spec_fn(u32) -> bool,
    t: TableModel,
    added: Seq<SearchResult>,
    removed: Seq<(u64, String)>,
    updated: Seq<(u64, SearchResult)>,
)
    ensures
        d.after_batch(vol, index, in_base, t, added, removed, updated).uncounted()
            == d.uncounted().after_batch(
            vol,
            index,
            |fid: u32| false,
            t,
            added,
            removed,
            updated,
        ),
{
    let (fids, changed) = (updated_ids(updated), changes::entries_for(t, results_of(updated)));
    let d1 = d.with_updates(vol, index, in_base, fids, changed);
    updates_uncounted(d, vol, index, in_base, fids, changed);
    removals_uncounted(d1, vol, in_base, removed_ids(removed));
    additions_uncounted(
        d1.with_removals(vol, in_base, removed_ids(removed)),
        vol,
        index,
        in_base,
        changes::entries_for(changes::table_after(t, results_of(updated)), added),
        |fid: u32| came_and_went(added, removed, fid),
    );
}

proof fn updates_uncounted(
    d: DeltaModel,
    vol: u8,
    index: Seq<(u32, u32)>,
    in_base: spec_fn(u32) -> bool,
    fids: Seq<u32>,
    entries: Seq<FileEntry>,
)
    ensures
        d.with_updates(vol, index, in_base, fids, entries).uncounted()
            == d.uncounted().with_updates(vol, index, |fid: u32| false, fids, entries),
    decreases fids.len(),
{
    if fids.len() > 0 {
        updates_uncounted(d, vol, index, in_base, fids.drop_last(), entries.drop_last());
        assert(d.with_updates(vol, index, in_base, fids, entries).uncounted()
            =~= d.uncounted().with_updates(vol, index, |fid: u32| false, fids, entries));
    }
}

proof fn removals_uncounted(
    d: DeltaModel,
    vol: u8,
    in_base: spec_fn(u32) -> bool,
    fids: Seq<u32>,
)
    ensures
        d.with_removals(vol, in_base, fids).uncounted() == d.uncounted().with_removals(
            vol,
            |fid: u32| false,
            fids,
        ),
    decreases fids.len(),
{
    if fids.len() > 0 {
        removals_uncounted(d, vol, in_base, fids.drop_last());
    }
}

proof fn additions_uncounted(
    d: DeltaModel,
    vol: u8,
    index: Seq<(u32, u32)>,
    in_base: spec_fn(u32) -> bool,
    entries: Seq<FileEntry>,
    passed_over: spec_fn(u32) -> bool,
)
    ensures
        d.with_additions(vol, index, in_base, entries, passed_over).uncounted()
            == d.uncounted().with_additions(vol, index, |fid: u32| false, entries, passed_over),
    decreases entries.len(),
{
    if entries.len() > 0 {
        additions_uncounted(d, vol, index, in_base, entries.drop_last(), passed_over);
    }
}

/// Whether two caches differ only in what changed, which became `delta`.
pub open spec fn delta_became(before: SearchCache, after: SearchCache, delta: DeltaModel) -> bool {
    &&& after.same_but_delta(before)
    &&& after.delta_model() == delta
}

/// Registers the directory of a result, and gives the file to store for it.
fn store_result(table: &mut PathTable, r: &SearchResult) -> (e: FileEntry)
    ensures
        final(table)@ == changes::registered(old(table)@, r.path@, r.is_directory).0,
        e == changes::entry_for(
            *r,
            changes::registered(old(table)@, r.path@, r.is_directory).1,
        ),
{
    let path_id: u32 = register_path(table, r.path.as_str(), r.is_directory);
    FileEntry::new(r.name.clone(), path_id, r.size, r.modified_time, r.file_id, r.is_directory)
}

/// What one more result adds to the table and to the files to store.
proof fn entries_extend(
    t: TableModel,
    results: Seq<SearchResult>,
    i: int,
    id: u32,
)
    requires
        0 <= i < results.len(),
        id == changes::registered(
            changes::table_after(t, results.take(i)),
            results[i].path@,
            results[i].is_directory,
        ).1,
    ensures
        changes::table_after(t, results.take(i + 1)) == changes::registered(
            changes::table_after(t, results.take(i)),
            results[i].path@,
            results[i].is_directory,
        ).0,
        changes::entries_for(t, results.take(i + 1)) == changes::entries_for(
            t,
            results.take(i),
        ).push(changes::entry_for(results[i], id)),
{
    let step = results.take(i + 1);
    assert(step.drop_last() =~= results.take(i));
    assert(step.last() == results[i]);
    assert forall|k: int| 0 <= k < i + 1 implies #[trigger] step.take(k) == results.take(k) by {
        assert(step.take(k) =~= results.take(k));
    }
    assert forall|k: int| 0 <= k < i implies #[trigger] results.take(i).take(k) == results.take(
        k,
    ) by {
        assert(results.take(i).take(k) =~= results.take(k));
    }
    assert(changes::entries_for(t, step) =~= changes::entries_for(t, results.take(i)).push(
        changes::entry_for(results[i], id),
    ));
}

/// Takes up the files that were changed.
fn take_updates(
    cache: &mut SearchCache,
    m: &mut VolumeMonitor,
    vol: u8,
    updated: &Vec<(u64, SearchResult)>,
)
    requires
        old(m).wf(),
        old(m).fid_index is Some,
    ensures
        final(m).path_table@ == changes::table_after(
            old(m).path_table@,
            results_of(updated@),
        ),
        *final(m) == (VolumeMonitor { path_table: final(m).path_table, ..*old(m) }),
        delta_became(
            *old(cache),
            *final(cache),
            old(cache).delta_model().with_updates(
                vol,
                old(m).fid_index->0@,
                |fid: u32| old(cache).marks(vol, fid),
                updated_ids(updated@),
                changes::entries_for(old(m).path_table@, results_of(updated@)),
            ),
        ),
{
    let ghost t = m.path_table@;
    let ghost index = m.fid_index->0@;
    let ghost results = results_of(updated@);
    let ghost fids = updated_ids(updated@);
    let mut i: usize = 0;
    assert(results.take(0) =~= seq![]);
    assert(fids.take(0) =~= seq![]);
    assert(changes::entries_for(t, results.take(0)) =~= seq![]);
    while i < updated.len()
        invariant
            i <= updated@.len(),
            results == results_of(updated@),
            fids == updated_ids(updated@),
            t == old(m).path_table@,
            m.wf(),
            m.fid_index is Some,
            index == m.fid_index->0@,
            m.path_table@ == changes::table_after(t, results.take(i as int)),
            *m == (VolumeMonitor { path_table: m.path_table, ..*old(m) }),
            delta_became(
                *old(cache),
                *cache,
                old(cache).delta_model().with_updates(
                    vol,
                    index,
                    |fid: u32| old(cache).marks(vol, fid),
                    fids.take(i as int),
                    changes::entries_for(t, results.take(i as int)),
                ),
            ),
        decreases updated@.len() - i,
    {
        let fid: u32 = #[verifier::truncate]
        (updated[i].0 as u32);
        let ghost table = m.path_table@;
        let entry = store_result(&mut m.path_table, &updated[i].1);
        proof {
            assert(results[i as int] == updated@[i as int].1);
            entries_extend(t, results, i as int, entry.path_id);
            let step = fids.take(i + 1);
            assert(step.drop_last() =~= fids.take(i as int));
            assert(step.last() == fid);
            let es = changes::entries_for(t, results.take(i + 1));
            assert(es.drop_last() =~= changes::entries_for(t, results.take(i as int)));
            assert(es.last() == entry);
        }
        let known = match &m.fid_index {
            Some(index) => find_place(index, fid).is_some(),
            None => false,
        };
        assert(cache.marks(vol, fid) == old(cache).marks(vol, fid));
        cache.note_update(vol, known, fid, entry);
        i += 1;
    }
    assert(results.take(i as int) =~= results);
    assert(fids.take(i as int) =~= fids);
}

/// Takes up the files that were removed.
fn take_removals(cache: &mut SearchCache, vol: u8, removed: &Vec<(u64, String)>)
    ensures
        delta_became(
            *old(cache),
            *final(cache),
            old(cache).delta_model().with_removals(
                vol,
                |fid: u32| old(cache).marks(vol, fid),
                removed_ids(removed@),
            ),
        ),
{
    let ghost fids = removed_ids(removed@);
    let mut i: usize = 0;
    assert(fids.take(0) =~= seq![]);
    while i < removed.len()
        invariant
            i <= removed@.len(),
            fids == removed_ids(removed@),
            delta_became(
                *old(cache),
                *cache,
                old(cache).delta_model().with_removals(
                    vol,
                    |fid: u32| old(cache).marks(vol, fid),
                    fids.take(i as int),
                ),
            ),
        decreases removed@.len() - i,
    {
        let fid: u32 = #[verifier::truncate]
        (removed[i].0 as u32);
        proof {
            let step = fids.take(i + 1);
            assert(step.drop_last() =~= fids.take(i as int));
            assert(step.last() == fid);
        }
        assert(cache.marks(vol, fid) == old(cache).marks(vol, fid));
        cache.note_removal(vol, fid);
        i += 1;
    }
    assert(fids.take(i as int) =~= fids);
}

/// The paths of the removed files by id.
fn paths_of_removed(removed: &Vec<(u64, String)>) -> (r: HashMap<u32, String>)
    ensures
        forall|fid: u32| #[trigger]
            r@.contains_key(fid) <==> removed_path(removed@, fid) is Some,
        forall|fid: u32| #[trigger]
            r@.contains_key(fid) ==> r@[fid]@ == removed_path(removed@, fid)->0,
{
    let mut map: HashMap<u32, String> = HashMap::new();
    let mut i: usize = 0;
    assert(removed@.take(0) =~= seq![]);
    while i < removed.len()
        invariant
            i <= removed@.len(),
            forall|fid: u32| #[trigger]
                map@.contains_key(fid) <==> removed_path(removed@.take(i as int), fid) is Some,
            forall|fid: u32| #[trigger]
                map@.contains_key(fid) ==> map@[fid]@ == removed_path(
                    removed@.take(i as int),
                    fid,
                )->0,
        decreases removed@.len() - i,
    {
        let fid: u32 = #[verifier::truncate]
        (removed[i].0 as u32);
        proof {
            let step = removed@.take(i + 1);
            assert(step.drop_last() =~= removed@.take(i as int));
            assert(step.last() == removed@[i as int]);
        }
        map.insert(fid, removed[i].1.clone());
        i += 1;
    }
    assert(removed@.take(i as int) =~= removed@);
    map
}

/// The paths of the added files by id.
fn paths_of_added(added: &Vec<SearchResult>) -> (r: HashMap<u32, String>)
    ensures
        forall|fid: u32| #[trigger] r@.contains_key(fid) <==> added_path(added@, fid) is Some,
        forall|fid: u32| #[trigger]
            r@.contains_key(fid) ==> r@[fid]@ == added_path(added@, fid)->0,
{
    let mut map: HashMap<u32, String> = HashMap::new();
    let mut i: usize = 0;
    assert(added@.take(0) =~= seq![]);
    while i < added.len()
        invariant
            i <= added@.len(),
            forall|fid: u32| #[trigger]
                map@.contains_key(fid) <==> added_path(added@.take(i as int), fid) is Some,
            forall|fid: u32| #[trigger]
                map@.contains_key(fid) ==> map@[fid]@ == added_path(
                    added@.take(i as int),
                    fid,
                )->0,
        decreases added@.len() - i,
    {
        proof {
            let step = added@.take(i + 1);
            assert(step.drop_last() =~= added@.take(i as int));
            assert(step.last() == added@[i as int]);
        }
        map.insert(added[i].file_id, added[i].path.clone());
        i += 1;
    }
    assert(added@.take(i as int) =~= added@);
    map
}

/// Takes up the files that were added, but for those that were removed under the same
/// path.
fn take_additions(
    cache: &mut SearchCache,
    m: &mut VolumeMonitor,
    vol: u8,
    added: &Vec<SearchResult>,
    removed: &Vec<(u64, String)>,
)
    requires
        old(m).wf(),
        old(m).fid_index is Some,
    ensures
        final(m).path_table@ == changes::table_after(old(m).path_table@, added@),
        *final(m) == (VolumeMonitor { path_table: final(m).path_table, ..*old(m) }),
        delta_became(
            *old(cache),
            *final(cache),
            old(cache).delta_model().with_additions(
                vol,
                old(m).fid_index->0@,
                |fid: u32| old(cache).marks(vol, fid),
                changes::entries_for(old(m).path_table@, added@),
                |fid: u32| came_and_went(added@, removed@, fid),
            ),
        ),
{
    let ghost t = m.path_table@;
    let ghost index = m.fid_index->0@;
    let removed_paths = paths_of_removed(removed);
    let added_paths = paths_of_added(added);
    let ghost passed_over = |fid: u32| came_and_went(added@, removed@, fid);
    let mut i: usize = 0;
    assert(added@.take(0) =~= seq![]);
    assert(changes::entries_for(t, added@.take(0)) =~= seq![]);
    while i < added.len()
        invariant
            i <= added@.len(),
            t == old(m).path_table@,
            m.wf(),
            m.fid_index is Some,
            index == m.fid_index->0@,
            m.path_table@ == changes::table_after(t, added@.take(i as int)),
            *m == (VolumeMonitor { path_table: m.path_table, ..*old(m) }),
            passed_over == (|fid: u32| came_and_went(added@, removed@, fid)),
            forall|fid: u32| #[trigger]
                removed_paths@.contains_key(fid) <==> removed_path(removed@, fid) is Some,
            forall|fid: u32| #[trigger]
                removed_paths@.contains_key(fid) ==> removed_paths@[fid]@ == removed_path(
                    removed@,
                    fid,
                )->0,
            forall|fid: u32| #[trigger]
                added_paths@.contains_key(fid) <==> added_path(added@, fid) is Some,
            forall|fid: u32| #[trigger]
                added_paths@.contains_key(fid) ==> added_paths@[fid]@ == added_path(added@, fid)->0,
            delta_became(
                *old(cache),
                *cache,
                old(cache).delta_model().with_additions(
                    vol,
                    index,
                    |fid: u32| old(cache).marks(vol, fid),
                    changes::entries_for(t, added@.take(i as int)),
                    passed_over,
                ),
            ),
        decreases added@.len() - i,
    {
        let entry = store_result(&mut m.path_table, &added[i]);
        let fid: u32 = entry.file_id;
        proof {
            entries_extend(t, added@, i as int, entry.path_id);
            let es = changes::entries_for(t, added@.take(i + 1));
            assert(es.drop_last() =~= changes::entries_for(t, added@.take(i as int)));
            assert(es.last() == entry);
        }
        let went = match (removed_paths.get(&fid), added_paths.get(&fid)) {
            (Some(a), Some(b)) => same_ignoring_ascii_case(a.as_str(), b.as_str()),
            _ => false,
        };
        assert(went == passed_over(fid));
        if !went {
            assert(cache.marks(vol, fid) == old(cache).marks(vol, fid));
            let known = match &m.fid_index {
                Some(index) => find_place(index, fid).is_some(),
                None => false,
            };
            cache.note_addition(vol, known, entry);
        }
        i += 1;
    }
    assert(added@.take(i as int) =~= added@);
}

/// Whether `after` is the cache after a batch of changes of volume `vol`.
pub open spec fn cache_took_up(
    before: SearchCache,
    after: SearchCache,
    shelf: Seq<volume_map::ShelfModel>,
    vol: u8,
    index: Seq<(u32, u32)>,
    t: TableModel,
    added: Seq<SearchResult>,
    removed: Seq<(u64, String)>,
    updated: Seq<(u64, SearchResult)>,
) -> bool {
    &&& before.bits_made(
        SearchCache {
            delta: before.delta,
            active_base_count: before.active_base_count,
            ..after
        },
        shelf,
    )
    &&& after.delta_model() == before.delta_model().after_batch(
        vol,
        index,
        |fid: u32| after.marks(vol, fid),
        t,
        added,
        removed,
        updated,
    )
    &&& after.delta.matched@ == after.delta.model(None).matched()
    &&& after.delta.generation == before.delta.generation.wrapping_add(1)
}

/// Whether `after` are the changes after a batch of changes of volume `vol`, where there
/// is no search that they show in.
pub open spec fn changes_took_up(
    before: DeltaCache,
    after: DeltaCache,
    vol: u8,
    index: Seq<(u32, u32)>,
    t: TableModel,
    added: Seq<SearchResult>,
    removed: Seq<(u64, String)>,
    updated: Seq<(u64, SearchResult)>,
) -> bool {
    &&& after.model(None) == before.model(None).after_batch(
        vol,
        index,
        |fid: u32| false,
        t,
        added,
        removed,
        updated,
    )
    &&& after.matched@ == after.model(None).matched()
    &&& after.generation == before.generation.wrapping_add(1)
}

impl VolumeMonitor {
    /// The index of file ids: that which is there, or that of the present files.
    pub open spec fn ready_index(&self) -> Seq<(u32, u32)> {
        match self.fid_index {
            Some(index) => index@,
            None => fid_index::index_of_files(self.files@),
        }
    }

    /// Builds the index of file ids where it is not there.
    fn ensure_index(&mut self)
        requires
            old(self).wf(),
        ensures
            final(self).wf(),
            final(self).fid_index matches Some(index) && index@ == old(self).ready_index(),
            *final(self) == (VolumeMonitor { fid_index: final(self).fid_index, ..*old(self) }),
    {
        if self.fid_index.is_none() {
            self.fid_index = Some(build_index(&self.files));
        }
    }
}

impl VolumeManager {
    /// Whether `after` is left when a batch of changes of a volume that is at hand was
    /// taken up.
    pub open spec fn took_up(
        &self,
        after: VolumeManager,
        drive: Seq<char>,
        added: Seq<SearchResult>,
        removed: Seq<(u64, String)>,
        updated: Seq<(u64, SearchResult)>,
    ) -> bool {
        let m = self.volumes@[drive];
        let n = after.volumes@[drive];
        let t = m.path_table@;
        &&& after.volumes@ == self.volumes@.insert(drive, n)
        &&& n.files == m.files
        &&& n.path_table@ == changes::table_after(
            changes::table_after(t, results_of(updated)),
            added,
        )
        &&& n.fid_index matches Some(index) && index@ == m.ready_index()
        &&& n.same_settings(m)
        &&& match self.search_cache {
            Some(before) => {
                &&& after.search_cache matches Some(c)
                &&& cache_took_up(
                    before,
                    c,
                    self.shelf(),
                    self.volume_index@[drive],
                    m.ready_index(),
                    t,
                    added,
                    removed,
                    updated,
                )
                &&& after.idle_delta == self.idle_delta
            },
            None => {
                &&& after.search_cache is None
                &&& changes_took_up(
                    self.idle_delta,
                    after.idle_delta,
                    self.volume_index@[drive],
                    m.ready_index(),
                    t,
                    added,
                    removed,
                    updated,
                )
            },
        }
        &&& after == (VolumeManager {
            volumes: after.volumes,
            search_cache: after.search_cache,
            idle_delta: after.idle_delta,
            ..*self
        })
    }

    /// Makes the bits of matched file ids of the last search, where there is one.
    fn make_bits(&mut self)
        requires
            old(self).wf(),
        ensures
            final(self).wf(),
            match old(self).search_cache {
                Some(before) => final(self).search_cache matches Some(c) && before.bits_made(
                    c,
                    old(self).shelf(),
                ),
                None => final(self).search_cache is None,
            },
            *final(self) == (VolumeManager { search_cache: final(self).search_cache, ..*old(self) }),
    {
        if self.search_cache.is_some() {
            let mut cache = self.search_cache.take().unwrap();
            cache.ensure_base_file_bitvec(&self.volumes, &self.vol_names);
            self.search_cache = Some(cache);
        }
    }

    /// Takes up a batch of changes of a volume: its files stay as they are, and the last
    /// search, where there is one, and every later one learn what changed.
    ///
    /// A batch without changes and one of an unknown volume change nothing; that of a
    /// volume that is not at hand only readies the search.
    pub fn apply_incremental_usn(
        &mut self,
        drive_letter: &str,
        added: Vec<SearchResult>,
        removed: Vec<(u64, String)>,
        updated: Vec<(u64, SearchResult)>,
    )
        requires
            old(self).wf(),
        ensures
            final(self).wf(),
            old(self).numbered() ==> final(self).numbered(),
            if (added@.len() == 0 && removed@.len() == 0 && updated@.len() == 0) || !old(
                self,
            ).volume_index@.contains_key(drive_letter@) {
                *final(self) == *old(self)
            } else if old(self).volumes@.contains_key(drive_letter@) {
                old(self).took_up(*final(self), drive_letter@, added@, removed@, updated@)
            } else {
                &&& match old(self).search_cache {
                    Some(before) => final(self).search_cache matches Some(c) && before.bits_made(
                        c,
                        old(self).shelf(),
                    ),
                    None => final(self).search_cache is None,
                }
                &&& *final(self) == (VolumeManager {
                    search_cache: final(self).search_cache,
                    ..*old(self)
                })
            },
            forall|today: i32| #[trigger]
                old(self).is_sound(today) && old(self).fits() && old(self).can_take_up(
                    drive_letter@,
                    added@,
                    updated@,
                ) ==> final(self).is_sound(today),
    {
        if added.len() == 0 && removed.len() == 0 && updated.len() == 0 {
            return;
        }
        let vol: u8 = match self.volume_index.get(drive_letter) {
            Some(idx) => *idx,
            None => {
                return;
            },
        };
        self.make_bits();
        let at: usize = match self.volumes.find(drive_letter) {
            Some(i) => i,
            None => {
                proof {
                    assert forall|today: i32| #[trigger] old(self).is_sound(
                        today,
                    ) implies self.is_sound(today) by {
                        sound_batches::bits_keep_sound(*old(self), *self, today);
                    }
                }
                return;
            },
        };
        let ghost slots = self.volumes.slots@;
        let searched = self.search_cache.is_some();
        let mut cache = match self.search_cache.take() {
            Some(c) => c,
            None => {
                let mut held = DeltaCache::new();
                std::mem::swap(&mut held, &mut self.idle_delta);
                SearchCache::new("", false, false, Vec::new(), 0, held)
            },
        };
        let ghost c0 = cache;
        let m = &mut self.volumes.slots[at].monitor;
        m.ensure_index();
        take_updates(&mut cache, m, vol, &updated);
        let ghost c1 = cache;
        take_removals(&mut cache, vol, &removed);
        let ghost c2 = cache;
        take_additions(&mut cache, m, vol, &added, &removed);
        let ghost c3 = cache;
        cache.delta.rebuild_matched();
        proof {
            volume_map::slot_exchanged(slots, at as int, self.volumes.slots@[at as int]);
            assert(self.volumes.slots@ =~= slots.update(
                at as int,
                self.volumes.slots@[at as int],
            ));
            let in_base = |fid: u32| cache.marks(vol, fid);
            assert(in_base =~= (|fid: u32| c0.marks(vol, fid)));
            assert(in_base =~= (|fid: u32| c1.marks(vol, fid)));
            assert(in_base =~= (|fid: u32| c2.marks(vol, fid)));
            assert(cache.delta_model() == c3.delta_model());
        }
        if searched {
            self.search_cache = Some(cache);
            proof {
                let before = old(self).search_cache->0;
                let mid = SearchCache {
                    delta: before.delta,
                    active_base_count: before.active_base_count,
                    ..cache
                };
                assert forall|v: u8, fid: u32| #[trigger]
                    mid.marks(v, fid) <==> c0.marks(v, fid) by {}
            }
        } else {
            proof {
                let mon = old(self).volumes@[drive_letter@];
                batch_uncounted(
                    c0.delta_model(),
                    vol,
                    mon.ready_index(),
                    |fid: u32| cache.marks(vol, fid),
                    mon.path_table@,
                    added@,
                    removed@,
                    updated@,
                );
            }
            self.idle_delta = cache.delta;
        }
        proof {
            assert forall|today: i32| #[trigger]
                old(self).is_sound(today) && old(self).fits() && old(self).can_take_up(
                    drive_letter@,
                    added@,
                    updated@,
                ) implies self.is_sound(today) by {
                sound_batches::batch_keeps_sound(
                    *old(self),
                    *self,
                    drive_letter@,
                    added@,
                    removed@,
                    updated@,
                    today,
                );
            }
        }
    }
}

} // verus!
