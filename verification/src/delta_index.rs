//! What holds of the changes that were not merged: every added file is known under its key,
//! and what was last told of a file is what they hold of it.

use crate::changes;
use crate::changes::DeltaModel;
use crate::fid_index;
use crate::incremental;
use crate::keys;
use crate::path_table::TableModel;
use crate::search::{FileEntry, SearchResult};
use crate::volume_manager::VolumeManager;
use vstd::prelude::*;

verus! {

/// The key of an added file.
pub open spec fn added_key(e: (u8, FileEntry)) -> u64 {
    keys::key(e.0, e.1.file_id)
}

impl DeltaModel {
    /// Whether every added file is known under its own key at its place, every changed one
    /// stands under its own key, every renamed one was added, and no added file that is
    /// there counts as changed.
    pub open spec fn is_indexed(self) -> bool {
        &&& forall|k: u64| #[trigger]
            self.index.contains_key(k) ==> self.index[k] < self.new_files.len() && added_key(
                self.new_files[self.index[k] as int],
            ) == k
        &&& forall|i: int|
            0 <= i < self.new_files.len() ==> {
                let k = added_key(#[trigger] self.new_files[i]);
                self.index.contains_key(k) && self.index[k] == i
            }
        &&& forall|k: u64| #[trigger]
            self.modified.contains_key(k) ==> k == keys::key(
                keys::volume_in(k),
                self.modified[k].file_id,
            ) && (self.index.contains_key(k) ==> self.is_gone(k))
        &&& forall|k: u64| #[trigger]
            self.renamed.contains(k) ==> self.index.contains_key(k)
    }

    /// The file that the changes hold under the key `k`, where it is there: as it was added,
    /// or as it was changed.
    pub open spec fn told(self, k: u64) -> Option<FileEntry> {
        if self.index.contains_key(k) && !self.is_gone(k) {
            Some(self.new_files[self.index[k] as int].1)
        } else if self.modified.contains_key(k) && !self.deleted.contains(k) {
            Some(self.modified[k])
        } else {
            None
        }
    }
}

/// Changing a file where it was added leaves the added files known under their keys, and
/// what is held of the others.
proof fn added_change_keeps(d: DeltaModel, vol: u8, entry: FileEntry)
    requires
        d.is_indexed(),
    ensures
        ({
            let k = keys::key(vol, entry.file_id);
            let e = d.with_added_changed(k, entry);
            &&& e.is_indexed()
            &&& d.index.contains_key(k) ==> e.new_files[d.index[k] as int] == (vol, entry)
            &&& forall|x: u64| x != k ==> #[trigger] e.told(x) == d.told(x)
        }),
{
    broadcast use keys::key_has_parts;

    let k = keys::key(vol, entry.file_id);
    let e = d.with_added_changed(k, entry);
    if d.index.contains_key(k) {
        let p = d.index[k] as int;
        assert(added_key(d.new_files[p]) == k);
        assert(e.new_files[p] == (vol, entry));
        assert forall|i: int| 0 <= i < e.new_files.len() implies {
            let x = added_key(#[trigger] e.new_files[i]);
            e.index.contains_key(x) && e.index[x] == i
        } by {
            assert(added_key(d.new_files[i]) == added_key(e.new_files[i]));
        }
        assert forall|x: u64| #[trigger] e.index.contains_key(x) implies e.index[x]
            < e.new_files.len() && added_key(e.new_files[e.index[x] as int]) == x by {
            assert(d.index.contains_key(x));
            assert(added_key(d.new_files[d.index[x] as int]) == x);
        }
        assert forall|x: u64| #[trigger] e.modified.contains_key(x) implies x == keys::key(
            keys::volume_in(x),
            e.modified[x].file_id,
        ) && (e.index.contains_key(x) ==> e.is_gone(x)) by {
            assert(d.modified.contains_key(x));
        }
        assert forall|x: u64| x != k implies #[trigger] e.told(x) == d.told(x) by {
            if d.index.contains_key(x) {
                assert(added_key(d.new_files[d.index[x] as int]) == x);
            }
        }
    }
}

/// Changing a file leaves the added files known under their keys and what is held of the
/// others; where the file is there, it is held as it was told.
pub proof fn update_keeps(d: DeltaModel, vol: u8, known: bool, entry: FileEntry)
    requires
        d.is_indexed(),
    ensures
        ({
            let k = keys::key(vol, entry.file_id);
            let e = d.with_update(known, false, k, entry);
            &&& e.is_indexed()
            &&& e.index == d.index
            &&& e.deleted == d.deleted
            &&& e.renamed == d.renamed
            &&& e.new_files.len() == d.new_files.len()
            &&& forall|x: u64| x != k ==> #[trigger] e.told(x) == d.told(x)
            &&& (known || d.index.contains_key(k)) && !d.is_gone(k) ==> e.told(k) == Some(entry)
        }),
{
    broadcast use keys::key_has_parts;

    let k = keys::key(vol, entry.file_id);
    let e = d.with_update(known, false, k, entry);
    if known && !(d.index.contains_key(k) && !d.is_gone(k)) {
        assert forall|x: u64| #[trigger] e.modified.contains_key(x) implies x == keys::key(
            keys::volume_in(x),
            e.modified[x].file_id,
        ) && (e.index.contains_key(x) ==> e.is_gone(x)) by {
            if x != k {
                assert(d.modified.contains_key(x));
            }
        }
        assert forall|i: int| 0 <= i < e.new_files.len() implies {
            let x = added_key(#[trigger] e.new_files[i]);
            e.index.contains_key(x) && e.index[x] == i
        } by {
            assert(e.new_files[i] == d.new_files[i]);
        }
        if d.deleted.contains(k) && !d.is_gone(k) {
            assert(d.renamed.contains(k));
        }
    } else {
        added_change_keeps(d, vol, entry);
    }
}

/// Removing a file leaves the added files known under their keys and what is held of the
/// others; nothing is held of the file.
pub proof fn removal_keeps(d: DeltaModel, k: u64)
    requires
        d.is_indexed(),
    ensures
        ({
            let e = d.with_removal(false, k);
            &&& e.is_indexed()
            &&& e.index == d.index
            &&& e.new_files == d.new_files
            &&& forall|x: u64| x != k ==> #[trigger] e.told(x) == d.told(x)
            &&& e.told(k) is None
            &&& e.is_gone(k)
        }),
{
    let e = d.with_removal(false, k);
    assert forall|x: u64| #[trigger] e.modified.contains_key(x) implies x == keys::key(
        keys::volume_in(x),
        e.modified[x].file_id,
    ) && (e.index.contains_key(x) ==> e.is_gone(x)) by {
        assert(d.modified.contains_key(x));
    }
    assert forall|x: u64| #[trigger] e.renamed.contains(x) implies e.index.contains_key(x) by {
        assert(d.renamed.contains(x));
    }
    assert forall|i: int| 0 <= i < e.new_files.len() implies {
        let x = added_key(#[trigger] e.new_files[i]);
        e.index.contains_key(x) && e.index[x] == i
    } by {
        assert(e.new_files[i] == d.new_files[i]);
    }
}

/// Adding a file leaves the added files known under their keys and what is held of the
/// others; the file is held as it was added.
pub proof fn addition_keeps(d: DeltaModel, vol: u8, known: bool, entry: FileEntry)
    requires
        d.is_indexed(),
        d.new_files.len() < usize::MAX,
    ensures
        ({
            let k = keys::key(vol, entry.file_id);
            let e = d.with_addition(vol, known, false, entry);
            &&& e.is_indexed()
            &&& d.new_files.len() <= e.new_files.len() <= d.new_files.len() + 1
            &&& forall|x: u64| x != k ==> #[trigger] e.told(x) == d.told(x)
            &&& e.told(k) == Some(entry)
            &&& e.index.contains_key(k)
            &&& known ==> e.deleted.contains(k)
        }),
{
    broadcast use keys::key_has_parts;

    let k = keys::key(vol, entry.file_id);
    let c = if known {
        removal_keeps(d, k);
        d.with_removal(false, k)
    } else {
        d
    };
    let e = c.with_new(vol, false, entry);
    if c.index.contains_key(k) {
        let settled = DeltaModel { renamed: e.renamed, modified: e.modified, count: e.count, ..c };
        assert forall|x: u64| #[trigger] settled.modified.contains_key(x) implies x == keys::key(
            keys::volume_in(x),
            settled.modified[x].file_id,
        ) && (settled.index.contains_key(x) ==> settled.is_gone(x)) by {
            assert(c.modified.contains_key(x));
        }
        assert forall|i: int| 0 <= i < settled.new_files.len() implies {
            let x = added_key(#[trigger] settled.new_files[i]);
            settled.index.contains_key(x) && settled.index[x] == i
        } by {
            assert(settled.new_files[i] == c.new_files[i]);
        }
        added_change_keeps(settled, vol, entry);
        assert(e == settled.with_added_changed(k, entry));
        assert forall|x: u64| x != k implies #[trigger] e.told(x) == d.told(x) by {
            assert(c.told(x) == d.told(x));
            assert(settled.told(x) == c.told(x));
        }
    } else {
        let n = c.new_files.len() as int;
        assert forall|i: int| 0 <= i < e.new_files.len() implies {
            let x = added_key(#[trigger] e.new_files[i]);
            e.index.contains_key(x) && e.index[x] == i
        } by {
            if i < n {
                assert(e.new_files[i] == c.new_files[i]);
                assert(c.index.contains_key(added_key(c.new_files[i])));
            }
        }
        assert forall|x: u64| #[trigger] e.index.contains_key(x) implies e.index[x]
            < e.new_files.len() && added_key(e.new_files[e.index[x] as int]) == x by {
            if x != k {
                assert(c.index.contains_key(x));
                assert(added_key(c.new_files[c.index[x] as int]) == x);
            }
        }
        assert forall|x: u64| #[trigger] e.modified.contains_key(x) implies x == keys::key(
            keys::volume_in(x),
            e.modified[x].file_id,
        ) && (e.index.contains_key(x) ==> e.is_gone(x)) by {
            assert(c.modified.contains_key(x));
        }
        assert forall|x: u64| x != k implies #[trigger] e.told(x) == d.told(x) by {
            assert(c.told(x) == d.told(x));
            if c.index.contains_key(x) {
                assert(added_key(c.new_files[c.index[x] as int]) == x);
            }
        }
    }
}

/// Whether the files of a list of changed files are told of under their own ids.
pub open spec fn under_own_ids(fids: Seq<u32>, entries: Seq<FileEntry>) -> bool {
    &&& fids.len() == entries.len()
    &&& forall|i: int| 0 <= i < fids.len() ==> #[trigger] entries[i].file_id == fids[i]
}

/// What changing files in turn leaves.
pub proof fn updates_keep(
    d: DeltaModel,
    vol: u8,
    index: Seq<(u32, u32)>,
    fids: Seq<u32>,
    entries: Seq<FileEntry>,
)
    requires
        d.is_indexed(),
        under_own_ids(fids, entries),
    ensures
        ({
            let e = d.with_updates(vol, index, |fid: u32| false, fids, entries);
            &&& e.is_indexed()
            &&& e.index == d.index
            &&& e.deleted == d.deleted
            &&& e.renamed == d.renamed
            &&& e.new_files.len() == d.new_files.len()
            &&& forall|x: u64|
                (forall|i: int| 0 <= i < fids.len() ==> keys::key(vol, #[trigger] fids[i]) != x)
                    ==> #[trigger] e.told(x) == d.told(x)
        }),
    decreases fids.len(),
{
    if fids.len() > 0 {
        let (f, g) = (fids.drop_last(), entries.drop_last());
        assert forall|i: int| 0 <= i < f.len() implies #[trigger] g[i].file_id == f[i] by {
            assert(entries[i].file_id == fids[i]);
        }
        updates_keep(d, vol, index, f, g);
        let most = d.with_updates(vol, index, |fid: u32| false, f, g);
        assert(entries[fids.len() - 1].file_id == fids.last());
        update_keeps(most, vol, fid_index::knows(index, fids.last()), entries.last());
        let e = d.with_updates(vol, index, |fid: u32| false, fids, entries);
        assert forall|x: u64|
            (forall|i: int|
                0 <= i < fids.len() ==> keys::key(vol, #[trigger] fids[i])
                    != x) implies #[trigger] e.told(x) == d.told(x) by {
            assert forall|i: int| 0 <= i < f.len() implies keys::key(vol, #[trigger] f[i])
                != x by {
                assert(f[i] == fids[i]);
            }
            assert(keys::key(vol, fids[fids.len() - 1]) != x);
            assert(most.told(x) == d.told(x));
        }
    }
}

/// A file that is there is held as it was last told to have changed.
pub proof fn last_update_is_told(
    d: DeltaModel,
    vol: u8,
    index: Seq<(u32, u32)>,
    fids: Seq<u32>,
    entries: Seq<FileEntry>,
    k: int,
)
    requires
        d.is_indexed(),
        under_own_ids(fids, entries),
        0 <= k < fids.len(),
        forall|i: int| k < i < fids.len() ==> #[trigger] fids[i] != fids[k],
        fid_index::knows(index, fids[k]) || d.index.contains_key(keys::key(vol, fids[k])),
        !d.is_gone(keys::key(vol, fids[k])),
    ensures
        d.with_updates(vol, index, |fid: u32| false, fids, entries).told(keys::key(vol, fids[k]))
            == Some(entries[k]),
    decreases fids.len(),
{
    broadcast use keys::key_has_parts;

    let (f, g) = (fids.drop_last(), entries.drop_last());
    let n = fids.len() - 1;
    assert forall|i: int| 0 <= i < f.len() implies #[trigger] g[i].file_id == f[i] by {
        assert(entries[i].file_id == fids[i]);
    }
    updates_keep(d, vol, index, f, g);
    let most = d.with_updates(vol, index, |fid: u32| false, f, g);
    assert(entries[n].file_id == fids[n]);
    update_keeps(most, vol, fid_index::knows(index, fids.last()), entries.last());
    if k < n {
        assert(f[k] == fids[k] && g[k] == entries[k]);
        assert forall|i: int| k < i < f.len() implies #[trigger] f[i] != f[k] by {
            assert(fids[i] != fids[k]);
        }
        last_update_is_told(d, vol, index, f, g, k);
        assert(fids[n] != fids[k]);
    }
}

/// What removing files in turn leaves.
pub proof fn removals_keep(d: DeltaModel, vol: u8, fids: Seq<u32>)
    requires
        d.is_indexed(),
    ensures
        ({
            let e = d.with_removals(vol, |fid: u32| false, fids);
            &&& e.is_indexed()
            &&& e.index == d.index
            &&& e.new_files == d.new_files
            &&& forall|x: u64|
                (forall|i: int| 0 <= i < fids.len() ==> keys::key(vol, #[trigger] fids[i]) != x)
                    ==> #[trigger] e.told(x) == d.told(x)
            &&& forall|i: int| #![trigger fids[i]]
                0 <= i < fids.len() ==> e.is_gone(keys::key(vol, fids[i])) && e.told(
                    keys::key(vol, fids[i]),
                ) is None
        }),
    decreases fids.len(),
{
    if fids.len() > 0 {
        let f = fids.drop_last();
        let n = fids.len() - 1;
        removals_keep(d, vol, f);
        let most = d.with_removals(vol, |fid: u32| false, f);
        let e = d.with_removals(vol, |fid: u32| false, fids);
        removal_keeps(most, keys::key(vol, fids.last()));
        assert forall|x: u64|
            (forall|i: int|
                0 <= i < fids.len() ==> keys::key(vol, #[trigger] fids[i])
                    != x) implies #[trigger] e.told(x) == d.told(x) by {
            assert forall|i: int| 0 <= i < f.len() implies keys::key(vol, #[trigger] f[i])
                != x by {
                assert(f[i] == fids[i]);
            }
            assert(keys::key(vol, fids[n]) != x);
            assert(most.told(x) == d.told(x));
        }
        assert forall|i: int| #![trigger fids[i]]
            0 <= i < fids.len() implies e.is_gone(keys::key(vol, fids[i])) && e.told(
            keys::key(vol, fids[i]),
        ) is None by {
            let x = keys::key(vol, fids[i]);
            if x != keys::key(vol, fids.last()) {
                assert(f[i] == fids[i]);
                assert(most.is_gone(x));
                assert(e.told(x) == most.told(x));
            }
        }
    }
}

/// What adding files in turn leaves.
pub proof fn additions_keep(
    d: DeltaModel,
    vol: u8,
    index: Seq<(u32, u32)>,
    entries: Seq<FileEntry>,
    passed_over: spec_fn(u32) -> bool,
)
    requires
        d.is_indexed(),
        d.new_files.len() + entries.len() <= usize::MAX,
    ensures
        ({
            let e = d.with_additions(vol, index, |fid: u32| false, entries, passed_over);
            &&& e.is_indexed()
            &&& d.new_files.len() <= e.new_files.len() <= d.new_files.len() + entries.len()
            &&& forall|x: u64|
                (forall|i: int|
                    0 <= i < entries.len() && !passed_over((#[trigger] entries[i]).file_id)
                        ==> keys::key(vol, entries[i].file_id) != x) ==> #[trigger] e.told(x)
                    == d.told(x) && e.is_gone(x) == d.is_gone(x)
        }),
    decreases entries.len(),
{
    if entries.len() > 0 {
        let init = entries.drop_last();
        let n = entries.len() - 1;
        additions_keep(d, vol, index, init, passed_over);
        let most = d.with_additions(vol, index, |fid: u32| false, init, passed_over);
        let e = d.with_additions(vol, index, |fid: u32| false, entries, passed_over);
        let last = entries.last();
        addition_keeps(most, vol, fid_index::knows(index, last.file_id), last);
        assert forall|x: u64|
            (forall|i: int|
                0 <= i < entries.len() && !passed_over((#[trigger] entries[i]).file_id)
                    ==> keys::key(vol, entries[i].file_id) != x) implies #[trigger] e.told(x)
            == d.told(x) && e.is_gone(x) == d.is_gone(x) by {
            assert forall|i: int|
                0 <= i < init.len() && !passed_over(
                    (#[trigger] init[i]).file_id,
                ) implies keys::key(vol, init[i].file_id) != x by {
                assert(init[i] == entries[i]);
            }
            assert(most.told(x) == d.told(x));
            assert(entries[n] == last);
        }
    }
}

/// A file is held as it was last added.
pub proof fn last_addition_is_told(
    d: DeltaModel,
    vol: u8,
    index: Seq<(u32, u32)>,
    entries: Seq<FileEntry>,
    passed_over: spec_fn(u32) -> bool,
    k: int,
)
    requires
        d.is_indexed(),
        d.new_files.len() + entries.len() <= usize::MAX,
        0 <= k < entries.len(),
        !passed_over(entries[k].file_id),
        forall|i: int|
            k < i < entries.len() ==> (#[trigger] entries[i]).file_id != entries[k].file_id,
    ensures
        ({
            let e = d.with_additions(vol, index, |fid: u32| false, entries, passed_over);
            &&& e.told(keys::key(vol, entries[k].file_id)) == Some(entries[k])
            &&& e.index.contains_key(keys::key(vol, entries[k].file_id))
        }),
    decreases entries.len(),
{
    broadcast use keys::key_has_parts;

    let init = entries.drop_last();
    let n = entries.len() - 1;
    let last = entries.last();
    additions_keep(d, vol, index, init, passed_over);
    let most = d.with_additions(vol, index, |fid: u32| false, init, passed_over);
    addition_keeps(most, vol, fid_index::knows(index, last.file_id), last);
    if k < n {
        assert(init[k] == entries[k]);
        assert forall|i: int| k < i < init.len() implies (#[trigger] init[i]).file_id
            != init[k].file_id by {
            assert(entries[i] == init[i]);
        }
        last_addition_is_told(d, vol, index, init, passed_over, k);
        assert(entries[n].file_id != entries[k].file_id);
    }
}

/// Whether each file of a list of changed files is told of under its own id.
pub open spec fn own_ids(updated: Seq<(u64, SearchResult)>) -> bool {
    forall|i: int|
        0 <= i < updated.len() ==> (#[trigger] updated[i]).0 as u32 == updated[i].1.file_id
}

/// The files to store for changed files that are told of under their own ids have these.
pub proof fn changed_under_own_ids(t: TableModel, updated: Seq<(u64, SearchResult)>)
    requires
        own_ids(updated),
    ensures
        under_own_ids(
            incremental::updated_ids(updated),
            changes::entries_for(t, incremental::results_of(updated)),
        ),
{
    let fids = incremental::updated_ids(updated);
    let changed = changes::entries_for(t, incremental::results_of(updated));
    assert forall|i: int| 0 <= i < fids.len() implies #[trigger] changed[i].file_id == fids[i] by {
        assert(updated[i].0 as u32 == updated[i].1.file_id);
    }
}

/// What a batch leaves of the changes, whether there is a search that they show in or not.
pub proof fn batch_changes(
    before: VolumeManager,
    after: VolumeManager,
    drive: Seq<char>,
    added: Seq<SearchResult>,
    removed: Seq<(u64, String)>,
    updated: Seq<(u64, SearchResult)>,
)
    requires
        before.took_up(after, drive, added, removed, updated),
    ensures
        ({
            let m = before.volumes@[drive];
            after.changes() == before.changes().after_batch(
                before.volume_index@[drive],
                m.ready_index(),
                |fid: u32| false,
                m.path_table@,
                added,
                removed,
                updated,
            )
        }),
{
    if before.search_cache is Some {
        let (c0, c) = (before.search_cache->0, after.search_cache->0);
        let m = before.volumes@[drive];
        let vol = before.volume_index@[drive];
        incremental::batch_uncounted(
            c0.delta_model(),
            vol,
            m.ready_index(),
            |fid: u32| c.marks(vol, fid),
            m.path_table@,
            added,
            removed,
            updated,
        );
        assert(c.delta_model().uncounted() == after.changes());
        assert(c0.delta_model().uncounted() == before.changes());
    }
}

/// The three steps of a batch: the changes after the changed, then the removed, then the
/// added files.
pub open spec fn batch_steps(
    d: DeltaModel,
    vol: u8,
    index: Seq<(u32, u32)>,
    t: TableModel,
    added: Seq<SearchResult>,
    removed: Seq<(u64, String)>,
    updated: Seq<(u64, SearchResult)>,
) -> (DeltaModel, DeltaModel, DeltaModel) {
    let results = incremental::results_of(updated);
    let d1 = d.with_updates(
        vol,
        index,
        |fid: u32| false,
        incremental::updated_ids(updated),
        changes::entries_for(t, results),
    );
    let d2 = d1.with_removals(vol, |fid: u32| false, incremental::removed_ids(removed));
    (
        d1,
        d2,
        d2.with_additions(
            vol,
            index,
            |fid: u32| false,
            changes::entries_for(changes::table_after(t, results), added),
            |fid: u32| incremental::came_and_went(added, removed, fid),
        ),
    )
}

/// A batch of changes leaves the added files known under their keys, where each file is told
/// to have changed under its own id.
pub proof fn batch_keeps_index(
    before: VolumeManager,
    after: VolumeManager,
    drive: Seq<char>,
    added: Seq<SearchResult>,
    removed: Seq<(u64, String)>,
    updated: Seq<(u64, SearchResult)>,
)
    requires
        before.took_up(after, drive, added, removed, updated),
        before.changes().is_indexed(),
        before.changes().new_files.len() + added.len() <= usize::MAX,
        own_ids(updated),
    ensures
        after.changes().is_indexed(),
        ({
            let m = before.volumes@[drive];
            let (d1, d2, d3) = batch_steps(
                before.changes(),
                before.volume_index@[drive],
                m.ready_index(),
                m.path_table@,
                added,
                removed,
                updated,
            );
            &&& d3 == after.changes()
            &&& d1.is_indexed()
            &&& d2.is_indexed()
            &&& d1.new_files.len() == before.changes().new_files.len()
            &&& d2.new_files == d1.new_files
            &&& d2.index == before.changes().index
        }),
{
    batch_changes(before, after, drive, added, removed, updated);
    let m = before.volumes@[drive];
    let vol = before.volume_index@[drive];
    let t = m.path_table@;
    let d = before.changes();
    let results = incremental::results_of(updated);
    changed_under_own_ids(t, updated);
    updates_keep(
        d,
        vol,
        m.ready_index(),
        incremental::updated_ids(updated),
        changes::entries_for(t, results),
    );
    let (d1, d2, d3) = batch_steps(d, vol, m.ready_index(), t, added, removed, updated);
    removals_keep(d1, vol, incremental::removed_ids(removed));
    additions_keep(
        d2,
        vol,
        m.ready_index(),
        changes::entries_for(changes::table_after(t, results), added),
        |fid: u32| incremental::came_and_went(added, removed, fid),
    );
}

/// Whether no two added files have the same key.
spec fn added_differ(s: Seq<(u8, FileEntry)>) -> bool {
    forall|i: int, j: int|
        0 <= i < j < s.len() ==> added_key(#[trigger] s[i]) != added_key(#[trigger] s[j])
}

/// The places of added files lead back to their keys.
proof fn places_lead_back(s: Seq<(u8, FileEntry)>)
    requires
        s.len() <= usize::MAX,
    ensures
        forall|k: u64| #[trigger]
            changes::places_of_added(s).contains_key(k) ==> changes::places_of_added(s)[k]
                < s.len() && added_key(s[changes::places_of_added(s)[k] as int]) == k,
        added_differ(s) ==> forall|i: int|
            0 <= i < s.len() ==> changes::places_of_added(s).contains_key(
                added_key(#[trigger] s[i]),
            ) && changes::places_of_added(s)[added_key(s[i])] == i,
    decreases s.len(),
{
    if s.len() > 0 {
        let t = s.drop_last();
        let n = s.len() - 1;
        places_lead_back(t);
        let (all, most) = (changes::places_of_added(s), changes::places_of_added(t));
        assert(s.last() == s[n]);
        assert forall|k: u64| #[trigger] all.contains_key(k) implies all[k] < s.len() && added_key(
            s[all[k] as int],
        ) == k by {
            if k != added_key(s.last()) {
                assert(most.contains_key(k));
                assert(t[most[k] as int] == s[most[k] as int]);
            }
        }
        if added_differ(s) {
            assert(added_differ(t)) by {
                assert forall|i: int, j: int| 0 <= i < j < t.len() implies added_key(
                    #[trigger] t[i],
                ) != added_key(#[trigger] t[j]) by {
                    assert(s[i] == t[i] && s[j] == t[j]);
                }
            }
            assert forall|i: int| 0 <= i < s.len() implies all.contains_key(
                added_key(#[trigger] s[i]),
            ) && all[added_key(s[i])] == i by {
                if i < n {
                    assert(t[i] == s[i]);
                    assert(added_key(s[i]) != added_key(s[n]));
                }
            }
        }
    }
}

/// Leaving out added files leaves no two of the same key where there were none.
proof fn filtered_differ(s: Seq<(u8, FileEntry)>, keep: spec_fn((u8, FileEntry)) -> bool)
    requires
        added_differ(s),
    ensures
        added_differ(s.filter(keep)),
    decreases s.len(),
{
    reveal(Seq::filter);
    if s.len() > 0 {
        let t = s.drop_last();
        let n = s.len() - 1;
        assert forall|i: int, j: int| 0 <= i < j < t.len() implies added_key(#[trigger] t[i])
            != added_key(#[trigger] t[j]) by {
            assert(s[i] == t[i] && s[j] == t[j]);
        }
        filtered_differ(t, keep);
        let (all, most) = (s.filter(keep), t.filter(keep));
        if keep(s.last()) {
            assert forall|i: int, j: int| 0 <= i < j < all.len() implies added_key(
                #[trigger] all[i],
            ) != added_key(#[trigger] all[j]) by {
                assert(all[i] == most[i]);
                if j == most.len() {
                    assert(most.contains(most[i]));
                    t.lemma_filter_contains_rev(keep, most[i]);
                    let k = choose|k: int| 0 <= k < t.len() && t[k] == most[i];
                    assert(s[k] == most[i]);
                    assert(added_key(s[k]) != added_key(s[n]));
                } else {
                    assert(all[j] == most[j]);
                }
            }
        }
    }
}

/// Forgetting the changes of a volume leaves the added files of the others known under their
/// keys.
pub proof fn forgetting_keeps_index(d: DeltaModel, vol_names: Seq<String>, name: Seq<char>)
    requires
        d.is_indexed(),
        d.new_files.len() <= usize::MAX,
    ensures
        d.without(vol_names, name).is_indexed(),
{
    broadcast use keys::key_has_parts;

    let keep = |e: (u8, FileEntry)| !changes::is_volume(vol_names, e.0, name);
    let e = d.without(vol_names, name);
    assert forall|i: int, j: int| 0 <= i < j < d.new_files.len() implies added_key(
        #[trigger] d.new_files[i],
    ) != added_key(#[trigger] d.new_files[j]) by {
        assert(d.index[added_key(d.new_files[i])] == i);
        assert(d.index[added_key(d.new_files[j])] == j);
    }
    filtered_differ(d.new_files, keep);
    d.new_files.lemma_filter_len(keep);
    assert(e.new_files == d.new_files.filter(keep));
    places_lead_back(e.new_files);
    assert forall|k: u64| #[trigger] e.renamed.contains(k) implies e.index.contains_key(k) by {
        assert(d.renamed.contains(k));
        let i = d.index[k] as int;
        assert(added_key(d.new_files[i]) == k);
        d.new_files.lemma_filter_contains(keep, i);
        let j = choose|j: int| 0 <= j < e.new_files.len() && e.new_files[j] == d.new_files[i];
        assert(e.index.contains_key(added_key(e.new_files[j])));
    }
    assert forall|k: u64| #[trigger] e.modified.contains_key(k) implies k == keys::key(
        keys::volume_in(k),
        e.modified[k].file_id,
    ) && (e.index.contains_key(k) ==> e.is_gone(k)) by {
        assert(d.modified.contains_key(k));
        if e.index.contains_key(k) {
            let x = e.new_files[e.index[k] as int];
            assert(e.new_files.contains(x));
            d.new_files.lemma_filter_contains_rev(keep, x);
            let j = choose|j: int| 0 <= j < d.new_files.len() && d.new_files[j] == x;
            assert(d.index.contains_key(added_key(d.new_files[j])));
        }
    }
}

} // verus!
