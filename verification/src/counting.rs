//! What holds of the count of matched files that is kept between pages: a batch of
//! changes leaves it exact.

use crate::changes;
use crate::changes::DeltaModel;
use crate::fid_index;
use crate::incremental;
use crate::keys;
use crate::scene;
use crate::scene::Scene;
use crate::search::{FileEntry, SearchResult};
use crate::search_cache::SearchCache;
use crate::sort_cache;
use crate::volume_manager::VolumeManager;
use crate::volume_map;
use crate::volume_map::ShelfModel;
use vstd::prelude::*;

verus! {

/// The keys of the matched files that are still there, by place.
pub open spec fn matched_keys(shelf: Seq<ShelfModel>, matched: Seq<u32>) -> Seq<Option<u64>> {
    matched.map_values(
        |p: u32|
            match volume_map::file_at(shelf, p) {
                Some(f) => Some(keys::key(sort_cache::volume_of(p), f.file_id)),
                None => None,
            },
    )
}

/// How many of the keys are not hidden.
pub open spec fn left_over(ids: Seq<Option<u64>>, hides: spec_fn(u64) -> bool) -> nat
    decreases ids.len(),
{
    if ids.len() == 0 {
        0
    } else {
        left_over(ids.drop_last(), hides) + (match ids.last() {
            Some(key) => if hides(key) {
                0nat
            } else {
                1
            },
            None => 0,
        })
    }
}

/// Whether no key stands at two places.
pub open spec fn ids_differ(ids: Seq<Option<u64>>) -> bool {
    forall|i: int, j: int|
        0 <= i < j < ids.len() && (#[trigger] ids[i]) is Some ==> ids[i] != #[trigger] ids[j]
}

impl DeltaModel {
    /// Whether the count that is kept, where there is one, is that of the keys that are
    /// not hidden.
    pub open spec fn counts(self, ids: Seq<Option<u64>>) -> bool {
        self.count matches Some(n) ==> n == left_over(ids, |k: u64| self.hides(k))
    }
}

impl SearchCache {
    /// Whether the count that is kept, where there is one, is that of the matched files
    /// that are shown.
    pub open spec fn count_is_exact(&self, shelf: Seq<ShelfModel>) -> bool {
        self.delta_model().counts(matched_keys(shelf, self.base.matched@))
    }

    /// Whether the bits of matched file ids, where there are any, mark these ids.
    pub open spec fn bits_are_exact(&self, shelf: Seq<ShelfModel>) -> bool {
        self.base_file_bitvec is Some ==> forall|vol: u8, fid: u32| #[trigger]
            self.marks(vol, fid) <==> self.base_has(shelf, vol, fid)
    }
}

/// No more keys are left over than there are.
proof fn left_over_bounded(ids: Seq<Option<u64>>, hides: spec_fn(u64) -> bool)
    ensures
        left_over(ids, hides) <= ids.len(),
    decreases ids.len(),
{
    if ids.len() > 0 {
        left_over_bounded(ids.drop_last(), hides);
    }
}

/// What is hidden alike leaves as many over.
proof fn left_over_alike(
    ids: Seq<Option<u64>>,
    hides: spec_fn(u64) -> bool,
    other: spec_fn(u64) -> bool,
)
    requires
        forall|i: int|
            #![trigger ids[i]]
            0 <= i < ids.len() && ids[i] is Some ==> hides(ids[i]->0) == other(ids[i]->0),
    ensures
        left_over(ids, hides) == left_over(ids, other),
    decreases ids.len(),
{
    if ids.len() > 0 {
        let init = ids.drop_last();
        assert forall|i: int|
            #![trigger init[i]]
            0 <= i < init.len() && init[i] is Some implies hides(init[i]->0) == other(
            init[i]->0,
        ) by {
            assert(init[i] == ids[i]);
        }
        left_over_alike(init, hides, other);
        assert(ids[ids.len() - 1] == ids.last());
    }
}

/// Hiding one more key takes one away where that key is there.
proof fn one_more_hidden(
    ids: Seq<Option<u64>>,
    hides: spec_fn(u64) -> bool,
    more: spec_fn(u64) -> bool,
    key: u64,
)
    requires
        ids_differ(ids),
        !hides(key),
        more(key),
        forall|f: u64| f != key ==> #[trigger] more(f) == hides(f),
    ensures
        left_over(ids, hides) == left_over(ids, more) + (if ids.contains(Some(key)) {
            1nat
        } else {
            0
        }),
    decreases ids.len(),
{
    if ids.len() > 0 {
        let init = ids.drop_last();
        let n = ids.len() - 1;
        assert forall|i: int, j: int|
            0 <= i < j < init.len() && (#[trigger] init[i]) is Some implies init[i]
            != #[trigger] init[j] by {
            assert(init[i] == ids[i] && init[j] == ids[j]);
        }
        assert(ids[n] == ids.last());
        if ids.last() == Some(key) {
            assert(ids.contains(Some(key)));
            assert forall|i: int|
                #![trigger init[i]]
                0 <= i < init.len() && init[i] is Some implies hides(init[i]->0) == more(
                init[i]->0,
            ) by {
                assert(init[i] == ids[i]);
                assert(ids[i] != ids[n]);
            }
            left_over_alike(init, hides, more);
        } else {
            one_more_hidden(init, hides, more, key);
            if ids.contains(Some(key)) {
                let k = choose|k: int| 0 <= k < ids.len() && ids[k] == Some(key);
                assert(init[k] == Some(key));
            }
            if init.contains(Some(key)) {
                let k = choose|k: int| 0 <= k < init.len() && init[k] == Some(key);
                assert(ids[k] == Some(key));
            }
        }
    }
}

/// Where a delta hides one file more than another, it counts one less where that file
/// is among the keys; where it hides the same, as many.
proof fn hides_one_more(d: DeltaModel, e: DeltaModel, ids: Seq<Option<u64>>, key: u64)
    requires
        ids_differ(ids),
        e.hides(key),
        forall|f: u64| f != key ==> #[trigger] e.hides(f) == d.hides(f),
    ensures
        left_over(ids, |f: u64| d.hides(f)) == left_over(ids, |f: u64| e.hides(f)) + (if !d.hides(
            key,
        ) && ids.contains(Some(key)) {
            1nat
        } else {
            0
        }),
{
    let (a, b) = (|f: u64| d.hides(f), |f: u64| e.hides(f));
    assert forall|f: u64| f != key implies #[trigger] b(f) == a(f) by {
        assert(e.hides(f) == d.hides(f));
    }
    if d.hides(key) {
        left_over_alike(ids, a, b);
    } else {
        one_more_hidden(ids, a, b, key);
    }
}

/// Removing a file leaves the count exact.
proof fn removal_counts(d: DeltaModel, in_base: bool, ids: Seq<Option<u64>>, key: u64)
    requires
        d.counts(ids),
        ids_differ(ids),
        in_base == ids.contains(Some(key)),
    ensures
        d.with_removal(in_base, key).counts(ids),
{
    hides_one_more(d, d.with_removal(in_base, key), ids, key);
}

/// Changing a file leaves the count exact.
proof fn update_counts(
    d: DeltaModel,
    known: bool,
    in_base: bool,
    ids: Seq<Option<u64>>,
    k: u64,
    entry: FileEntry,
)
    requires
        d.counts(ids),
        ids_differ(ids),
        in_base == ids.contains(Some(k)),
    ensures
        d.with_update(known, in_base, k, entry).counts(ids),
{
    let e = d.with_update(known, in_base, k, entry);
    if e.hides(k) {
        hides_one_more(d, e, ids, k);
    } else {
        left_over_alike(ids, |f: u64| d.hides(f), |f: u64| e.hides(f));
    }
}

/// Adding a file leaves the count exact.
proof fn addition_counts(
    d: DeltaModel,
    vol: u8,
    known: bool,
    in_base: bool,
    ids: Seq<Option<u64>>,
    entry: FileEntry,
)
    requires
        d.counts(ids),
        ids_differ(ids),
        in_base == ids.contains(Some(keys::key(vol, entry.file_id))),
        ids.len() <= usize::MAX,
    ensures
        d.with_addition(vol, known, in_base, entry).counts(ids),
{
    let k = keys::key(vol, entry.file_id);
    let c = if known {
        removal_counts(d, in_base, ids, k);
        d.with_removal(in_base, k)
    } else {
        d
    };
    let e = c.with_new(vol, in_base, entry);
    if c.modified.contains_key(k) {
        hides_one_more(e, c, ids, k);
        left_over_bounded(ids, |f: u64| e.hides(f));
    } else {
        left_over_alike(ids, |f: u64| c.hides(f), |f: u64| e.hides(f));
    }
}

/// Changing files in turn leaves the count exact.
proof fn updates_count(
    d: DeltaModel,
    vol: u8,
    index: Seq<(u32, u32)>,
    in_base: spec_fn(u32) -> bool,
    ids: Seq<Option<u64>>,
    fids: Seq<u32>,
    entries: Seq<FileEntry>,
)
    requires
        d.counts(ids),
        ids_differ(ids),
        forall|fid: u32| #[trigger] in_base(fid) == ids.contains(Some(keys::key(vol, fid))),
    ensures
        d.with_updates(vol, index, in_base, fids, entries).counts(ids),
    decreases fids.len(),
{
    if fids.len() > 0 {
        let (init, last) = (fids.drop_last(), fids.last());
        updates_count(d, vol, index, in_base, ids, init, entries.drop_last());
        update_counts(
            d.with_updates(vol, index, in_base, init, entries.drop_last()),
            fid_index::knows(index, last),
            in_base(last),
            ids,
            keys::key(vol, last),
            entries.last(),
        );
    }
}

/// Removing files in turn leaves the count exact.
proof fn removals_count(
    d: DeltaModel,
    vol: u8,
    in_base: spec_fn(u32) -> bool,
    ids: Seq<Option<u64>>,
    fids: Seq<u32>,
)
    requires
        d.counts(ids),
        ids_differ(ids),
        forall|fid: u32| #[trigger] in_base(fid) == ids.contains(Some(keys::key(vol, fid))),
    ensures
        d.with_removals(vol, in_base, fids).counts(ids),
    decreases fids.len(),
{
    if fids.len() > 0 {
        let init = fids.drop_last();
        removals_count(d, vol, in_base, ids, init);
        removal_counts(
            d.with_removals(vol, in_base, init),
            in_base(fids.last()),
            ids,
            keys::key(vol, fids.last()),
        );
    }
}

/// Adding files in turn leaves the count exact.
proof fn additions_count(
    d: DeltaModel,
    vol: u8,
    index: Seq<(u32, u32)>,
    in_base: spec_fn(u32) -> bool,
    ids: Seq<Option<u64>>,
    entries: Seq<FileEntry>,
    passed_over: spec_fn(u32) -> bool,
)
    requires
        d.counts(ids),
        ids_differ(ids),
        forall|fid: u32| #[trigger] in_base(fid) == ids.contains(Some(keys::key(vol, fid))),
        ids.len() <= usize::MAX,
    ensures
        d.with_additions(vol, index, in_base, entries, passed_over).counts(ids),
    decreases entries.len(),
{
    if entries.len() > 0 {
        let (init, e) = (entries.drop_last(), entries.last());
        additions_count(d, vol, index, in_base, ids, init, passed_over);
        if !passed_over(e.file_id) {
            addition_counts(
                d.with_additions(vol, index, in_base, init, passed_over),
                vol,
                fid_index::knows(index, e.file_id),
                in_base(e.file_id),
                ids,
                e,
            );
        }
    }
}

/// The matched files that are shown are those whose keys are left over.
proof fn active_are_left_over(s: Scene, n: nat)
    requires
        n <= s.matched.len() <= u32::MAX,
    ensures
        s.active_rows(scene::places(n)).len() == left_over(
            matched_keys(s.shelf, s.matched).take(n as int),
            |k: u64| s.hides(k),
        ),
    decreases n,
{
    reveal(Seq::filter_map);
    let ids = matched_keys(s.shelf, s.matched);
    if n > 0 {
        let m = (n - 1) as nat;
        active_are_left_over(s, m);
        assert(scene::places(n).drop_last() =~= scene::places(m));
        assert(scene::places(n).last() == m);
        assert(ids.take(n as int).drop_last() =~= ids.take(m as int));
        assert(ids.take(n as int).last() == ids[m as int]);
    }
}

/// An exact count is the number of matched files that are shown.
pub proof fn exact_count_is_shown(c: SearchCache, shelf: Seq<ShelfModel>, today: i32)
    requires
        c.wf(),
        c.count_is_exact(shelf),
    ensures
        c.active_base_count matches Some(n) ==> n == c.scene(shelf, today).active_count(),
{
    let s = c.scene(shelf, today);
    let ids = matched_keys(shelf, s.matched);
    active_are_left_over(s, s.matched.len());
    assert(ids.take(s.matched.len() as int) =~= ids);
    left_over_alike(ids, |k: u64| s.hides(k), |k: u64| c.delta_model().hides(k));
}

/// A count that was made when something was removed or changed is exact.
pub proof fn counted_is_exact(c: SearchCache, shelf: Seq<ShelfModel>, today: i32)
    requires
        c.wf(),
        c.active_base_count == c.uncounted().count_after(shelf, today),
    ensures
        c.count_is_exact(shelf),
{
    if c.active_base_count is Some {
        let s = c.scene(shelf, today);
        assert(c.uncounted().scene(shelf, today) == s);
        let ids = matched_keys(shelf, s.matched);
        active_are_left_over(s, s.matched.len());
        assert(ids.take(s.matched.len() as int) =~= ids);
        left_over_alike(ids, |k: u64| s.hides(k), |k: u64| c.delta_model().hides(k));
        left_over_bounded(ids, |k: u64| s.hides(k));
    }
}

/// A batch of changes leaves the files of the volumes where they are.
pub proof fn batch_keeps_files(
    before: VolumeManager,
    after: VolumeManager,
    drive: Seq<char>,
    added: Seq<SearchResult>,
    removed: Seq<(u64, String)>,
    updated: Seq<(u64, SearchResult)>,
    matched: Seq<u32>,
)
    requires
        before.took_up(after, drive, added, removed, updated),
        before.volumes@.contains_key(drive),
    ensures
        matched_keys(after.shelf(), matched) == matched_keys(before.shelf(), matched),
{
    let (a, b) = (before.shelf(), after.shelf());
    assert forall|i: int| 0 <= i < matched.len() implies #[trigger] volume_map::file_at(
        b,
        matched[i],
    ) == volume_map::file_at(a, matched[i]) by {
        let v = sort_cache::volume_of(matched[i]);
        if v < a.len() {
            assert(a[v as int].name == b[v as int].name);
        }
    }
    assert(matched_keys(b, matched) =~= matched_keys(a, matched));
}

/// Where no two matched files of a volume have the same id, and no id is over the number of
/// bits that the machine can hold, a batch of changes leaves the count that is kept exact,
/// and the bits too.
pub proof fn batch_keeps_count(
    before: VolumeManager,
    after: VolumeManager,
    drive: Seq<char>,
    added: Seq<SearchResult>,
    removed: Seq<(u64, String)>,
    updated: Seq<(u64, SearchResult)>,
)
    requires
        before.wf(),
        before.volumes@.contains_key(drive),
        before.took_up(after, drive, added, removed, updated),
        before.search_cache is Some,
        before.search_cache->0.count_is_exact(before.shelf()),
        before.search_cache->0.bits_are_exact(before.shelf()),
        ids_differ(matched_keys(before.shelf(), before.search_cache->0.base.matched@)),
        forall|v: u8, fid: u32| #[trigger]
            before.search_cache->0.base_has(before.shelf(), v, fid) ==> fid < usize::MAX / 8,
    ensures
        after.search_cache->0.count_is_exact(after.shelf()),
        after.search_cache->0.bits_are_exact(after.shelf()),
{
    let old_cache = before.search_cache->0;
    let c = after.search_cache->0;
    let matched = old_cache.base.matched@;
    let ids = matched_keys(before.shelf(), matched);
    let d = old_cache.delta_model();
    let vol = before.volume_index@[drive];
    let m = before.volumes@[drive];
    let t = m.path_table@;
    let in_base = |fid: u32| c.marks(vol, fid);
    let mid = SearchCache {
        delta: old_cache.delta,
        active_base_count: old_cache.active_base_count,
        ..c
    };
    batch_keeps_files(before, after, drive, added, removed, updated, matched);
    assert forall|v: u8, fid: u32| #[trigger] old_cache.base_has(before.shelf(), v, fid)
        == ids.contains(Some(keys::key(v, fid))) by {
        keys_are_held(old_cache, before.shelf(), v, fid);
    }
    assert forall|v: u8, fid: u32| #[trigger] c.base_has(after.shelf(), v, fid) == ids.contains(
        Some(keys::key(v, fid)),
    ) by {
        keys_are_held(c, after.shelf(), v, fid);
    }
    assert forall|v: u8, fid: u32| #[trigger] c.marks(v, fid) == ids.contains(
        Some(keys::key(v, fid)),
    ) by {
        assert(mid.marks(v, fid) == c.marks(v, fid));
        assert(old_cache.base_has(before.shelf(), v, fid) == ids.contains(
            Some(keys::key(v, fid)),
        ));
        if old_cache.base_file_bitvec is Some {
            assert(old_cache.marks(v, fid) == mid.marks(v, fid));
        }
    }
    let results = incremental::results_of(updated);
    let fids = incremental::updated_ids(updated);
    let changed = changes::entries_for(t, results);
    updates_count(d, vol, m.ready_index(), in_base, ids, fids, changed);
    let d1 = d.with_updates(vol, m.ready_index(), in_base, fids, changed);
    removals_count(d1, vol, in_base, ids, incremental::removed_ids(removed));
    additions_count(
        d1.with_removals(vol, in_base, incremental::removed_ids(removed)),
        vol,
        m.ready_index(),
        in_base,
        ids,
        changes::entries_for(changes::table_after(t, results), added),
        |fid: u32| incremental::came_and_went(added, removed, fid),
    );
    assert forall|v: u8, fid: u32| c.base_file_bitvec is Some implies #[trigger] c.marks(v, fid)
        == c.base_has(after.shelf(), v, fid) by {
        assert(c.marks(v, fid) == ids.contains(Some(keys::key(v, fid))));
    }
}

/// A matched file has an id where its key is among those of the matched files.
proof fn keys_are_held(c: SearchCache, shelf: Seq<ShelfModel>, v: u8, fid: u32)
    ensures
        c.base_has(shelf, v, fid) == matched_keys(shelf, c.base.matched@).contains(
            Some(keys::key(v, fid)),
        ),
{
    broadcast use keys::key_has_parts;

    let matched = c.base.matched@;
    let ids = matched_keys(shelf, matched);
    let k = Some(keys::key(v, fid));
    if ids.contains(k) {
        let i = choose|i: int| 0 <= i < ids.len() && ids[i] == k;
        assert(crate::search_cache::has_id(shelf, matched[i], v, fid));
    }
    if c.base_has(shelf, v, fid) {
        let i = choose|i: int|
            0 <= i < matched.len() && crate::search_cache::has_id(
                shelf,
                #[trigger] matched[i],
                v,
                fid,
            );
        assert(ids[i] == k);
    }
}

/// Reading a page leaves an exact count exact.
pub proof fn page_keeps_count(
    before: VolumeManager,
    after: VolumeManager,
    sort_by: crate::search::SortBy,
    today: i32,
)
    requires
        before.wf(),
        before.page_was_read(after, sort_by, today),
        before.search_cache->0.count_is_exact(before.shelf()),
    ensures
        after.search_cache->0.count_is_exact(after.shelf()),
{
    let c = before.search_cache->0;
    let s = c.scene(before.shelf(), today);
    let ids = matched_keys(before.shelf(), s.matched);
    exact_count_is_shown(c, before.shelf(), today);
    active_are_left_over(s, s.matched.len());
    assert(ids.take(s.matched.len() as int) =~= ids);
    left_over_alike(ids, |k: u64| s.hides(k), |k: u64| c.delta_model().hides(k));
    left_over_bounded(ids, |k: u64| c.delta_model().hides(k));
    left_over_alike(
        ids,
        |k: u64| c.delta_model().hides(k),
        |k: u64| after.search_cache->0.delta_model().hides(k),
    );
}

} // verus!
