//! Merging what changed since the volumes were scanned into them.

use crate::changes;
use crate::changes::{volume_is, DeltaModel};
use crate::fid_index;
use crate::fid_index::build_index;
use crate::keys;
use crate::keys::key_of;
use crate::query::SearchQuery;
use crate::search::FileEntry;
use crate::search_cache;
use crate::search_cache::{DeltaCache, SearchCache};
use crate::searching;
use crate::searching::sift_volume;
use crate::seqs;
use crate::text::{blank, same_text};
use crate::volume_map;
use crate::volume_map::{VolumeMap, VolumeSlot};
use crate::volume_monitor::VolumeMonitor;
use vstd::prelude::*;

verus! {

broadcast use {
    vstd::std_specs::hash::group_hash_axioms,
    vstd::std_specs::btree::group_btree_axioms,
    vstd::laws_cmp::group_laws_cmp,
};

/// What the changes leave of a file that volume number `vol` lists.
pub open spec fn settled(d: DeltaModel, vol: u8, f: FileEntry) -> Option<FileEntry> {
    let k = keys::key(vol, f.file_id);
    let now = if d.modified.contains_key(k) {
        d.modified[k]
    } else {
        f
    };
    if d.deleted.contains(keys::key(vol, now.file_id)) {
        None
    } else {
        Some(now)
    }
}

/// The file that the changes add to the volume `name`, where `e` is that.
pub open spec fn added_file(
    d: DeltaModel,
    vol_names: Seq<String>,
    name: Seq<char>,
    e: (u8, FileEntry),
) -> Option<FileEntry> {
    if changes::is_volume(vol_names, e.0, name) && !d.is_gone(keys::key(e.0, e.1.file_id)) {
        Some(e.1)
    } else {
        None
    }
}

/// The files that the changes add to the volume `name`.
pub open spec fn added_to(d: DeltaModel, vol_names: Seq<String>, name: Seq<char>) -> Seq<FileEntry> {
    d.new_files.filter_map(|e: (u8, FileEntry)| added_file(d, vol_names, name, e))
}

/// The files of the volume `name` after the changes: changed ones in their places, without
/// the removed ones, and with the added ones at the end.
pub open spec fn files_after(
    files: Seq<FileEntry>,
    name: Seq<char>,
    vol_names: Seq<String>,
    d: DeltaModel,
) -> Seq<FileEntry> {
    let vol = number_of(vol_names, name);
    files.filter_map(|f: FileEntry| settled(d, vol, f)) + added_to(d, vol_names, name)
}

/// Whether the changes reach the volume `name`: one of its files was changed or removed, or
/// it was added to.
pub open spec fn is_affected(
    files: Seq<FileEntry>,
    name: Seq<char>,
    vol_names: Seq<String>,
    d: DeltaModel,
) -> bool {
    ||| exists|i: int|
        0 <= i < files.len() && d.hides(
            keys::key(number_of(vol_names, name), (#[trigger] files[i]).file_id),
        )
    ||| added_to(d, vol_names, name).len() > 0
}

/// The volume `name` after the changes: where they reach it, with a new index.
pub open spec fn monitor_after(
    before: VolumeMonitor,
    after: VolumeMonitor,
    name: Seq<char>,
    vol_names: Seq<String>,
    d: DeltaModel,
) -> bool {
    &&& after.files@ == files_after(before.files@, name, vol_names, d)
    &&& if is_affected(before.files@, name, vol_names, d) {
        after.fid_index matches Some(index) && index@ == fid_index::index_of_files(after.files@)
    } else {
        after.fid_index == before.fid_index
    }
    &&& after.path_table == before.path_table
    &&& after.same_settings(before)
}

/// Where nothing changed, a volume keeps its files.
pub proof fn nothing_to_merge(
    files: Seq<FileEntry>,
    name: Seq<char>,
    vol_names: Seq<String>,
    d: DeltaModel,
)
    requires
        d.new_files.len() == 0,
        d.deleted.is_empty(),
        d.modified.is_empty(),
    ensures
        files_after(files, name, vol_names, d) == files,
    decreases files.len(),
{
    let vol = number_of(vol_names, name);
    let settle = |f: FileEntry| settled(d, vol, f);
    filter_map_bounded(
        d.new_files,
        |e: (u8, FileEntry)| added_file(d, vol_names, name, e),
    );
    assert(added_to(d, vol_names, name) =~= seq![]);
    reveal(Seq::filter_map);
    if files.len() > 0 {
        let f = files.last();
        nothing_to_merge(files.drop_last(), name, vol_names, d);
        assert(!d.modified.dom().contains(keys::key(vol, f.file_id)));
        assert(settle(f) == Some(f));
        assert(files.filter_map(settle) =~= files);
    }
    assert(files_after(files, name, vol_names, d) =~= files);
}

/// Whether each volume is as the changes leave it.
pub open spec fn volumes_after(
    before: Seq<VolumeSlot>,
    after: Seq<VolumeSlot>,
    vol_names: Seq<String>,
    d: DeltaModel,
) -> bool {
    &&& after.len() == before.len()
    &&& forall|i: int|
        0 <= i < before.len() ==> {
            &&& (#[trigger] after[i]).name == before[i].name
            &&& monitor_after(
                before[i].monitor,
                after[i].monitor,
                before[i].name@,
                vol_names,
                d,
            )
        }
}

/// The number of the volume `name`: of several the last, which was given last.
pub open spec fn number_of(vol_names: Seq<String>, name: Seq<char>) -> u8 {
    (choose|i: int| last_named(vol_names, name, i)) as u8
}

/// Whether `i` is the last number of the volume `name`.
pub open spec fn last_named(vol_names: Seq<String>, name: Seq<char>, i: int) -> bool {
    &&& 0 <= i < vol_names.len()
    &&& vol_names[i]@ == name
    &&& forall|j: int| i < j < vol_names.len() ==> (#[trigger] vol_names[j])@ != name
}

/// The numbers of the volumes by name.
pub open spec fn numbers_of(vol_names: Seq<String>) -> Map<Seq<char>, u8> {
    Map::new(
        |name: Seq<char>| is_numbered(vol_names, name),
        |name: Seq<char>| number_of(vol_names, name),
    )
}

/// The number of the volume `name`.
fn find_number(vol_names: &Vec<String>, name: &str) -> (r: u8)
    requires
        is_numbered(vol_names@, name@),
    ensures
        r == number_of(vol_names@, name@),
{
    let mut i: usize = vol_names.len() - 1;
    while !same_text(vol_names[i].as_str(), name)
        invariant
            i < vol_names.len(),
            exists|k: int| 0 <= k <= i && (#[trigger] vol_names@[k])@ == name@,
            forall|k: int| i < k < vol_names@.len() ==> (#[trigger] vol_names@[k])@ != name@,
        decreases i,
    {
        i -= 1;
    }
    proof {
        assert(last_named(vol_names@, name@, i as int));
        let k = choose|k: int| last_named(vol_names@, name@, k);
        assert(vol_names@[k]@ == name@ && vol_names@[i as int]@ == name@);
        assert(k == i);
    }
    #[verifier::truncate]
    (i as u8)
}

/// How many files the volumes have.
pub open spec fn total_files(slots: Seq<VolumeSlot>) -> nat
    decreases slots.len(),
{
    if slots.len() == 0 {
        0
    } else {
        total_files(slots.drop_last()) + slots.last().monitor.files@.len()
    }
}

/// How many of the added files go to the volumes.
spec fn total_added(slots: Seq<VolumeSlot>, vol_names: Seq<String>, d: DeltaModel) -> nat
    decreases slots.len(),
{
    if slots.len() == 0 {
        0
    } else {
        total_added(slots.drop_last(), vol_names, d) + added_to(
            d,
            vol_names,
            slots.last().name@,
        ).len()
    }
}

/// Whether the volume number `v` is among the volumes.
spec fn total_named(slots: Seq<VolumeSlot>, vol_names: Seq<String>, v: u8) -> nat
    decreases slots.len(),
{
    if slots.len() == 0 {
        0
    } else {
        total_named(slots.drop_last(), vol_names, v) + (if changes::is_volume(
            vol_names,
            v,
            slots.last().name@,
        ) {
            1nat
        } else {
            0nat
        })
    }
}

proof fn differing_init(slots: Seq<VolumeSlot>)
    requires
        volume_map::names_differ(slots),
        slots.len() > 0,
    ensures
        volume_map::names_differ(slots.drop_last()),
{
    let init = slots.drop_last();
    assert forall|a: int, b: int| 0 <= a < b < init.len() implies (#[trigger] init[a]).name@ != (
    #[trigger] init[b]).name@ by {
        assert(init[a] == slots[a] && init[b] == slots[b]);
    }
}

proof fn one_volume_named(slots: Seq<VolumeSlot>, vol_names: Seq<String>, v: u8)
    requires
        volume_map::names_differ(slots),
    ensures
        total_named(slots, vol_names, v) <= 1,
        (forall|i: int| 0 <= i < slots.len() ==> !changes::is_volume(vol_names, v, (#[trigger] slots[i]).name@))
            ==> total_named(slots, vol_names, v) == 0,
    decreases slots.len(),
{
    if slots.len() > 0 {
        let init = slots.drop_last();
        differing_init(slots);
        one_volume_named(init, vol_names, v);
        if changes::is_volume(vol_names, v, slots.last().name@) {
            assert forall|i: int| 0 <= i < init.len() implies !changes::is_volume(
                vol_names,
                v,
                (#[trigger] init[i]).name@,
            ) by {
                assert(slots[i].name@ != slots[slots.len() - 1].name@);
            }
        }
        if forall|i: int| 0 <= i < slots.len() ==> !changes::is_volume(vol_names, v, (#[trigger] slots[i]).name@) {
            assert(!changes::is_volume(vol_names, v, slots[slots.len() - 1].name@));
            assert forall|i: int| 0 <= i < init.len() implies !changes::is_volume(
                vol_names,
                v,
                (#[trigger] init[i]).name@,
            ) by {
                assert(init[i] == slots[i]);
            }
        }
    }
}

/// The changes without the last added file.
spec fn but_one(d: DeltaModel) -> DeltaModel {
    DeltaModel { new_files: d.new_files.drop_last(), ..d }
}

proof fn one_added_counts(slots: Seq<VolumeSlot>, vol_names: Seq<String>, d: DeltaModel)
    requires
        d.new_files.len() > 0,
    ensures
        total_added(slots, vol_names, d) <= total_added(slots, vol_names, but_one(d))
            + total_named(slots, vol_names, d.new_files.last().0),
    decreases slots.len(),
{
    if slots.len() > 0 {
        one_added_counts(slots.drop_last(), vol_names, d);
        let name = slots.last().name@;
        let pick = |e: (u8, FileEntry)| added_file(d, vol_names, name, e);
        let same = |e: (u8, FileEntry)| added_file(but_one(d), vol_names, name, e);
        assert(pick =~= same);
        reveal(Seq::filter_map);
    }
}

/// No more files go to the volumes than were added.
proof fn added_go_once(slots: Seq<VolumeSlot>, vol_names: Seq<String>, d: DeltaModel)
    requires
        volume_map::names_differ(slots),
    ensures
        total_added(slots, vol_names, d) <= d.new_files.len(),
    decreases d.new_files.len(),
{
    if d.new_files.len() == 0 {
        no_added(slots, vol_names, d);
    } else {
        added_go_once(slots, vol_names, but_one(d));
        one_added_counts(slots, vol_names, d);
        one_volume_named(slots, vol_names, d.new_files.last().0);
    }
}

proof fn no_added(slots: Seq<VolumeSlot>, vol_names: Seq<String>, d: DeltaModel)
    requires
        d.new_files.len() == 0,
    ensures
        total_added(slots, vol_names, d) == 0,
    decreases slots.len(),
{
    if slots.len() > 0 {
        no_added(slots.drop_last(), vol_names, d);
        filter_map_bounded(
            d.new_files,
            |e: (u8, FileEntry)| added_file(d, vol_names, slots.last().name@, e),
        );
    }
}

/// Merging makes no more files than there were and were added.
proof fn merged_files_bounded(
    before: Seq<VolumeSlot>,
    after: Seq<VolumeSlot>,
    vol_names: Seq<String>,
    d: DeltaModel,
)
    requires
        volumes_after(before, after, vol_names, d),
    ensures
        total_files(after) <= total_files(before) + total_added(before, vol_names, d),
    decreases before.len(),
{
    if before.len() > 0 {
        let b = before.drop_last();
        let a = after.drop_last();
        assert forall|i: int| 0 <= i < b.len() implies {
            &&& (#[trigger] a[i]).name == b[i].name
            &&& monitor_after(b[i].monitor, a[i].monitor, b[i].name@, vol_names, d)
        } by {
            assert(a[i] == after[i] && b[i] == before[i]);
        }
        merged_files_bounded(b, a, vol_names, d);
        assert(after[after.len() - 1].name == before[before.len() - 1].name);
        let vol = number_of(vol_names, before.last().name@);
        filter_map_bounded(before.last().monitor.files@, |f: FileEntry| settled(d, vol, f));
    }
}

/// `filter_map` makes nothing longer.
pub proof fn filter_map_bounded<A, B>(s: Seq<A>, f: spec_fn(A) -> Option<B>)
    ensures
        s.filter_map(f).len() <= s.len(),
    decreases s.len(),
{
    if s.len() > 0 {
        filter_map_bounded(s.drop_last(), f);
    }
}

/// Whether every volume has a number.
pub open spec fn all_numbered(slots: Seq<VolumeSlot>, vol_names: Seq<String>) -> bool {
    forall|i: int| 0 <= i < slots.len() ==> is_numbered(vol_names, (#[trigger] slots[i]).name@)
}

/// Whether the volume `name` has a number.
pub open spec fn is_numbered(vol_names: Seq<String>, name: Seq<char>) -> bool {
    exists|i: int| 0 <= i < vol_names.len() && (#[trigger] vol_names[i])@ == name
}

impl DeltaCache {
    /// The files of volume number `vol` without the removed ones and with the changed ones
    /// in their places, and whether there were any.
    fn settle(&self, files: &Vec<FileEntry>, vol: u8) -> (r: (Vec<FileEntry>, bool))
        ensures
            r.0@ == files@.filter_map(|f: FileEntry| settled(self.model(None), vol, f)),
            r.1 == (exists|i: int|
                0 <= i < files@.len() && self.model(None).hides(
                    keys::key(vol, (#[trigger] files@[i]).file_id),
                )),
            !r.1 ==> r.0@ == files@,
    {
        let ghost d = self.model(None);
        let ghost settle = |f: FileEntry| settled(d, vol, f);
        let mut kept: Vec<FileEntry> = Vec::new();
        let mut any = false;
        let mut i: usize = 0;
        assert(files@.take(0) =~= seq![]);
        while i < files.len()
            invariant
                i <= files@.len(),
                d == self.model(None),
                settle == (|f: FileEntry| settled(d, vol, f)),
                kept@ =~= files@.take(i as int).filter_map(settle),
                any == (exists|k: int|
                    0 <= k < i && d.hides(keys::key(vol, (#[trigger] files@[k]).file_id))),
                !any ==> kept@ =~= files@.take(i as int),
            decreases files@.len() - i,
        {
            proof {
                files@.lemma_filter_map_take_succ(settle, i as int);
            }
            let k: u64 = key_of(vol, files[i].file_id);
            assert(d.hides(keys::key(vol, files@[i as int].file_id)) == d.hides(k));
            match self.modified.get(&k) {
                Some(e) => {
                    any = true;
                    if !self.deleted_ids.contains(&key_of(vol, e.file_id)) {
                        kept.push(e.clone());
                    }
                },
                None => {
                    if self.deleted_ids.contains(&k) {
                        any = true;
                    } else {
                        kept.push(files[i].clone());
                    }
                },
            }
            i += 1;
        }
        assert(files@.take(i as int) =~= files@);
        (kept, any)
    }

    /// Appends the files that were added to the volume `name`.
    fn append_added(&self, files: &mut Vec<FileEntry>, name: &str, vol_names: &Vec<String>) -> (any:
        bool)
        ensures
            final(files)@ == old(files)@ + added_to(self.model(None), vol_names@, name@),
            any == (added_to(self.model(None), vol_names@, name@).len() > 0),
    {
        let ghost before = files@;
        let ghost d = self.model(None);
        let ghost pick = |e: (u8, FileEntry)| added_file(d, vol_names@, name@, e);
        let count: usize = files.len();
        let mut i: usize = 0;
        proof {
            assert(d.new_files.take(0) =~= seq![]);
            assert(before + seq![] =~= before);
        }
        while i < self.new_files.len()
            invariant
                i <= self.new_files@.len(),
                d == self.model(None),
                pick == (|e: (u8, FileEntry)| added_file(d, vol_names@, name@, e)),
                files@ =~= before + d.new_files.take(i as int).filter_map(pick),
            decreases self.new_files@.len() - i,
        {
            proof {
                d.new_files.lemma_filter_map_take_succ(pick, i as int);
            }
            let e = &self.new_files[i];
            let k: u64 = key_of(e.0, e.1.file_id);
            let gone = self.deleted_ids.contains(&k) && !self.renamed_fids.contains(&k);
            if !gone && volume_is(vol_names, e.0, name) {
                files.push(e.1.clone());
            }
            i += 1;
        }
        assert(d.new_files.take(i as int) =~= d.new_files);
        files.len() > count
    }

    /// Merges the changes into one volume.
    fn merge_into_slot(&self, slot: &mut VolumeSlot, vol_names: &Vec<String>)
        requires
            old(slot).monitor.wf(),
            is_numbered(vol_names@, old(slot).name@),
        ensures
            final(slot).name == old(slot).name,
            final(slot).monitor.wf(),
            monitor_after(
                old(slot).monitor,
                final(slot).monitor,
                old(slot).name@,
                vol_names@,
                self.model(None),
            ),
    {
        let vol: u8 = find_number(vol_names, slot.name.as_str());
        let (mut files, reached) = self.settle(&slot.monitor.files, vol);
        let added = self.append_added(&mut files, slot.name.as_str(), vol_names);
        if reached || added {
            slot.monitor.files = files;
            slot.monitor.fid_index = Some(build_index(&slot.monitor.files));
        } else {
            assert(files@ =~= slot.monitor.files@);
        }
    }

    /// Merges the changes into the volumes, which have no more files then than they had and
    /// were added.
    pub(crate) fn merge_into(&self, volumes: &mut VolumeMap, vol_names: &Vec<String>)
        requires
            old(volumes).wf(),
            old(volumes).monitors_wf(),
            all_numbered(old(volumes).slots@, vol_names@),
        ensures
            final(volumes).wf(),
            final(volumes).monitors_wf(),
            all_numbered(final(volumes).slots@, vol_names@),
            volumes_after(
                old(volumes).slots@,
                final(volumes).slots@,
                vol_names@,
                self.model(None),
            ),
            total_files(final(volumes).slots@) <= total_files(old(volumes).slots@)
                + self.new_files@.len(),
    {
        let ghost before = volumes.slots@;
        let ghost d = self.model(None);
        let mut i: usize = 0;
        while i < volumes.slots.len()
            invariant
                i <= volumes.slots@.len(),
                d == self.model(None),
                before == old(volumes).slots@,
                volumes.slots@.len() == before.len(),
                old(volumes).monitors_wf(),
                all_numbered(before, vol_names@),
                forall|k: int|
                    0 <= k < before.len() ==> (#[trigger] volumes.slots@[k]).name == before[k].name,
                forall|k: int|
                    i <= k < before.len() ==> #[trigger] volumes.slots@[k] == before[k],
                forall|k: int|
                    #![trigger volumes.slots@[k]]
                    0 <= k < i ==> volumes.slots@[k].monitor.wf() && monitor_after(
                        before[k].monitor,
                        volumes.slots@[k].monitor,
                        before[k].name@,
                        vol_names@,
                        d,
                    ),
            decreases volumes.slots@.len() - i,
        {
            assert(old(volumes).slots@[i as int].monitor.wf());
            assert(is_numbered(vol_names@, before[i as int].name@));
            self.merge_into_slot(&mut volumes.slots[i], vol_names);
            i += 1;
        }
        proof {
            assert forall|a: int, b: int| 0 <= a < b < volumes.slots@.len() implies (
            #[trigger] volumes.slots@[a]).name@ != (#[trigger] volumes.slots@[b]).name@ by {
                assert(before[a].name@ != before[b].name@);
            }
            assert forall|k: int| 0 <= k < volumes.slots@.len() implies is_numbered(
                vol_names@,
                (#[trigger] volumes.slots@[k]).name@,
            ) by {
                assert(is_numbered(vol_names@, before[k].name@));
            }
            merged_files_bounded(before, volumes.slots@, vol_names@, d);
            added_go_once(before, vol_names@, d);
        }
    }
}

impl SearchCache {
    /// The packed positions of all files that the search takes on the given volumes and day.
    pub open spec fn matches_in(
        &self,
        slots: Seq<VolumeSlot>,
        vol_names: Seq<String>,
        today: i32,
    ) -> Seq<u32> {
        searching::found(
            slots,
            numbers_of(vol_names),
            search_cache::query_model(self.query@, today),
            self.files_only,
            self.directories_only,
        )
    }

    /// Whether `after` and the volumes `after_volumes` are left by merging the changes on the
    /// day `today`: they stand in the volumes, what is matched is every file that the search
    /// takes, and no changes are left. Without changes nothing differs.
    pub open spec fn was_merged(
        &self,
        after: SearchCache,
        before_volumes: VolumeMap,
        after_volumes: VolumeMap,
        vol_names: Seq<String>,
        today: i32,
    ) -> bool {
        &&& after.query == self.query
        &&& after.files_only == self.files_only
        &&& after.directories_only == self.directories_only
        &&& after.created_at == self.created_at
        &&& if self.delta.has_changes() {
            &&& volumes_after(
                before_volumes.slots@,
                after_volumes.slots@,
                vol_names,
                self.delta.model(None),
            )
            &&& after.delta.is_clear()
            &&& after.delta.generation == self.delta.generation.wrapping_add(1)
            &&& after.base.matched@ == self.matches_in(after_volumes.slots@, vol_names, today)
            &&& after.base.matched_generation == self.base.matched_generation.wrapping_add(1)
            &&& after.active_base_count is None
            &&& after.base_file_bitvec is None
        } else {
            after == *self && after_volumes == before_volumes
        }
    }

    /// The packed positions of all files that the search takes, volume by volume.
    fn match_all(&self, volumes: &VolumeMap, vol_names: &Vec<String>, today: i32) -> (r: Vec<u32>)
        requires
            all_numbered(volumes.slots@, vol_names@),
        ensures
            r@ == self.matches_in(volumes.slots@, vol_names@, today),
    {
        let parsed: Option<SearchQuery> = if blank(self.query.as_str()) {
            None
        } else {
            Some(SearchQuery::parse_on(self.query.as_str(), today))
        };
        let ghost model = search_cache::query_model(self.query@, today);
        let ghost slots = volumes.slots@;
        let mut matched: Vec<u32> = Vec::new();
        let mut i: usize = 0;
        assert(slots.take(0) =~= seq![]);
        while i < volumes.slots.len()
            invariant
                i <= slots.len(),
                slots == volumes.slots@,
                all_numbered(slots, vol_names@),
                searching::query_in(parsed) == model,
                matched@ == searching::found(
                    slots.take(i as int),
                    numbers_of(vol_names@),
                    model,
                    self.files_only,
                    self.directories_only,
                ),
            decreases slots.len() - i,
        {
            let slot = &volumes.slots[i];
            proof {
                let step = slots.take(i + 1);
                assert(step.drop_last() =~= slots.take(i as int));
                assert(step.last() == slots[i as int]);
                assert(is_numbered(vol_names@, slots[i as int].name@));
            }
            let vol: u8 = find_number(vol_names, slot.name.as_str());
            let mut local = sift_volume(
                &slot.monitor,
                vol,
                &parsed,
                self.files_only,
                self.directories_only,
            );
            matched.append(&mut local);
            i += 1;
        }
        assert(slots.take(i as int) =~= slots);
        matched
    }

    /// Merges what changed since the volumes were scanned into them, and matches all files
    /// that the search takes on the day `today`. Nothing is done where nothing changed.
    pub fn merge_delta_to_base(
        &mut self,
        volumes: &mut VolumeMap,
        vol_names: &Vec<String>,
        today: i32,
    )
        requires
            old(self).wf(),
            old(volumes).wf(),
            old(volumes).monitors_wf(),
            all_numbered(old(volumes).slots@, vol_names@),
            total_files(old(volumes).slots@) + old(self).delta.new_files@.len() <= u32::MAX,
        ensures
            final(self).wf(),
            final(volumes).wf(),
            final(volumes).monitors_wf(),
            all_numbered(final(volumes).slots@, vol_names@),
            total_files(final(volumes).slots@) <= u32::MAX,
            old(self).was_merged(*final(self), *old(volumes), *final(volumes), vol_names@, today),
    {
        if self.delta.new_files.len() == 0 && self.delta.deleted_ids.is_empty()
            && self.delta.modified.is_empty() {
            return ;
        }
        self.delta.merge_into(volumes, vol_names);
        let matched = self.match_all(volumes, vol_names, today);
        proof {
            searching::found_bounded(
                volumes.slots@,
                numbers_of(vol_names@),
                search_cache::query_model(self.query@, today),
                self.files_only,
                self.directories_only,
            );
        }
        self.delta.forget();
        self.base.matched = matched;
        self.invalidate_base_count();
    }
}

/// A file that was added to a volume, and not removed again, stands in it after the merge.
pub proof fn merged_holds_added(
    before: VolumeMonitor,
    after: VolumeMonitor,
    name: Seq<char>,
    vol_names: Seq<String>,
    d: DeltaModel,
    i: int,
)
    requires
        monitor_after(before, after, name, vol_names, d),
        0 <= i < d.new_files.len(),
        added_file(d, vol_names, name, d.new_files[i]) is Some,
    ensures
        after.files@.contains(d.new_files[i].1),
{
    let e = d.new_files[i].1;
    let pick = |e: (u8, FileEntry)| added_file(d, vol_names, name, e);
    let added = added_to(d, vol_names, name);
    seqs::filter_map_has(d.new_files, pick, i);
    let k = choose|k: int| 0 <= k < added.len() && added[k] == e;
    assert(after.files@[after.files@.len() - added.len() + k] == e);
}

} // verus!
