//! Merging the changes into the volumes, and removing a file from them, leaves the index
//! sound.

use crate::changes::DeltaModel;
use crate::delta_index;
use crate::keys;
use crate::merging;
use crate::search::FileEntry;
use crate::search_cache;
use crate::sound_volumes;
use crate::sound_volumes::slot_of_both;
use crate::soundness;
use crate::soundness::{dir_known, files_stand, has_id};
use crate::updates::slot_merged_without;
use crate::volume_manager;
use crate::volume_manager::VolumeManager;
use crate::volume_monitor;
use crate::volume_monitor::VolumeMonitor;
use vstd::prelude::*;

verus! {

/// Whether no two files have the same id.
pub open spec fn ids_apart(files: Seq<FileEntry>) -> bool {
    forall|i: int, j: int|
        0 <= i < j < files.len() ==> (#[trigger] files[i]).file_id != (
        #[trigger] files[j]).file_id
}

/// What is picked has no id twice, where no two that are picked have the same.
proof fn picked_apart<A>(s: Seq<A>, f: spec_fn(A) -> Option<FileEntry>)
    requires
        forall|i: int, j: int|
            #![trigger s[i], s[j]]
            0 <= i < j < s.len() && f(s[i]) is Some && f(s[j]) is Some ==> f(s[i])->0.file_id
                != f(s[j])->0.file_id,
    ensures
        ids_apart(s.filter_map(f)),
    decreases s.len(),
{
    reveal(Seq::filter_map);
    if s.len() > 0 {
        let t = s.drop_last();
        let n = s.len() - 1;
        assert forall|i: int, j: int|
            #![trigger t[i], t[j]]
            0 <= i < j < t.len() && f(t[i]) is Some && f(t[j]) is Some implies f(t[i])->0.file_id
            != f(t[j])->0.file_id by {
            assert(s[i] == t[i] && s[j] == t[j]);
        }
        picked_apart(t, f);
        let (all, most) = (s.filter_map(f), t.filter_map(f));
        if f(s.last()) is Some {
            assert forall|i: int, j: int| 0 <= i < j < all.len() implies (
            #[trigger] all[i]).file_id != (#[trigger] all[j]).file_id by {
                assert(all[i] == most[i]);
                if j < most.len() {
                    assert(all[j] == most[j]);
                } else {
                    assert(most.contains(most[i]));
                    t.lemma_filter_map_contains(f, most[i]);
                    let a = choose|a: A| #[trigger] t.contains(a) && f(a) == Some(most[i]);
                    let k = choose|k: int| 0 <= k < t.len() && t[k] == a;
                    assert(s[k] == a && s[n] == s.last());
                }
            }
        }
    }
}

/// What is picked was picked from somewhere.
proof fn picked_source<A>(s: Seq<A>, f: spec_fn(A) -> Option<FileEntry>, i: int) -> (q: int)
    requires
        0 <= i < s.filter_map(f).len(),
    ensures
        0 <= q < s.len(),
        f(s[q]) == Some(s.filter_map(f)[i]),
{
    let x = s.filter_map(f)[i];
    assert(s.filter_map(f).contains(x));
    s.lemma_filter_map_contains(f, x);
    let a = choose|a: A| #[trigger] s.contains(a) && f(a) == Some(x);
    choose|q: int| 0 <= q < s.len() && s[q] == a
}

/// Leaving out files leaves no id twice.
proof fn kept_apart(files: Seq<FileEntry>, keep: spec_fn(FileEntry) -> bool)
    requires
        ids_apart(files),
    ensures
        ids_apart(files.filter(keep)),
    decreases files.len(),
{
    reveal(Seq::filter);
    if files.len() > 0 {
        let t = files.drop_last();
        let n = files.len() - 1;
        assert forall|i: int, j: int| 0 <= i < j < t.len() implies (#[trigger] t[i]).file_id != (
        #[trigger] t[j]).file_id by {
            assert(files[i] == t[i] && files[j] == t[j]);
        }
        kept_apart(t, keep);
        let (all, most) = (files.filter(keep), t.filter(keep));
        if keep(files.last()) {
            assert forall|i: int, j: int| 0 <= i < j < all.len() implies (
            #[trigger] all[i]).file_id != (#[trigger] all[j]).file_id by {
                assert(all[i] == most[i]);
                if j < most.len() {
                    assert(all[j] == most[j]);
                } else {
                    assert(most.contains(most[i]));
                    t.lemma_filter_contains_rev(keep, most[i]);
                    let k = choose|k: int| 0 <= k < t.len() && t[k] == most[i];
                    assert(files[k] == most[i] && files[n] == files.last());
                }
            }
        }
    }
}

/// Where the changes do not reach a volume, it keeps its files.
proof fn unaffected_stays(
    files: Seq<FileEntry>,
    name: Seq<char>,
    vol_names: Seq<String>,
    d: DeltaModel,
)
    requires
        !merging::is_affected(files, name, vol_names, d),
    ensures
        merging::files_after(files, name, vol_names, d) == files,
{
    let vol = merging::number_of(vol_names, name);
    assert forall|i: int| 0 <= i < files.len() implies merging::settled(
        d,
        vol,
        #[trigger] files[i],
    ) == Some(files[i]) by {
        assert(!d.hides(keys::key(vol, files[i].file_id)));
    }
    all_settled(files, d, vol);
    assert(merging::added_to(d, vol_names, name) =~= seq![]);
    assert(merging::files_after(files, name, vol_names, d) =~= files);
}

proof fn all_settled(files: Seq<FileEntry>, d: DeltaModel, vol: u8)
    requires
        forall|i: int|
            0 <= i < files.len() ==> merging::settled(d, vol, #[trigger] files[i]) == Some(
                files[i],
            ),
    ensures
        files.filter_map(|f: FileEntry| merging::settled(d, vol, f)) == files,
    decreases files.len(),
{
    reveal(Seq::filter_map);
    let settle = |f: FileEntry| merging::settled(d, vol, f);
    if files.len() > 0 {
        let init = files.drop_last();
        assert forall|i: int| 0 <= i < init.len() implies merging::settled(
            d,
            vol,
            #[trigger] init[i],
        ) == Some(init[i]) by {
            assert(init[i] == files[i]);
        }
        all_settled(init, d, vol);
        assert(files[files.len() - 1] == files.last());
        assert(files.filter_map(settle) =~= files);
    } else {
        assert(files.filter_map(settle) =~= files);
    }
}

/// What the changes leave of a listed file of a standing index has the file's id, and its
/// directory is in the table.
proof fn settled_stays(vm: VolumeManager, v: u8, f: FileEntry)
    requires
        vm.stands(),
        vm.is_live(v),
        vm.volume(v).files@.contains(f),
        merging::settled(vm.changes(), v, f) is Some,
    ensures
        merging::settled(vm.changes(), v, f)->0.file_id == f.file_id,
        dir_known(vm.volume(v).path_table@, merging::settled(vm.changes(), v, f)->0.path_id),
        !vm.changes().deleted.contains(keys::key(v, f.file_id)),
{
    broadcast use keys::key_has_parts;

    reveal(VolumeManager::stands);
    let d = vm.changes();
    let k = keys::key(v, f.file_id);
    if d.modified.contains_key(k) {
        assert(vm.has_dir(keys::volume_in(k), d.modified[k]));
    } else {
        let i = choose|i: int| 0 <= i < vm.volume(v).files@.len() && vm.volume(v).files@[i] == f;
        assert(vm.volume(v).is_sound());
        assert(dir_known(vm.volume(v).path_table@, vm.volume(v).files@[i].path_id));
    }
}

/// A file that the changes of a standing index add to a volume is of that volume's number, is
/// held under its key, and its directory is in the table.
proof fn added_stays(vm: VolumeManager, v: u8, i: int)
    requires
        vm.stands(),
        vm.is_live(v),
        0 <= i < vm.changes().new_files.len(),
        merging::added_file(
            vm.changes(),
            vm.vol_names@,
            vm.vol_names@[v as int]@,
            vm.changes().new_files[i],
        ) is Some,
    ensures
        ({
            let d = vm.changes();
            let f = d.new_files[i].1;
            let k = keys::key(v, f.file_id);
            &&& d.new_files[i].0 == v
            &&& d.index.contains_key(k)
            &&& d.index[k] == i
            &&& dir_known(vm.volume(v).path_table@, f.path_id)
            &&& has_id(vm.volume(v).files@, f.file_id) ==> d.deleted.contains(k)
        }),
{
    broadcast use keys::key_has_parts;

    reveal(VolumeManager::stands);
    let d = vm.changes();
    let e = d.new_files[i];
    assert(vm.has_dir(e.0, e.1));
    assert(vm.vol_names@[e.0 as int]@ == vm.vol_names@[v as int]@);
    let k = delta_index::added_key(d.new_files[i]);
    assert(d.index.contains_key(k) && d.index[k] == i);
    assert(vm.lists(k) == has_id(vm.volume(v).files@, e.1.file_id));
}

/// A volume of a standing index has no id twice after the changes, and the directories of its
/// files are in its table.
pub proof fn merged_files_stand(vm: VolumeManager, v: u8)
    requires
        vm.stands(),
        vm.is_live(v),
    ensures
        merging::number_of(vm.vol_names@, vm.vol_names@[v as int]@) == v,
        files_stand(
            merging::files_after(
                vm.volume(v).files@,
                vm.vol_names@[v as int]@,
                vm.vol_names@,
                vm.changes(),
            ),
            vm.volume(v).path_table@,
        ),
{
    let d = vm.changes();
    let names = vm.vol_names@;
    let name = names[v as int]@;
    let files = vm.volume(v).files@;
    let t = vm.volume(v).path_table@;
    assert(merging::last_named(names, name, v as int) && files_stand(files, t)) by {
        reveal(VolumeManager::stands);
        assert(vm.volume(v).is_sound());
        assert(merging::last_named(names, name, vm.volume_index@[name] as int));
    }
    soundness::last_is_number(names, name, v as int);
    let settle = |f: FileEntry| merging::settled(d, v, f);
    let pick = |e: (u8, FileEntry)| merging::added_file(d, names, name, e);
    let (a, b) = (files.filter_map(settle), d.new_files.filter_map(pick));
    let all = merging::files_after(files, name, names, d);
    assert(all == a + b);
    assert forall|i: int, j: int|
        #![trigger files[i], files[j]]
        0 <= i < j < files.len() && settle(files[i]) is Some && settle(
            files[j],
        ) is Some implies settle(files[i])->0.file_id != settle(files[j])->0.file_id by {
        settled_stays(vm, v, files[i]);
        settled_stays(vm, v, files[j]);
    }
    picked_apart(files, settle);
    assert forall|i: int, j: int|
        #![trigger d.new_files[i], d.new_files[j]]
        0 <= i < j < d.new_files.len() && pick(d.new_files[i]) is Some && pick(
            d.new_files[j],
        ) is Some implies pick(d.new_files[i])->0.file_id != pick(d.new_files[j])->0.file_id by {
        added_stays(vm, v, i);
        added_stays(vm, v, j);
    }
    picked_apart(d.new_files, pick);
    assert forall|i: int| 0 <= i < all.len() implies dir_known(
        t,
        (#[trigger] all[i]).path_id,
    ) by {
        if i < a.len() {
            let q = picked_source(files, settle, i);
            settled_stays(vm, v, files[q]);
        } else {
            let q = picked_source(d.new_files, pick, i - a.len());
            added_stays(vm, v, q);
        }
    }
    assert forall|i: int, j: int| 0 <= i < j < all.len() implies (#[trigger] all[i]).file_id != (
    #[trigger] all[j]).file_id by {
        if j < a.len() {
            assert(all[i] == a[i] && all[j] == a[j]);
        } else if i >= a.len() {
            assert(all[i] == b[i - a.len()] && all[j] == b[j - a.len()]);
        } else {
            let q = picked_source(files, settle, i);
            settled_stays(vm, v, files[q]);
            let y = picked_source(d.new_files, pick, j - a.len());
            added_stays(vm, v, y);
            if all[i].file_id == all[j].file_id {
                assert(has_id(files, files[q].file_id));
            }
        }
    }
}

/// A volume is sound after the changes.
proof fn merged_is_sound(vm: VolumeManager, v: u8, after: VolumeMonitor)
    requires
        vm.stands(),
        vm.is_live(v),
        merging::monitor_after(
            vm.volume(v),
            after,
            vm.vol_names@[v as int]@,
            vm.vol_names@,
            vm.changes(),
        ),
    ensures
        after.is_sound(),
{
    merged_files_stand(vm, v);
    assert(vm.volume(v).is_sound()) by {
        reveal(VolumeManager::stands);
    }
    let m = vm.volume(v);
    let name = vm.vol_names@[v as int]@;
    if !merging::is_affected(m.files@, name, vm.vol_names@, vm.changes()) {
        unaffected_stays(m.files@, name, vm.vol_names@, vm.changes());
    }
}

/// Merging the changes into the volumes leaves the index standing.
proof fn merging_stands(before: VolumeManager, after: VolumeManager)
    requires
        before.stands(),
        after.wf(),
        after.volume_index == before.volume_index,
        after.vol_names == before.vol_names,
        merging::volumes_after(
            before.volumes.slots@,
            after.volumes.slots@,
            before.vol_names@,
            before.changes(),
        ),
        after.held_delta().is_clear(),
    ensures
        after.stands(),
{
    let (s, t) = (before.volumes.slots@, after.volumes.slots@);
    assert(before.volumes.wf() && before.numbers_are_sound()) by {
        reveal(VolumeManager::stands);
    }
    sound_volumes::slots_lead(before, after);
    volume_manager::numbers_stay(before, after);
    assert forall|x: Seq<char>| #[trigger]
        after.volumes@.contains_key(x) implies after.volumes@[x].is_sound() by {
        assert(before.volumes@.contains_key(x));
        let j = choose|j: int| 0 <= j < s.len() && #[trigger] slot_of_both(before, after, x, j);
        let v = soundness::slot_is_live(before, j);
        assert(t[j].name == s[j].name);
        merged_is_sound(before, v, t[j].monitor);
    }
    sound_volumes::no_changes_stand(
        after.changes(),
        |v: u8, f: FileEntry| after.has_dir(v, f),
        |k: u64| after.lists(k),
    );
    reveal(VolumeManager::stands);
}

impl VolumeManager {
    /// Merging the changes, where they are many, leaves the index sound, where the machine can
    /// number the files of the merged volumes.
    pub proof fn merge_keeps_sound(self, after: VolumeManager, today: i32)
        requires
            self.is_sound(today),
            self.was_merged_if_needed(after, today),
            after.wf(),
            after.fits(),
        ensures
            after.is_sound(today),
    {
        if self.held_delta().needs_merge() {
            if self.search_cache is Some && !self.held_delta().has_changes() {
                soundness::same_stands(self, after);
                soundness::no_orders_are_current(after, today);
            } else {
                merging_stands(self, after);
                if after.search_cache is Some {
                    let c = after.search_cache->0;
                    reveal(VolumeManager::stands);
                    soundness::found_keys_differ(
                        after,
                        search_cache::query_model(c.query@, today),
                        c.files_only,
                        c.directories_only,
                    );
                    soundness::uncounted_is_exact(c, after.shelf());
                    soundness::no_orders_are_current(after, today);
                }
            }
        }
    }
}

/// A volume is sound after the changes, and without a file.
proof fn rid_is_sound(vm: VolumeManager, v: u8, after: VolumeMonitor, path: Seq<char>)
    requires
        vm.stands(),
        vm.is_live(v),
        ({
            let m = vm.volume(v);
            let name = vm.vol_names@[v as int]@;
            &&& after.files@ == merging::files_after(
                m.files@,
                name,
                vm.vol_names@,
                vm.changes(),
            ).filter(
                |f: FileEntry| !(f.name@ == volume_monitor::name_in(path) && m.path_of(f) == path),
            )
            &&& after.path_table == m.path_table
            &&& after.fid_index is None
        }),
    ensures
        after.is_sound(),
{
    merged_files_stand(vm, v);
    let m = vm.volume(v);
    assert(m.is_sound()) by {
        reveal(VolumeManager::stands);
    }
    let files = merging::files_after(
        m.files@,
        vm.vol_names@[v as int]@,
        vm.vol_names@,
        vm.changes(),
    );
    let keep = |f: FileEntry|
        !(f.name@ == volume_monitor::name_in(path) && m.path_of(f) == path);
    kept_apart(files, keep);
    assert forall|i: int| 0 <= i < after.files@.len() implies dir_known(
        m.path_table@,
        (#[trigger] after.files@[i]).path_id,
    ) by {
        let x = after.files@[i];
        assert(files.filter(keep).contains(x));
        files.lemma_filter_contains_rev(keep, x);
        let q = choose|q: int| 0 <= q < files.len() && files[q] == x;
        assert(dir_known(m.path_table@, files[q].path_id));
    }
}

impl VolumeManager {
    /// Removing a file from the volumes leaves the index sound, where the machine can number
    /// the files that are left.
    pub proof fn removing_file_keeps_sound(self, after: VolumeManager, path: Seq<char>, today: i32)
        requires
            self.stands(),
            self.file_was_removed(after, path, today),
            after.wf(),
            after.fits(),
        ensures
            after.is_sound(today),
    {
        let (s, t) = (self.volumes.slots@, after.volumes.slots@);
        assert(self.volumes.wf() && self.numbers_are_sound() && self.changes_are_sound()) by {
            reveal(VolumeManager::stands);
        }
        assert forall|j: int| 0 <= j < s.len() implies (#[trigger] t[j]).name@ == s[j].name@ by {
            assert(slot_merged_without(s[j], t[j], self.vol_names@, self.changes(), path));
        }
        sound_volumes::slots_lead(self, after);
        volume_manager::numbers_stay(self, after);
        assert forall|x: Seq<char>| #[trigger]
            after.volumes@.contains_key(x) implies after.volumes@[x].is_sound() by {
            assert(self.volumes@.contains_key(x));
            let j = choose|j: int| 0 <= j < s.len() && #[trigger] slot_of_both(self, after, x, j);
            let v = soundness::slot_is_live(self, j);
            assert(slot_merged_without(s[j], t[j], self.vol_names@, self.changes(), path));
            rid_is_sound(self, v, t[j].monitor, path);
        }
        let d = after.changes();
        assert(d.index =~= Map::<u64, usize>::empty());
        assert(d.renamed =~= Set::<u64>::empty());
        assert(d.modified =~= Map::<u64, FileEntry>::empty());
        sound_volumes::no_changes_stand(
            d,
            |v: u8, f: FileEntry| after.has_dir(v, f),
            |k: u64| after.lists(k),
        );
        assert(after.stands()) by {
            reveal(VolumeManager::stands);
        }
        if after.search_cache is Some {
            let c = after.search_cache->0;
            let model = search_cache::query_model(c.query@, today);
            soundness::numbers_agree(after, model, c.files_only, c.directories_only);
            soundness::found_keys_differ(after, model, c.files_only, c.directories_only);
            soundness::uncounted_is_exact(c, after.shelf());
        }
    }
}

} // verus!
