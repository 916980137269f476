//! Adding, removing and scanning volumes leaves the index sound.

use crate::batches;
use crate::changes;
use crate::changes::DeltaModel;
use crate::counting;
use crate::delta_index;
use crate::fid_index;
use crate::keys;
use crate::merging;
use crate::path_table::TableModel;
use crate::query;
use crate::search::{FileEntry, SortBy};
use crate::search_cache;
use crate::soundness;
use crate::soundness::{changes_stand, dir_known, files_stand};
use crate::updates::slot_walked;
use crate::volume_manager;
use crate::volume_manager::VolumeManager;
use crate::volume_map;
use crate::volume_map::VolumeSlot;
use crate::volume_monitor::VolumeMonitor;
use crate::walking::{WalkModel, Walked};
use vstd::prelude::*;

verus! {

/// Forgetting the changes of a volume leaves those of the others fitting, where these are as
/// they were.
proof fn forgetting_stands(
    d: DeltaModel,
    vol_names: Seq<String>,
    name: Seq<char>,
    ok: spec_fn(u8, FileEntry) -> bool,
    listed: spec_fn(u64) -> bool,
    ok_after: spec_fn(u8, FileEntry) -> bool,
    listed_after: spec_fn(u64) -> bool,
)
    requires
        changes_stand(d, ok, listed),
        d.new_files.len() <= usize::MAX,
        forall|v: u8, f: FileEntry| #[trigger]
            ok(v, f) && !changes::is_volume(vol_names, v, name) ==> ok_after(v, f),
        forall|k: u64|
            !changes::is_volume(vol_names, keys::volume_in(k), name) ==> #[trigger] listed_after(k)
                == listed(k),
    ensures
        changes_stand(d.without(vol_names, name), ok_after, listed_after),
{
    broadcast use keys::key_has_parts;

    let keep = |e: (u8, FileEntry)| !changes::is_volume(vol_names, e.0, name);
    let e = d.without(vol_names, name);
    delta_index::forgetting_keeps_index(d, vol_names, name);
    assert(e.new_files == d.new_files.filter(keep));
    assert forall|i: int| 0 <= i < e.new_files.len() implies keep(#[trigger] e.new_files[i])
        && d.new_files.contains(e.new_files[i]) by {
        d.new_files.lemma_filter_pred(keep, i);
        assert(e.new_files.contains(e.new_files[i]));
        d.new_files.lemma_filter_contains_rev(keep, e.new_files[i]);
    }
    assert forall|i: int| 0 <= i < e.new_files.len() implies ok_after(
        (#[trigger] e.new_files[i]).0,
        e.new_files[i].1,
    ) by {
        let x = e.new_files[i];
        assert(keep(x));
        let j = choose|j: int| 0 <= j < d.new_files.len() && d.new_files[j] == x;
        assert(ok(d.new_files[j].0, d.new_files[j].1));
    }
    assert forall|k: u64| #[trigger] e.modified.contains_key(k) implies ok_after(
        keys::volume_in(k),
        e.modified[k],
    ) && listed_after(k) by {
        assert(d.modified.contains_key(k));
        assert(ok(keys::volume_in(k), d.modified[k]));
        assert(listed(k));
    }
    assert forall|k: u64| #[trigger]
        e.index.contains_key(k) && listed_after(k) implies e.deleted.contains(k) by {
        let x = e.new_files[e.index[k] as int];
        assert(delta_index::added_key(x) == k);
        assert(keep(x));
        let j = choose|j: int| 0 <= j < d.new_files.len() && d.new_files[j] == x;
        assert(d.index.contains_key(delta_index::added_key(d.new_files[j])));
        assert(listed(k));
    }
}

/// No changes fit any volumes.
pub proof fn no_changes_stand(
    d: DeltaModel,
    ok: spec_fn(u8, FileEntry) -> bool,
    listed: spec_fn(u64) -> bool,
)
    requires
        d.new_files.len() == 0,
        d.index == Map::<u64, usize>::empty(),
        d.renamed == Set::<u64>::empty(),
        d.modified == Map::<u64, FileEntry>::empty(),
    ensures
        changes_stand(d, ok, listed),
{
}

/// An index without volumes is sound.
pub proof fn empty_is_sound(vm: VolumeManager)
    requires
        vm.wf(),
        vm.numbered(),
        vm.volumes.slots@.len() == 0,
        vm.volume_index@ == Map::<Seq<char>, u8>::empty(),
        vm.vol_names@.len() == 0,
        vm.search_cache is None,
        vm.idle_delta.is_clear(),
    ensures
        vm.stands(),
{
    reveal(VolumeManager::stands);
    no_changes_stand(
        vm.changes(),
        |v: u8, f: FileEntry| vm.has_dir(v, f),
        |k: u64| vm.lists(k),
    );
}

/// A volume without files is sound.
pub proof fn new_is_sound(m: VolumeMonitor)
    requires
        m.files@ == Seq::<FileEntry>::empty(),
        m.path_table@.sound(),
        m.fid_index is None,
    ensures
        m.is_sound(),
{
}

/// Adding a volume leaves the index standing, as long as there are numbers left.
pub proof fn adding_stands(before: VolumeManager, after: VolumeManager, name: Seq<char>)
    requires
        before.stands(),
        after.wf(),
        after.numbered(),
        name.len() > 0,
        before.vol_names@.len() < 256,
        query::strings(after.vol_names@) == query::strings(before.vol_names@).push(name),
        after.volume_index@ == before.volume_index@.insert(
            name,
            (before.vol_names@.len() % 256) as u8,
        ),
        after.volumes@ == before.volumes@.insert(name, after.volumes@[name]),
        after.volumes@[name].is_sound(),
        after.volumes@[name].files@.len() == 0,
        after.changes() == before.changes().without(before.vol_names@, name),
    ensures
        after.stands(),
{
    reveal(VolumeManager::stands);
    let (a, b) = (before.vol_names@, after.vol_names@);
    let n = a.len();
    assert(query::strings(b).len() == b.len() && query::strings(a).len() == n);
    assert forall|i: int| 0 <= i < n implies (#[trigger] b[i])@ == a[i]@ by {
        assert(query::strings(b)[i] == query::strings(a)[i]);
    }
    assert(b[n as int]@ == name) by {
        assert(query::strings(b)[n as int] == name);
    }
    assert forall|x: Seq<char>| #[trigger]
        after.volume_index@.contains_key(x) implies merging::last_named(
        b,
        x,
        after.volume_index@[x] as int,
    ) by {
        if x != name {
            assert(before.volume_index@.contains_key(x));
            let i = before.volume_index@[x] as int;
            assert(merging::last_named(a, x, i));
            assert(b[i]@ == x);
            assert forall|j: int| i < j < b.len() implies (#[trigger] b[j])@ != x by {
                if j < n {
                    assert(a[j]@ != x);
                }
            }
        }
    }
    assert(after.numbers_are_sound());
    assert forall|x: Seq<char>| #[trigger]
        after.volumes@.contains_key(x) implies after.volumes@[x].is_sound() by {
        if x != name {
            assert(before.volumes@.contains_key(x));
        }
    }
    let ok = |v: u8, f: FileEntry| before.has_dir(v, f);
    let listed = |k: u64| before.lists(k);
    let ok_after = |v: u8, f: FileEntry| after.has_dir(v, f);
    let listed_after = |k: u64| after.lists(k);
    assert forall|v: u8| !changes::is_volume(a, v, name) && v != n implies #[trigger] after.is_live(
        v,
    ) == before.is_live(v) && (before.is_live(v) ==> after.volume(v) == before.volume(v)) by {
        if v < n {
            assert(b[v as int]@ == a[v as int]@);
        }
    }
    assert forall|v: u8, f: FileEntry| #[trigger]
        ok(v, f) && !changes::is_volume(a, v, name) implies ok_after(v, f) by {
        assert(after.is_live(v) == before.is_live(v));
    }
    assert forall|k: u64|
        !changes::is_volume(a, keys::volume_in(k), name) implies #[trigger] listed_after(k)
        == listed(k) by {
        let v = keys::volume_in(k);
        if v != n {
            assert(after.is_live(v) == before.is_live(v));
        }
    }
    assert(before.held_delta().new_files@.len() == before.held_delta().new_files.len());
    forgetting_stands(before.changes(), a, name, ok, listed, ok_after, listed_after);
}

/// Removing a volume leaves the index standing.
pub proof fn removing_stands(before: VolumeManager, after: VolumeManager, name: Seq<char>)
    requires
        before.stands(),
        after.wf(),
        after.numbered(),
        after.volumes@ == before.volumes@.remove(name),
        after.volume_index@ == before.volume_index@.remove(name),
        query::strings(after.vol_names@) == (if before.volume_index@.contains_key(name)
            && before.volume_index@[name] < before.vol_names@.len() {
            query::strings(before.vol_names@).update(before.volume_index@[name] as int, seq![])
        } else {
            query::strings(before.vol_names@)
        }),
        after.changes() == before.changes().without(before.vol_names@, name),
    ensures
        after.stands(),
{
    reveal(VolumeManager::stands);
    let (a, b) = (before.vol_names@, after.vol_names@);
    assert(query::strings(b).len() == b.len() && query::strings(a).len() == a.len());
    let at = before.volume_index@[name] as int;
    let known = before.volume_index@.contains_key(name);
    assert(known ==> merging::last_named(a, name, at));
    assert forall|i: int| 0 <= i < a.len() implies (#[trigger] b[i])@ == (if known && i == at {
        seq![]
    } else {
        a[i]@
    }) by {
        assert(query::strings(b)[i] == b[i]@);
        assert(query::strings(a)[i] == a[i]@);
    }
    assert forall|x: Seq<char>| #[trigger]
        after.volume_index@.contains_key(x) implies merging::last_named(
        b,
        x,
        after.volume_index@[x] as int,
    ) by {
        assert(before.volume_index@.contains_key(x));
        let i = before.volume_index@[x] as int;
        assert(merging::last_named(a, x, i));
        assert(x != Seq::<char>::empty() && x != name);
        assert(b[i]@ == x);
        assert forall|j: int| i < j < b.len() implies (#[trigger] b[j])@ != x by {
            assert(a[j]@ != x);
        }
    }
    assert forall|x: Seq<char>| #[trigger]
        after.volumes@.contains_key(x) implies after.volumes@[x].is_sound() by {
        assert(before.volumes@.contains_key(x));
    }
    let ok = |v: u8, f: FileEntry| before.has_dir(v, f);
    let listed = |k: u64| before.lists(k);
    let ok_after = |v: u8, f: FileEntry| after.has_dir(v, f);
    let listed_after = |k: u64| after.lists(k);
    assert forall|v: u8| !changes::is_volume(a, v, name) implies #[trigger] after.is_live(v)
        == before.is_live(v) && (before.is_live(v) ==> after.volume(v) == before.volume(v)) by {
        if v < a.len() {
            assert(b[v as int]@ == a[v as int]@);
        }
    }
    assert forall|v: u8, f: FileEntry| #[trigger]
        ok(v, f) && !changes::is_volume(a, v, name) implies ok_after(v, f) by {
        assert(after.is_live(v) == before.is_live(v));
    }
    assert forall|k: u64|
        !changes::is_volume(a, keys::volume_in(k), name) implies #[trigger] listed_after(k)
        == listed(k) by {
        assert(after.is_live(keys::volume_in(k)) == before.is_live(keys::volume_in(k)));
    }
    assert(before.held_delta().new_files@.len() == before.held_delta().new_files.len());
    forgetting_stands(before.changes(), a, name, ok, listed, ok_after, listed_after);
}

/// Where each number leads back to its name, the numbers fit.
pub proof fn sound_numbers_fit(vm: VolumeManager)
    requires
        vm.stands(),
    ensures
        vm.numbered(),
        vm.numbers_fit(),
        vm.wf(),
{
    reveal(VolumeManager::stands);
    assert forall|x: Seq<char>| #[trigger]
        vm.volume_index@.contains_key(x) implies changes::is_volume(
        vm.vol_names@,
        vm.volume_index@[x],
        x,
    ) by {
        assert(merging::last_named(vm.vol_names@, x, vm.volume_index@[x] as int));
    }
}

/// A full scan of a volume leaves the index standing, where no two files have the same id and
/// their directories are in the table.
pub proof fn full_scan_stands(
    before: VolumeManager,
    after: VolumeManager,
    name: Seq<char>,
    files: Seq<FileEntry>,
    t: TableModel,
)
    requires
        before.stands(),
        after.wf(),
        after.numbered(),
        t.sound(),
        files_stand(files, t),
        after.volume_index == before.volume_index,
        after.vol_names == before.vol_names,
        if before.volumes@.contains_key(name) {
            let m = after.volumes@[name];
            &&& after.volumes@ == before.volumes@.insert(name, m)
            &&& m.files@ == files
            &&& m.path_table@.is_numbered(TableModel { entries: t.entries, ids: Map::empty() })
            &&& m.fid_index matches Some(index) && index@ == fid_index::index_of_files(files)
        } else {
            after.volumes == before.volumes
        },
        after.changes() == before.changes().without(before.vol_names@, name),
    ensures
        after.stands(),
{
    reveal(VolumeManager::stands);
    let a = before.vol_names@;
    assert forall|x: Seq<char>| #[trigger]
        after.volumes@.contains_key(x) implies after.volumes@[x].is_sound() by {
        assert(before.volumes@.contains_key(x));
        if x == name {
            let u = after.volumes@[name].path_table@;
            assert forall|i: int| 0 <= i < u.entries.len() implies (#[trigger] u.entries[i]).parent
                < u.entries.len() by {
                assert(t.entries[i].parent < t.entries.len());
            }
            assert forall|i: int| 0 <= i < files.len() implies dir_known(
                u,
                (#[trigger] files[i]).path_id,
            ) by {
                assert(dir_known(t, files[i].path_id));
            }
        }
    }
    let ok = |v: u8, f: FileEntry| before.has_dir(v, f);
    let listed = |k: u64| before.lists(k);
    let ok_after = |v: u8, f: FileEntry| after.has_dir(v, f);
    let listed_after = |k: u64| after.lists(k);
    assert forall|v: u8, f: FileEntry| #[trigger]
        ok(v, f) && !changes::is_volume(a, v, name) implies ok_after(v, f) by {
        assert(after.is_live(v) == before.is_live(v));
    }
    assert forall|k: u64|
        !changes::is_volume(a, keys::volume_in(k), name) implies #[trigger] listed_after(k)
        == listed(k) by {
        assert(after.is_live(keys::volume_in(k)) == before.is_live(keys::volume_in(k)));
    }
    assert(before.held_delta().new_files@.len() == before.held_delta().new_files.len());
    forgetting_stands(before.changes(), a, name, ok, listed, ok_after, listed_after);
}

/// Where the slots have the same names, the same volumes are at hand, and each is that in its
/// slot.
pub proof fn slots_lead(before: VolumeManager, after: VolumeManager)
    requires
        before.volumes.wf(),
        after.volumes.wf(),
        after.volumes.slots@.len() == before.volumes.slots@.len(),
        forall|j: int|
            0 <= j < before.volumes.slots@.len() ==> (#[trigger] after.volumes.slots@[j]).name@
                == before.volumes.slots@[j].name@,
    ensures
        forall|x: Seq<char>| #[trigger]
            after.volumes@.contains_key(x) <==> before.volumes@.contains_key(x),
        forall|x: Seq<char>| #[trigger]
            before.volumes@.contains_key(x) ==> exists|j: int|
                0 <= j < before.volumes.slots@.len() && #[trigger] slot_of_both(
                    before,
                    after,
                    x,
                    j,
                ),
{
    let (s, t) = (before.volumes.slots@, after.volumes.slots@);
    assert forall|x: Seq<char>| #[trigger]
        before.volumes@.contains_key(x) implies after.volumes@.contains_key(x) && exists|j: int|
        0 <= j < s.len() && #[trigger] slot_of_both(before, after, x, j) by {
        volume_map::name_in_slot(s, x);
        volume_map::name_in_slot(t, x);
        let j = choose|j: int| 0 <= j < s.len() && (#[trigger] s[j]).name@ == x;
        assert(t[j].name@ == x);
        assert(slot_of_both(before, after, x, j));
    }
    assert forall|x: Seq<char>| #[trigger]
        after.volumes@.contains_key(x) implies before.volumes@.contains_key(x) by {
        volume_map::name_in_slot(s, x);
        volume_map::name_in_slot(t, x);
        let j = choose|j: int| 0 <= j < t.len() && (#[trigger] t[j]).name@ == x;
        assert(s[j].name@ == x);
    }
}

/// Whether the volume `x` is that in slot `j`, before and after.
pub open spec fn slot_of_both(
    before: VolumeManager,
    after: VolumeManager,
    x: Seq<char>,
    j: int,
) -> bool {
    &&& before.volumes.slots@[j].name@ == x
    &&& after.volumes.slots@[j].name@ == x
    &&& before.volumes@[x] == before.volumes.slots@[j].monitor
    &&& after.volumes@[x] == after.volumes.slots@[j].monitor
}

/// Whether two volumes have the same files and directories, and the second has the index of
/// file ids of the first or none.
pub open spec fn same_content(m: VolumeMonitor, n: VolumeMonitor) -> bool {
    &&& n.files == m.files
    &&& n.path_table == m.path_table
    &&& n.fid_index == m.fid_index || n.fid_index is None
}

/// Whether the same volumes are at hand, with the same files and directories.
pub open spec fn same_files(before: VolumeManager, after: VolumeManager) -> bool {
    &&& forall|x: Seq<char>| #[trigger]
        after.volumes@.contains_key(x) <==> before.volumes@.contains_key(x)
    &&& forall|x: Seq<char>| #[trigger]
        before.volumes@.contains_key(x) ==> same_content(before.volumes@[x], after.volumes@[x])
}

/// Where the volumes in the slots have the same files and directories, so have those at hand.
pub proof fn same_slots(before: VolumeManager, after: VolumeManager)
    requires
        before.volumes.wf(),
        after.volumes.wf(),
        after.volumes.slots@.len() == before.volumes.slots@.len(),
        forall|j: int|
            0 <= j < before.volumes.slots@.len() ==> {
                &&& (#[trigger] after.volumes.slots@[j]).name@ == before.volumes.slots@[j].name@
                &&& same_content(
                    before.volumes.slots@[j].monitor,
                    after.volumes.slots@[j].monitor,
                )
            },
    ensures
        same_files(before, after),
{
    slots_lead(before, after);
    assert forall|x: Seq<char>| #[trigger] before.volumes@.contains_key(x) implies same_content(
        before.volumes@[x],
        after.volumes@[x],
    ) by {
        let j = choose|j: int|
            0 <= j < before.volumes.slots@.len() && #[trigger] slot_of_both(before, after, x, j);
        assert(after.volumes.slots@[j].name@ == before.volumes.slots@[j].name@);
    }
}

/// Where the volumes have the same files and directories, they and the changes stand alike.
pub proof fn same_content_stands(before: VolumeManager, after: VolumeManager)
    requires
        before.stands(),
        after.wf(),
        same_files(before, after),
        after.volume_index == before.volume_index,
        after.vol_names == before.vol_names,
        after.changes() == before.changes(),
    ensures
        after.stands(),
{
    reveal(VolumeManager::stands);
    volume_manager::numbers_stay(before, after);
    assert forall|x: Seq<char>| #[trigger]
        after.volumes@.contains_key(x) implies after.volumes@[x].is_sound() by {
        assert(before.volumes@.contains_key(x));
        assert(same_content(before.volumes@[x], after.volumes@[x]));
    }
    assert((|v: u8, f: FileEntry| before.has_dir(v, f)) =~= (|v: u8, f: FileEntry|
        after.has_dir(v, f)));
    assert((|k: u64| before.lists(k)) =~= (|k: u64| after.lists(k)));
}

/// Where the volumes have the same files and directories, and nothing else of the search
/// differs, the index is sound alike.
pub proof fn same_content_sound(before: VolumeManager, after: VolumeManager, today: i32)
    requires
        before.is_sound(today),
        after.wf(),
        same_files(before, after),
        after.volume_index == before.volume_index,
        after.vol_names == before.vol_names,
        after.search_cache == before.search_cache,
        after.idle_delta == before.idle_delta,
        after.sorted_indices_map == before.sorted_indices_map,
        after.blank_orders() == before.blank_orders(),
        after.empty_query_generation == before.empty_query_generation,
    ensures
        after.is_sound(today),
{
    same_content_stands(before, after);
    reveal(VolumeManager::stands);
    if let Some(c) = before.search_cache {
        let (s, t) = (c.scene(before.shelf(), today), c.scene(after.shelf(), today));
        assert forall|p: u32| #[trigger] c.base.matched@.contains(p) <==> c.matches_in(
            after.volumes.slots@,
            after.vol_names@,
            today,
        ).contains(p) by {
            assert(c.base.matched@.contains(p) <==> c.matches_in(
                before.volumes.slots@,
                before.vol_names@,
                today,
            ).contains(p));
            soundness::found_stays(
                before,
                after,
                search_cache::query_model(c.query@, today),
                c.files_only,
                c.directories_only,
                p,
            );
        }
        assert forall|v: int| 0 <= v < before.shelf().len() implies {
            &&& (#[trigger] after.shelf()[v]).name == before.shelf()[v].name
            &&& match (before.shelf()[v].monitor, after.shelf()[v].monitor) {
                (Some(m), Some(n)) => same_content(m, n),
                (None, None) => true,
                _ => false,
            }
        } by {
            let x = before.vol_names@[v]@;
            assert(after.volumes@.contains_key(x) <==> before.volumes@.contains_key(x));
        }
        assert forall|p: u32| #[trigger] volume_map::file_at(after.shelf(), p)
            == volume_map::file_at(before.shelf(), p) by {
            let v = crate::sort_cache::volume_of(p);
            if v < before.shelf().len() {
                assert(after.shelf()[v as int].name == before.shelf()[v as int].name);
            }
        }
        assert(counting::matched_keys(after.shelf(), c.base.matched@) =~= counting::matched_keys(
            before.shelf(),
            c.base.matched@,
        ));
        assert forall|v: u8, fid: u32| #[trigger] c.base_has(after.shelf(), v, fid) == c.base_has(
            before.shelf(),
            v,
            fid,
        ) by {
            assert forall|i: int|
                0 <= i < c.base.matched@.len() implies #[trigger] search_cache::has_id(
                after.shelf(),
                c.base.matched@[i],
                v,
                fid,
            ) == search_cache::has_id(before.shelf(), c.base.matched@[i], v, fid) by {}
        }
        assert forall|v: u8, fid: u32| c.base_file_bitvec is Some implies #[trigger] c.marks(v, fid)
            == c.base_has(after.shelf(), v, fid) by {
            assert(c.marks(v, fid) == c.base_has(before.shelf(), v, fid));
        }
        assert forall|i: int| 0 <= i < s.matched.len() implies #[trigger] s.base_row(i)
            == t.base_row(i) by {
            let v = crate::sort_cache::volume_of(s.matched[i]);
            if v < before.shelf().len() {
                assert(after.shelf()[v as int].name == before.shelf()[v as int].name);
            }
        }
        assert(s.base_rows() =~= t.base_rows());
        assert(after.orders_are_current(today)) by {
            reveal(VolumeManager::orders_are_current);
            assert forall|k: SortBy| #[trigger]
                after.order_used(c, k, today) == t.base_order(k) by {
                assert(before.order_used(c, k, today) == s.base_order(k));
            }
        }
    }
}

/// A volume that was taken out and is given back as it was leaves the index as sound as it
/// was.
pub proof fn giving_back_keeps_sound(
    before: VolumeManager,
    mid: VolumeManager,
    after: VolumeManager,
    drive: Seq<char>,
    today: i32,
)
    requires
        before.is_sound(today),
        before.volumes@.contains_key(drive),
        mid.volumes@ == before.volumes@.remove(drive),
        mid == (VolumeManager { volumes: mid.volumes, ..before }),
        after.volumes@ == mid.volumes@.insert(drive, before.volumes@[drive]),
        after == (VolumeManager { volumes: after.volumes, ..mid }),
        after.wf(),
    ensures
        after.is_sound(today),
{
    assert(after.volumes@ =~= before.volumes@);
    same_content_sound(before, after, today);
}

/// How many directories the entries of a walk may add at most.
pub open spec fn walk_directories(entries: Seq<Walked>) -> nat
    decreases entries.len(),
{
    if entries.len() == 0 {
        0
    } else {
        walk_directories(entries.drop_last()) + batches::directories_on(
            entries.last().path@,
            entries.last().is_directory(),
        )
    }
}

/// A walk leaves the files numbered in turn, and their directories in the table.
pub proof fn walk_stands(
    w: WalkModel,
    include_hidden: bool,
    include_system: bool,
    entries: Seq<Walked>,
    now: i64,
)
    requires
        w.files.len() == 0,
        w.table.sound(),
        entries.len() <= u32::MAX,
        w.table.entries.len() + walk_directories(entries) <= u32::MAX,
    ensures
        ({
            let r = w.with_entries(include_hidden, include_system, entries, now);
            &&& r.table.sound()
            &&& r.table.entries.len() <= w.table.entries.len() + walk_directories(entries)
            &&& r.files.len() <= entries.len()
            &&& files_stand(r.files, r.table)
            &&& forall|i: int| 0 <= i < r.files.len() ==> (#[trigger] r.files[i]).file_id == i
        }),
    decreases entries.len(),
{
    if entries.len() > 0 {
        let init = entries.drop_last();
        let e = entries.last();
        walk_stands(w, include_hidden, include_system, init, now);
        let most = w.with_entries(include_hidden, include_system, init, now);
        if !e.is_skipped(include_hidden, include_system) {
            batches::path_extends(most.table, e.path@, e.is_directory());
            let r = w.with_entries(include_hidden, include_system, entries, now);
            assert forall|i: int| 0 <= i < r.files.len() implies dir_known(
                r.table,
                (#[trigger] r.files[i]).path_id,
            ) && r.files[i].file_id == i by {
                if i < most.files.len() {
                    assert(dir_known(most.table, most.files[i].path_id));
                    assert(most.files[i].file_id == i);
                }
            }
        }
    }
}

/// Whether the machine can number the files and directories of a walk of each volume.
pub open spec fn walks_fit(slots: Seq<VolumeSlot>, walks: Seq<Vec<Walked>>) -> bool {
    forall|k: int|
        0 <= k < walks.len() ==> {
            &&& (#[trigger] walks[k])@.len() <= u32::MAX
            &&& slots[k].monitor.path_table@.entries.len() + walk_directories(walks[k]@)
                <= u32::MAX
        }
}

/// A walk of all volumes leaves the index standing.
pub proof fn walks_stand(
    before: VolumeManager,
    after: VolumeManager,
    walks: Seq<Vec<Walked>>,
    now: i64,
)
    requires
        before.stands(),
        after.wf(),
        walks.len() == before.volumes.slots@.len(),
        walks_fit(before.volumes.slots@, walks),
        after.volume_index == before.volume_index,
        after.vol_names == before.vol_names,
        after.held_delta().is_clear(),
        after.volumes.slots@.len() == before.volumes.slots@.len(),
        forall|k: int|
            0 <= k < walks.len() ==> slot_walked(
                before.volumes.slots@[k],
                #[trigger] after.volumes.slots@[k],
                walks[k]@,
                now,
            ),
    ensures
        after.stands(),
{
    reveal(VolumeManager::stands);
    let (s, t) = (before.volumes.slots@, after.volumes.slots@);
    assert forall|j: int| 0 <= j < s.len() implies (#[trigger] t[j]).name@ == s[j].name@ by {
        assert(slot_walked(s[j], t[j], walks[j]@, now));
    }
    slots_lead(before, after);
    volume_manager::numbers_stay(before, after);
    assert forall|x: Seq<char>| #[trigger]
        after.volumes@.contains_key(x) implies after.volumes@[x].is_sound() by {
        assert(before.volumes@.contains_key(x));
        let j = choose|j: int| 0 <= j < s.len() && #[trigger] slot_of_both(before, after, x, j);
        let m = s[j].monitor;
        assert(slot_walked(s[j], t[j], walks[j]@, now));
        assert(before.volumes@[x].is_sound());
        assert(walks[j]@.len() <= u32::MAX);
        walk_stands(
            WalkModel { files: seq![], table: m.path_table@ },
            m.include_hidden_files,
            m.include_system_files,
            walks[j]@,
            now,
        );
        assert(t[j].monitor.walk_model().files == t[j].monitor.files@);
    }
    no_changes_stand(
        after.changes(),
        |v: u8, f: FileEntry| after.has_dir(v, f),
        |k: u64| after.lists(k),
    );
}

} // verus!
