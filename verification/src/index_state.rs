//! What is told of the index and of what stands in it.

use crate::commands_search;
use crate::commands_search::SearchParams;
use crate::fid_index;
use crate::field_order;
use crate::full_scan;
use crate::merging;
use crate::mft_scan;
use crate::named_order;
use crate::path_table;
use crate::query;
use crate::search::{FileEntry, FileModel, SearchOptions, SortBy, SortDirection};
use crate::search_cache::DeltaCache;
use crate::sort_cache::OrderModel;
use crate::text;
use crate::updates;
use crate::volume_manager::VolumeManager;
use crate::volume_map::VolumeSlot;
use crate::volume_monitor;
use crate::volumes;
use crate::volumes::StateModel;
use vstd::prelude::*;

verus! {

/// The index of file ids finds the first file with an id, and one just where there is one.
pub proof fn first_file_is_found(files: Seq<FileEntry>, fid: u32)
    requires
        files.len() <= u32::MAX,
    ensures
        match fid_index::place_of(fid_index::index_of_files(files), fid) {
            Some(i) => i < files.len() && files[i as int].file_id == fid && forall|j: int|
                0 <= j < i ==> (#[trigger] files[j]).file_id != fid,
            None => forall|j: int| 0 <= j < files.len() ==> (#[trigger] files[j]).file_id != fid,
        },
{
    let pairs = fid_index::id_pairs(files);
    let index = fid_index::index_of_files(files);
    crate::sorting::in_order_sorts(fid_index::PairOrder, pairs);
    fid_index::index_knows(files, fid);
    if fid_index::knows(index, fid) {
        let some = choose|i: int| 0 <= i < index.len() && #[trigger] index[i].0 == fid;
        first_pair_stands(index, fid, some);
        let k = choose|i: int| fid_index::first_pair(index, fid, i);
        let p = index[k];
        assert(index.contains(p));
        vstd::seq_lib::to_multiset_contains(index, p);
        vstd::seq_lib::to_multiset_contains(pairs, p);
        let at = choose|at: int| 0 <= at < pairs.len() && pairs[at] == p;
        assert(files[at].file_id == fid);
        assert forall|j: int| 0 <= j < p.1 implies (#[trigger] files[j]).file_id != fid by {
            if files[j].file_id == fid {
                let q = pairs[j];
                assert(pairs.contains(q));
                vstd::seq_lib::to_multiset_contains(pairs, q);
                vstd::seq_lib::to_multiset_contains(index, q);
                let m = choose|m: int| 0 <= m < index.len() && index[m] == q;
                assert(index[m].0 == fid);
                assert(m > k);
                assert(index[k].1 <= index[m].1);
            }
        }
    } else {
        assert forall|j: int| 0 <= j < files.len() implies (#[trigger] files[j]).file_id != fid by {}
    }
}

proof fn first_pair_stands(index: Seq<(u32, u32)>, fid: u32, i: int)
    requires
        0 <= i < index.len(),
        index[i].0 == fid,
    ensures
        exists|k: int| fid_index::first_pair(index, fid, k),
    decreases i,
{
    if exists|j: int| 0 <= j < i && #[trigger] index[j].0 == fid {
        let j = choose|j: int| 0 <= j < i && #[trigger] index[j].0 == fid;
        first_pair_stands(index, fid, j);
    } else {
        assert(fid_index::first_pair(index, fid, i));
    }
}

/// A size that is found late is given to a file just where none was known before, and nothing else
/// of the file changes. In a list of records it always counts.
pub proof fn late_sizes_fill_gaps(f: FileModel, m: mft_scan::ScannedModel, sizes: Map<u64, u64>)
    ensures
        ({
            let g = full_scan::with_size(f, sizes);
            &&& f.size > 0 ==> g == f
            &&& !sizes.contains_key(f.file_id as u64) ==> g == f
            &&& f.size == 0 && sizes.contains_key(f.file_id as u64) ==> g.size
                == sizes[f.file_id as u64]
            &&& g.name == f.name && g.path_id == f.path_id && g.file_id == f.file_id
                && g.modified_time == f.modified_time && g.is_directory == f.is_directory
        }),
        ({
            let g = mft_scan::with_size(m, sizes);
            &&& !sizes.contains_key(m.record_number) ==> g == m
            &&& sizes.contains_key(m.record_number) ==> g.size == sizes[m.record_number]
            &&& g.record_number == m.record_number && g.parent_record == m.parent_record && g.name
                == m.name && g.is_directory == m.is_directory && g.mtime == m.mtime
        }),
{
}

/// The name that a path ends in is what stands behind its last separator, of either kind.
pub proof fn name_is_behind_last_separator(dir: Seq<char>, separator: char, name: Seq<char>)
    requires
        separator == '\\' || separator == '/',
        !name.contains('\\'),
        !name.contains('/'),
        name != "."@,
        name != ".."@,
    ensures
        volume_monitor::name_in(dir.push(separator) + name) == name,
        volume_monitor::name_in(name) == name,
{
    let path = dir.push(separator) + name;
    let n = dir.len() as int;
    assert forall|i: int| n < i < path.len() implies #[trigger] path[i] != '\\' && path[i] != '/' by {
        assert(path[i] == name[i - n - 1]);
        assert(name.contains(name[i - n - 1]));
    }
    assert(path[n] == separator);
    last_stands(path, '\\', n);
    last_stands(path, '/', n);
    assert(path.skip(n + 1) =~= name);
    last_stands(name, '\\', -1);
    last_stands(name, '/', -1);
    assert(name.skip(0) =~= name);
}

proof fn last_stands(s: Seq<char>, c: char, n: int)
    requires
        -1 <= n < s.len(),
        forall|i: int| n < i < s.len() ==> #[trigger] s[i] != c,
    ensures
        n >= 0 && s[n] == c ==> text::last_place(s, c) == n,
        text::last_place(s, c) <= n,
        text::last_place(s, c) >= -1,
    decreases s.len(),
{
    if s.len() > 0 && s.len() - 1 > n {
        assert(s[s.len() - 1] != c);
        last_stands(s.drop_last(), c, n);
    } else if s.len() > 0 && s.last() != c {
        last_is_within(s.drop_last(), c);
    }
}

proof fn last_is_within(s: Seq<char>, c: char)
    ensures
        -1 <= text::last_place(s, c) < s.len(),
    decreases s.len(),
{
    if s.len() > 0 {
        last_is_within(s.drop_last(), c);
    }
}

/// Of the files of a volume those stay that are not marked as removed.
pub proof fn marked_files_leave(files: Seq<FileEntry>, f: FileEntry)
    ensures
        volume_monitor::kept_files(files).contains(f) <==> files.contains(f) && f.path_id
            != path_table::DELETED_PATH_ID,
{
    let stays = |f: FileEntry| f.path_id != path_table::DELETED_PATH_ID;
    let kept = files.filter(stays);
    if kept.contains(f) {
        let i = choose|i: int| 0 <= i < kept.len() && kept[i] == f;
        files.lemma_filter_pred(stays, i);
        files.lemma_filter_contains_rev(stays, f);
    }
    if files.contains(f) && stays(f) {
        let i = choose|i: int| 0 <= i < files.len() && files[i] == f;
        files.lemma_filter_contains(stays, i);
    }
}

/// A volume is loading while it is scanned; else the error of its last scan is told, where it
/// failed; else how many files it has, none where it is not in the index.
pub proof fn states_are_told(vm: VolumeManager, scanning: Seq<Seq<char>>, v: Seq<char>)
    ensures
        volumes::state_of(vm, scanning, v) is Loading <==> scanning.contains(v),
        volumes::state_of(vm, scanning, v) is Error <==> !scanning.contains(v)
            && vm.scan_errors@.contains_key(v),
        volumes::state_of(vm, scanning, v) matches StateModel::Error(e) ==> e
            == vm.scan_errors@[v]@,
        volumes::state_of(vm, scanning, v) matches StateModel::Ready(n) ==> n == (
        if vm.volumes@.contains_key(v) {
            vm.volumes@[v].files@.len()
        } else {
            0
        }),
{
}

/// The names of volumes come in the order of a dictionary.
pub proof fn volumes_come_in_order(vm: VolumeManager, i: int, j: int)
    requires
        0 <= i < j < volumes::volumes_sorted(vm).len(),
    ensures
        !field_order::reads_before(volumes::volumes_sorted(vm)[j], volumes::volumes_sorted(vm)[i]),
{
    let names = query::strings(vm.vol_names@).filter(|n: Seq<char>| n.len() > 0);
    let sorted = named_order::names_in_order(names);
    named_order::names_are_in_order(names);
    field_order::text_rank_is_dictionary(sorted[j], sorted[i]);
    text::text_rank_flip(sorted[i], sorted[j]);
}

/// The volumes that are told of are those with a name: that of a volume that was removed is empty.
pub proof fn named_volumes_are_told(vm: VolumeManager, v: Seq<char>)
    ensures
        volumes::volumes_sorted(vm).contains(v) <==> v.len() > 0 && query::strings(
            vm.vol_names@,
        ).contains(v),
{
    let named = |n: Seq<char>| n.len() > 0;
    let all = query::strings(vm.vol_names@);
    let names = all.filter(named);
    let sorted = volumes::volumes_sorted(vm);
    named_order::names_are_in_order(names);
    vstd::seq_lib::to_multiset_contains(names, v);
    vstd::seq_lib::to_multiset_contains(sorted, v);
    if names.contains(v) {
        let i = choose|i: int| 0 <= i < names.len() && names[i] == v;
        all.lemma_filter_pred(named, i);
        all.lemma_filter_contains_rev(named, v);
    }
    if all.contains(v) && named(v) {
        let i = choose|i: int| 0 <= i < all.len() && all[i] == v;
        all.lemma_filter_contains(named, i);
    }
}

/// After the drives were added, each of them is in the index, and so is what was there before; a
/// drive that was there, or comes twice, is not added again.
pub proof fn drives_are_added_once(names: Seq<Seq<char>>, drives: Seq<Seq<char>>, v: Seq<char>)
    requires
        v.len() > 0,
    ensures
        volumes::names_after(names, drives).contains(v) <==> names.contains(v) || drives.contains(
            v,
        ),
        names.no_duplicates() && volumes::all_named(drives) ==> volumes::names_after(
            names,
            drives,
        ).no_duplicates(),
        names.is_prefix_of(volumes::names_after(names, drives)),
    decreases drives.len(),
{
    if drives.len() > 0 {
        let (init, last) = (drives.drop_last(), drives.last());
        let before = volumes::names_after(names, init);
        let after = volumes::names_after(names, drives);
        drives_are_added_once(names, init, v);
        assert(drives =~= init.push(last));
        assert(drives.contains(v) <==> init.contains(v) || v == last) by {
            if init.contains(v) {
                let i = choose|i: int| 0 <= i < init.len() && init[i] == v;
                assert(drives[i] == v);
            }
            if drives.contains(v) {
                let i = choose|i: int| 0 <= i < drives.len() && drives[i] == v;
                if i < init.len() {
                    assert(init[i] == v);
                }
            }
            assert(drives[drives.len() - 1] == last);
        }
        if !volumes::is_listed(before, last) {
            assert(after == before.push(last));
            assert(after.contains(v) <==> before.contains(v) || v == last) by {
                if before.contains(v) {
                    let i = choose|i: int| 0 <= i < before.len() && before[i] == v;
                    assert(after[i] == v);
                }
                assert(after[before.len() as int] == last);
            }
            if names.no_duplicates() && volumes::all_named(drives) {
                assert(last.len() > 0) by {
                    assert(drives[drives.len() - 1].len() > 0);
                }
                assert forall|i: int| 0 <= i < init.len() implies (#[trigger] init[i]).len() > 0 by {
                    assert(drives[i].len() > 0);
                }
                assert forall|i: int, j: int|
                    0 <= i < after.len() && 0 <= j < after.len() && i != j implies after[i]
                    != after[j] by {
                    if i < before.len() && j < before.len() {
                        assert(before[i] != before[j]);
                    } else if i < before.len() {
                        assert(before.contains(before[i]));
                    } else {
                        assert(before.contains(before[j]));
                    }
                }
            }
        } else if names.no_duplicates() && volumes::all_named(drives) {
            assert forall|i: int| 0 <= i < init.len() implies (#[trigger] init[i]).len() > 0 by {
                assert(drives[i].len() > 0);
            }
        }
    }
}

/// A search that says nothing of it is for files, in the order of best matches, the best first; one
/// that asks for directories, or for an order, gets them.
pub proof fn options_are_those_asked_for(params: SearchParams)
    ensures
        ({
            let o = commands_search::options_of(params);
            &&& params.files_only is None ==> o.files_only
            &&& params.files_only matches Some(b) ==> o.files_only == b
            &&& params.directories_only is None ==> !o.directories_only
            &&& params.directories_only matches Some(b) ==> o.directories_only == b
            &&& params.sort_by is None ==> o.sort_by == SortBy::Score
            &&& params.sort_direction is None ==> o.sort_direction == SortDirection::Descending
            &&& params.sort_by matches Some(s) ==> {
                &&& s@ == "size"@ ==> o.sort_by == SortBy::Size
                &&& s@ == "name"@ ==> o.sort_by == SortBy::Name
                &&& s@ == "path"@ ==> o.sort_by == SortBy::Path
                &&& s@ == "modified"@ ==> o.sort_by == SortBy::ModifiedTime
            }
            &&& params.sort_direction matches Some(s) ==> (o.sort_direction
                == SortDirection::Ascending <==> s@ == "asc"@)
        }),
{
    reveal_strlit("name");
    reveal_strlit("path");
    reveal_strlit("size");
    reveal_strlit("modified");
    reveal_strlit("modified_time");
    assert("name"@[0] != "path"@[0]);
    assert("name"@[0] != "size"@[0]);
    assert("path"@[0] != "size"@[0]);
    assert("name"@.len() != "modified"@.len());
}

/// Changes are merged where there are more than 1000 of them.
pub proof fn many_changes_are_merged(d: DeltaCache)
    ensures
        d.new_files@.len() + d.deleted_ids@.len() + d.modified@.len() > 1000 ==> d.needs_merge(),
        d.is_clear() ==> !d.needs_merge(),
{
}

/// Each change takes so many bytes: a new file 64, a changed one 128, the id of a file that was
/// removed or renamed 8, and the place of one that matches 4.
pub proof fn changes_take_memory(d: DeltaCache, e: DeltaCache)
    requires
        e.new_files@.len() >= d.new_files@.len(),
        e.deleted_ids@.len() >= d.deleted_ids@.len(),
        e.modified@.len() >= d.modified@.len(),
        e.renamed_fids@.len() >= d.renamed_fids@.len(),
        e.matched@.len() >= d.matched@.len(),
    ensures
        d.is_clear() ==> d.delta_bytes() == 0,
        e.delta_bytes() - d.delta_bytes() == 64 * (e.new_files@.len() - d.new_files@.len()) + 128 * (
        e.modified@.len() - d.modified@.len()) + 8 * (e.deleted_ids@.len() - d.deleted_ids@.len())
            + 8 * (e.renamed_fids@.len() - d.renamed_fids@.len()) + 4 * (e.matched@.len()
            - d.matched@.len()),
{
}

/// The files of all volumes are counted together: each volume adds its own.
pub proof fn volumes_add_their_files(slots: Seq<VolumeSlot>, slot: VolumeSlot)
    ensures
        merging::total_files(Seq::empty()) == 0,
        merging::total_files(slots.push(slot)) == merging::total_files(slots)
            + slot.monitor.files@.len(),
{
    assert(slots.push(slot).drop_last() =~= slots);
}

/// A kept order takes four bytes for each place, an index of file ids 16 for each file, and a table
/// of directories 32 for each of them and 28 for each path that leads to one.
pub proof fn memory_is_counted(slots: Seq<VolumeSlot>, slot: VolumeSlot, kept: OrderModel)
    requires
        32 * slot.monitor.path_table@.entries.len() + 28 * slot.monitor.path_table@.ids.len()
            <= usize::MAX,
    ensures
        updates::order_bytes(Some(kept)) == 4 * kept.order.len(),
        updates::order_bytes(None) == 0,
        updates::table_bytes(slots.push(slot)) == updates::table_bytes(slots) + 32
            * slot.monitor.path_table@.entries.len() + 28 * slot.monitor.path_table@.ids.len(),
        updates::index_bytes(slots.push(slot)) == updates::index_bytes(slots) + (
        match slot.monitor.fid_index {
            Some(index) => 16 * index@.len(),
            None => 0,
        }),
{
    assert(slots.push(slot).drop_last() =~= slots);
}

/// What was found is read again for an hour at most, and only for the same line and the same kinds
/// of files.
pub proof fn searches_are_kept_for_an_hour(
    vm: VolumeManager,
    line: Seq<char>,
    options: SearchOptions,
    age: u64,
)
    requires
        vm.can_reuse(line, options, age),
    ensures
        age < 60 * 60,
        vm.search_cache matches Some(c) && c.query@ == line && c.files_only == options.files_only
            && c.directories_only == options.directories_only,
{
}

} // verus!
