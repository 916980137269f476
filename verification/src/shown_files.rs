//! Which files a search shows: those that pass the line that was asked for.

use crate::keys;
use crate::merged_rows;
use crate::query;
use crate::query::QueryModel;
use crate::reached;
use crate::result_list;
use crate::rows;
use crate::rows::RowModel;
use crate::scene;
use crate::search::{FileEntry, FileModel, SearchOptions, SearchResult, SortBy, SortDirection};
use crate::search_cache;
use crate::searching;
use crate::seqs;
use crate::sort_cache;
use crate::sound_pages;
use crate::soundness;
use crate::soundness::has_id;
use crate::text;
use crate::volume_manager::VolumeManager;
use vstd::prelude::*;

verus! {

/// Whether a line takes a file with the given path on the day `today`, where files or
/// directories only may be asked for. A blank line takes every file, and one that asks for
/// directories takes them even where files only are asked for.
pub open spec fn line_takes(
    line: Seq<char>,
    files_only: bool,
    directories_only: bool,
    f: FileModel,
    path: Seq<char>,
    today: i32,
) -> bool {
    let q = QueryModel::of_text(line, today);
    let blank = text::is_blank(line);
    &&& blank || q.accepts_entry(f, path)
    &&& files_only && f.is_directory ==> !blank && q.dir_only
    &&& directories_only ==> f.is_directory
}

/// A query that asks nothing of paths takes a file whatever its path is.
proof fn takes_by_line(
    line: Seq<char>,
    files_only: bool,
    directories_only: bool,
    f: FileEntry,
    path: Seq<char>,
    today: i32,
)
    ensures
        searching::takes(
            search_cache::query_model(line, today),
            files_only,
            directories_only,
            path,
            f,
        ) <==> line_takes(line, files_only, directories_only, f@, path, today),
{
    let q = QueryModel::of_text(line, today);
    query::lower_words(text::words(line), today);
    if q.path is None {
        assert(q.path_lower is None);
    }
}

/// A file that a volume lists, and that did not change since, is in the result list of a sound
/// state just where the line that was searched for takes it.
pub proof fn listed_file_shows(
    vm: VolumeManager,
    today: i32,
    sort_by: SortBy,
    direction: SortDirection,
    v: u8,
    i: int,
)
    requires
        vm.is_sound(today),
        vm.fits(),
        vm.search_cache is Some,
        vm.is_live(v),
        0 <= i < vm.volume(v).files@.len(),
        !vm.changes().deleted.contains(keys::key(v, vm.volume(v).files@[i].file_id)),
        !vm.changes().modified.contains_key(keys::key(v, vm.volume(v).files@[i].file_id)),
    ensures
        ({
            let c = vm.search_cache->0;
            let f = vm.volume(v).files@[i];
            let path = vm.volume(v).path_of(f);
            let row = RowModel {
                volume: vm.vol_names@[v as int]@,
                ordinal: vm.volume(v).path_table@.ordinal(f.path_id),
                file: f@,
                path: Some(path),
            };
            vm.list(today, sort_by, direction).contains(row) <==> line_takes(
                c.query@,
                c.files_only,
                c.directories_only,
                f@,
                path,
                today,
            )
        }),
{
    broadcast use keys::key_has_parts;

    let c = vm.search_cache->0;
    let s = vm.scene(today);
    let d = vm.changes();
    let m = vm.volume(v);
    let f = m.files@[i];
    let path = m.path_of(f);
    let k = keys::key(v, f.file_id);
    let drive = vm.vol_names@[v as int]@;
    let row = RowModel {
        volume: drive,
        ordinal: m.path_table@.ordinal(f.path_id),
        file: f@,
        path: Some(path),
    };
    let model = search_cache::query_model(c.query@, today);
    let p = sort_cache::packed(v, i as u32);
    reveal(VolumeManager::stands);
    reached::list_fits(vm, today);
    soundness::live_on_shelf(vm, v);
    takes_by_line(c.query@, c.files_only, c.directories_only, f, path, today);
    soundness::found_by_number(vm, model, c.files_only, c.directories_only, p);
    assert(soundness::volume_fits(m));
    sort_cache::unpacking_undoes_packing(v, i as u32);
    assert(row == scene::row_of(vm.shelf(), v, f));
    if line_takes(c.query@, c.files_only, c.directories_only, f@, path, today) {
        assert(vm.is_taken_at(model, c.files_only, c.directories_only, p, v, i));
        assert(s.matched.contains(p));
        let n = choose|n: int| 0 <= n < s.matched.len() && s.matched[n] == p;
        assert(s.active_row(n as u32) == Some(row));
        result_list::matched_is_shown(s, sort_by, direction, n as u32);
    }
    if vm.list(today, sort_by, direction).contains(row) {
        assert(has_id(m.files@, f.file_id));
        assert(vm.lists(k));
        let from = reached::row_has_source(
            vm,
            today,
            sort_by,
            direction,
            drive,
            f.file_id,
            row,
        );
        match from {
            reached::Source::Matched(n) => {
                assert(s.matched.contains(s.matched[n]));
                let (w, j) = soundness::matched_is_live(vm, today, s.matched[n]);
                let files = vm.volume(w).files@;
                assert(w == v);
                assert(files[j].file_id == f.file_id);
                assert(m.is_sound());
                if i < j {
                    assert(files[i].file_id != files[j].file_id);
                } else if j < i {
                    assert(files[j].file_id != files[i].file_id);
                }
                assert(s.matched[n] == p);
                let (x, y) = choose|x: u8, y: int| #[trigger]
                    vm.is_taken_at(model, c.files_only, c.directories_only, p, x, y);
                assert(soundness::volume_fits(vm.volume(x)));
                sort_cache::unpacking_undoes_packing(x, y as u32);
                assert(x == v && y == i);
            },
            reached::Source::Added(n) => {
                assert(d.index.contains_key(crate::delta_index::added_key(d.new_files[n])));
                assert(d.deleted.contains(k));
            },
            reached::Source::Changed => {
                assert(d.modified.contains_key(k));
            },
        }
    }
}

/// Every row of the result list of a sound state is that of a file that the line takes under the
/// path that the row gives.
pub proof fn shown_row_passes(
    vm: VolumeManager,
    today: i32,
    sort_by: SortBy,
    direction: SortDirection,
    x: RowModel,
)
    requires
        vm.is_sound(today),
        vm.fits(),
        vm.search_cache is Some,
        vm.list(today, sort_by, direction).contains(x),
    ensures
        ({
            let c = vm.search_cache->0;
            &&& x.path is Some
            &&& line_takes(
                c.query@,
                c.files_only,
                c.directories_only,
                x.file,
                x.path->0,
                today,
            )
        }),
{
    let c = vm.search_cache->0;
    let s = vm.scene(today);
    let d = vm.changes();
    let model = search_cache::query_model(c.query@, today);
    assert(vm.wf()) by {
        reveal(VolumeManager::stands);
    }
    reached::list_fits(vm, today);
    result_list::shown_holds(s, sort_by, direction, x);
    result_list::base_ascends(s, sort_by);
    if s.active_rows(s.base_order(sort_by)).contains(x) {
        let n = choose|n: u32| #[trigger] s.active_row(n) == Some(x);
        let p = s.matched[n as int];
        assert(s.matched.contains(p));
        let (v, i) = soundness::matched_is_live(vm, today, p);
        reveal(VolumeManager::stands);
        soundness::live_on_shelf(vm, v);
        soundness::found_by_number(vm, model, c.files_only, c.directories_only, p);
        let (w, j) = choose|w: u8, j: int| #[trigger]
            vm.is_taken_at(model, c.files_only, c.directories_only, p, w, j);
        assert(soundness::volume_fits(vm.volume(w)) && soundness::volume_fits(vm.volume(v)));
        sort_cache::unpacking_undoes_packing(w, j as u32);
        sort_cache::unpacking_undoes_packing(v, i as u32);
        let f = vm.volume(v).files@[i];
        takes_by_line(
            c.query@,
            c.files_only,
            c.directories_only,
            f,
            vm.volume(v).path_of(f),
            today,
        );
    } else {
        merged_rows::delta_row_source(s, x);
        reveal(VolumeManager::stands);
        if exists|i: int|
            0 <= i < s.new_files.len() && s.new_row(#[trigger] s.new_files[i]) == Some(x) {
            let i = choose|i: int|
                0 <= i < s.new_files.len() && s.new_row(#[trigger] s.new_files[i]) == Some(x);
            let (v, f) = d.new_files[i];
            assert(vm.has_dir(v, f));
            soundness::live_on_shelf(vm, v);
            takes_by_line(
                c.query@,
                c.files_only,
                c.directories_only,
                f,
                vm.volume(v).path_of(f),
                today,
            );
        } else {
            let k = choose|k: u64| #[trigger]
                s.modified.contains_key(k) && s.modified_row(k) == Some(x);
            assert(d.modified.contains_key(k));
            let (v, f) = (keys::volume_in(k), d.modified[k]);
            assert(vm.has_dir(v, f));
            soundness::live_on_shelf(vm, v);
            takes_by_line(
                c.query@,
                c.files_only,
                c.directories_only,
                f,
                vm.volume(v).path_of(f),
                today,
            );
        }
    }
}

/// A search in a sound state finds a file that a volume lists, and that did not change since, just
/// where its line takes it: the file has a row in the result list, whose beginning is given, and
/// is given itself where the list is no longer than that.
pub proof fn search_finds_what_passes(
    before: VolumeManager,
    after: VolumeManager,
    line: Seq<char>,
    options: SearchOptions,
    age: u64,
    today: i32,
    r: (Vec<SearchResult>, usize),
    v: u8,
    i: int,
)
    requires
        before.is_sound(today),
        before.fits(),
        after.wf(),
        after.fits(),
        before.was_searched(after, line, options, age, today, r),
        after.is_live(v),
        0 <= i < after.volume(v).files@.len(),
        !after.changes().deleted.contains(keys::key(v, after.volume(v).files@[i].file_id)),
        !after.changes().modified.contains_key(keys::key(v, after.volume(v).files@[i].file_id)),
        after.list(today, options.sort_by, options.sort_direction).len() <= searching::FIRST_PAGE,
    ensures
        ({
            let f = after.volume(v).files@[i];
            let path = after.volume(v).path_of(f);
            line_takes(
                line,
                options.files_only,
                options.directories_only,
                f@,
                path,
                today,
            ) ==> exists|n: int|
                0 <= n < r.0@.len() && {
                    let found = #[trigger] r.0@[n];
                    &&& found.name@ == f.name@
                    &&& found.path@ == path
                    &&& found.size == f.size
                    &&& found.modified_time == f.modified_time
                    &&& found.file_id == f.file_id
                    &&& found.is_directory == f.is_directory
                }
        }),
{
    sound_pages::sound_search(before, after, line, options, age, today, r);
    listed_file_shows(after, today, options.sort_by, options.sort_direction, v, i);
    let f = after.volume(v).files@[i];
    let path = after.volume(v).path_of(f);
    let list = after.list(today, options.sort_by, options.sort_direction);
    if line_takes(line, options.files_only, options.directories_only, f@, path, today) {
        let row = RowModel {
            volume: after.vol_names@[v as int]@,
            ordinal: after.volume(v).path_table@.ordinal(f.path_id),
            file: f@,
            path: Some(path),
        };
        assert(list.subrange(0, list.len() as int) =~= list);
        let k = choose|k: int| 0 <= k < list.len() && list[k] == row;
        seqs::filter_map_has(list, |x: RowModel| rows::row_result(x), k);
        let models = rows::result_models(r.0@);
        let n = choose|n: int| 0 <= n < models.len() && models[n] == rows::row_result(row)->0;
        assert(r.0@[n]@ == models[n]);
    }
}

} // verus!
