//! What a page of a sound index gives, and what merging the changes leaves of the list.

use crate::changes;
use crate::counting;
use crate::delta_index;
use crate::keys;
use crate::merged_rows;
use crate::reached;
use crate::result_list;
use crate::rows;
use crate::rows::RowModel;
use crate::search::{SearchOptions, SearchResult, SortBy, SortDirection};
use crate::searching::FIRST_PAGE;
use crate::soundness;
use crate::soundness::has_id;
use crate::volume_manager::VolumeManager;
use crate::volume_map;
use vstd::prelude::*;

verus! {

/// Whether no two rows of different volumes have the same file id.
pub open spec fn ids_apart(list: Seq<RowModel>) -> bool {
    forall|x: RowModel, y: RowModel|
        #![trigger list.contains(x), list.contains(y)]
        list.contains(x) && list.contains(y) && x.volume != y.volume ==> x.file.file_id
            != y.file.file_id
}

/// The row of a matched file that is shown ties with none of a changed one, unless two volumes
/// share a file id.
proof fn matched_never_ties(
    vm: VolumeManager,
    today: i32,
    sort_by: SortBy,
    k: u32,
    b: RowModel,
)
    requires
        vm.is_sound(today),
        vm.fits(),
        vm.search_cache is Some,
        ids_apart(vm.list(today, sort_by, SortDirection::Ascending)),
        vm.scene(today).active_row(k) is Some,
        vm.scene(today).delta_rows().contains(b),
    ensures
        vm.scene(today).active_row(k)->0.file.file_id != b.file.file_id,
{
    broadcast use keys::key_has_parts;

    let s = vm.scene(today);
    let d = vm.changes();
    let a = s.active_row(k)->0;
    assert(vm.wf()) by {
        reveal(VolumeManager::stands);
    }
    reached::list_fits(vm, today);
    result_list::matched_is_shown(s, sort_by, SortDirection::Ascending, k);
    result_list::shown_holds(s, sort_by, SortDirection::Ascending, b);
    if a.file.file_id == b.file.file_id {
        let p = s.matched[k as int];
        assert(s.matched.contains(p));
        let (v, i) = soundness::matched_is_live(vm, today, p);
        let x = keys::key(v, a.file.file_id);
        assert(a.volume == vm.vol_names@[v as int]@);
        assert(has_id(vm.volume(v).files@, vm.volume(v).files@[i].file_id));
        assert(vm.lists(x));
        merged_rows::delta_row_source(s, b);
        reveal(VolumeManager::stands);
        if exists|i: int|
            0 <= i < s.new_files.len() && s.new_row(#[trigger] s.new_files[i]) == Some(b) {
            let i = choose|i: int|
                0 <= i < s.new_files.len() && s.new_row(#[trigger] s.new_files[i]) == Some(b);
            let e = d.new_files[i];
            assert(vm.has_dir(e.0, e.1));
            assert(e.0 == v);
            assert(d.index.contains_key(delta_index::added_key(d.new_files[i])));
            assert(d.index.contains_key(x));
        } else {
            let y = choose|y: u64| #[trigger]
                s.modified.contains_key(y) && s.modified_row(y) == Some(b);
            assert(d.modified.contains_key(y));
            assert(vm.has_dir(keys::volume_in(y), d.modified[y]));
            assert(keys::volume_in(y) == v);
            assert(y == x);
        }
    }
}

/// The descending result list of a sound state is the ascending one turned round, unless two
/// volumes share a file id.
pub proof fn sound_list_reverses(vm: VolumeManager, today: i32, sort_by: SortBy)
    requires
        vm.is_sound(today),
        vm.fits(),
        vm.search_cache is Some,
        ids_apart(vm.list(today, sort_by, SortDirection::Ascending)),
    ensures
        vm.list(today, sort_by, SortDirection::Descending) == vm.list(
            today,
            sort_by,
            SortDirection::Ascending,
        ).reverse(),
{
    let s = vm.scene(today);
    assert(vm.wf()) by {
        reveal(VolumeManager::stands);
    }
    reached::list_fits(vm, today);
    assert forall|k: u32, b: RowModel|
        #![trigger s.active_row(k), s.delta_rows().contains(b)]
        s.active_row(k) is Some && s.delta_rows().contains(b) implies s.active_row(
        k,
    )->0.file.file_id != b.file.file_id by {
        matched_never_ties(vm, today, sort_by, k, b);
    }
    result_list::descending_is_reverse(s, sort_by);
}

/// A page that is read in a sound state is the piece of the whole result list that was asked
/// for. The list is in order, the number of results that is given is that of its rows, for
/// every key and in both directions, and it is the same list for the next page: the state
/// stays sound.
pub proof fn sound_page(
    before: VolumeManager,
    after: VolumeManager,
    sort_by: SortBy,
    direction: SortDirection,
    start: usize,
    end: usize,
    age: u64,
    today: i32,
    page: (Vec<SearchResult>, usize),
)
    requires
        before.is_sound(today),
        before.fits(),
        after.wf(),
        before.slice_was_read(after, sort_by, direction, start, end, age, today, Some(page)),
    ensures
        ({
            let list = before.list(today, sort_by, direction);
            let from = rows::least(start as int, list.len() as int);
            &&& rows::result_models(page.0@) == rows::row_results(
                list.subrange(from, rows::most(from, rows::least(end as int, list.len() as int))),
            )
            &&& page.1 == list.len()
            &&& result_list::is_in_order(sort_by, direction, list)
        }),
        forall|key: SortBy, way: SortDirection| #[trigger]
            before.list(today, key, way).len() == page.1,
        forall|key: SortBy, way: SortDirection| #[trigger]
            after.list(today, key, way) == before.list(today, key, way),
        after.is_sound(today),
        after.fits(),
{
    let c = before.search_cache->0;
    let s = before.scene(today);
    assert(before.wf()) by {
        reveal(VolumeManager::stands);
    }
    reached::list_fits(before, today);
    counting::exact_count_is_shown(c, before.shelf(), today);
    result_list::page_gives_the_piece(
        before,
        after,
        sort_by,
        direction,
        start,
        end,
        age,
        today,
        page,
    );
    before.page_keeps_sound(after, sort_by, today);
    assert forall|key: SortBy, way: SortDirection| #[trigger]
        before.list(today, key, way).len() == page.1 by {
        result_list::totals_agree(s, key, way, sort_by, direction);
    }
    assert(after.scene(today) == s);
}

/// A search in a sound state gives the beginning of the whole result list of its query, in
/// order, and the number of its rows, whether the last search is used again or all volumes are
/// searched anew; the state stays sound.
pub proof fn sound_search(
    before: VolumeManager,
    after: VolumeManager,
    query: Seq<char>,
    options: SearchOptions,
    age: u64,
    today: i32,
    r: (Vec<SearchResult>, usize),
)
    requires
        before.is_sound(today),
        before.fits(),
        after.wf(),
        after.fits(),
        before.was_searched(after, query, options, age, today, r),
    ensures
        after.is_sound(today),
        after.search_cache is Some,
        after.search_cache->0.query@ == query,
        after.search_cache->0.files_only == options.files_only,
        after.search_cache->0.directories_only == options.directories_only,
        after.changes() == before.changes(),
        ({
            let list = after.list(today, options.sort_by, options.sort_direction);
            &&& rows::result_models(r.0@) == rows::row_results(
                list.subrange(0, rows::least(FIRST_PAGE as int, list.len() as int)),
            )
            &&& r.1 == list.len()
            &&& result_list::is_in_order(options.sort_by, options.sort_direction, list)
        }),
{
    before.search_keeps_sound(after, query, options, age, today, r);
    assert(before.wf()) by {
        reveal(VolumeManager::stands);
    }
    reached::list_fits(after, today);
    assert(after.shelf() == before.shelf());
    if before.can_reuse(query, options, age) {
        let c = before.search_cache->0;
        let s = before.scene(today);
        assert(after.scene(today) == s);
        counting::exact_count_is_shown(c, before.shelf(), today);
        assert(before.order_used(c, options.sort_by, today) == s.base_order(options.sort_by)) by {
            reveal(VolumeManager::orders_are_current);
        }
        result_list::total_is_exact(
            c,
            before.shelf(),
            today,
            options.sort_by,
            options.sort_direction,
        );
        result_list::shown_is_in_order(s, options.sort_by, options.sort_direction);
        result_list::page_is_a_piece(
            s.shown(s.base_order(options.sort_by), options.sort_by, options.sort_direction),
            options.sort_direction,
            0,
            FIRST_PAGE as int,
        );
    } else {
        result_list::search_gives_the_beginning(before, after, query, options, today, r);
    }
}

/// Merging the changes into the volumes leaves the number of results of a sound state as it
/// was.
pub proof fn merge_keeps_total(
    before: VolumeManager,
    after: VolumeManager,
    today: i32,
    sort_by: SortBy,
    direction: SortDirection,
)
    requires
        before.is_sound(today),
        before.fits(),
        before.search_cache is Some,
        after.wf(),
        after.fits(),
        before.was_merged_if_needed(after, today),
    ensures
        after.list(today, sort_by, direction).len() == before.list(today, sort_by, direction).len(),
{
    let (a, b) = (before.list(today, sort_by, direction), after.list(today, sort_by, direction));
    before.merge_keeps_sound(after, today);
    assert forall|x: RowModel| #[trigger] a.to_set().contains(x) <==> b.to_set().contains(x) by {
        sound_merge(before, after, today, sort_by, direction, x);
        assert(a.contains(x) <==> b.contains(x));
    }
    assert(a.to_set() =~= b.to_set());
    reached::list_counts_rows(before, today, sort_by, direction);
    reached::list_counts_rows(after, today, sort_by, direction);
}

/// Merging the changes into the volumes leaves the rows of the result list of a sound state as
/// they were: nothing that was shown is missing, and nothing is shown that was not. The state
/// stays sound.
pub proof fn sound_merge(
    before: VolumeManager,
    after: VolumeManager,
    today: i32,
    sort_by: SortBy,
    direction: SortDirection,
    x: RowModel,
)
    requires
        before.is_sound(today),
        before.fits(),
        before.search_cache is Some,
        after.wf(),
        after.fits(),
        before.was_merged_if_needed(after, today),
    ensures
        after.is_sound(today),
        before.list(today, sort_by, direction).contains(x) <==> after.list(
            today,
            sort_by,
            direction,
        ).contains(x),
{
    before.merge_keeps_sound(after, today);
    if before.held_delta().needs_merge() {
        assert(before.wf() && before.numbers_are_sound() && after.numbers_are_sound()) by {
            reveal(VolumeManager::stands);
        }
        reached::list_fits(before, today);
        sound_positions(before);
        sound_positions(after);
        sound_changes_fit(before);
        merged_rows::merge_keeps_rows(
            before.search_cache->0,
            after.search_cache->0,
            before.volumes,
            after.volumes,
            before.vol_names@,
            today,
            sort_by,
            direction,
            x,
        );
    }
}

/// The files of a sound index can be numbered in positions.
proof fn sound_positions(vm: VolumeManager)
    requires
        vm.volumes.wf(),
        vm.numbers_are_sound(),
        vm.fits(),
    ensures
        merged_rows::positions_fit(vm.volumes.slots@, vm.vol_names@),
{
    let slots = vm.volumes.slots@;
    assert forall|j: int| 0 <= j < slots.len() implies (#[trigger] slots[j]).monitor.files@.len()
        <= 0x100_0000 by {
        volume_map::name_in_slot(slots, slots[j].name@);
        assert(vm.volumes@.contains_key(slots[j].name@));
    }
}

/// The changes of a sound index are those of volumes at hand, and the changed files are
/// listed.
proof fn sound_changes_fit(vm: VolumeManager)
    requires
        vm.stands(),
    ensures
        merged_rows::changes_fit(vm.volumes.slots@, vm.vol_names@, vm.changes()),
{
    broadcast use keys::key_has_parts;

    reveal(VolumeManager::stands);
    let slots = vm.volumes.slots@;
    let names = vm.vol_names@;
    let d = vm.changes();
    assert forall|i: int| 0 <= i < d.new_files.len() implies merged_rows::is_at_hand(
        slots,
        names,
        (#[trigger] d.new_files[i]).0,
    ) by {
        assert(vm.has_dir(d.new_files[i].0, d.new_files[i].1));
        let j = soundness::live_has_slot(vm, d.new_files[i].0);
        assert(changes::is_volume(names, d.new_files[i].0, slots[j].name@));
    }
    assert forall|k: u64| #[trigger] d.modified.contains_key(k) implies merged_rows::is_listed(
        slots,
        names,
        k,
    ) by {
        assert(vm.lists(k));
        let v = keys::volume_in(k);
        let j = soundness::live_has_slot(vm, v);
        let w = soundness::slot_is_live(vm, j);
        let files = vm.volume(v).files@;
        let i = choose|i: int|
            0 <= i < files.len() && (#[trigger] files[i]).file_id == keys::id_in(k);
        assert(k == keys::key(v, d.modified[k].file_id));
        assert(merged_rows::is_listed_at(slots, names, k, j, i));
    }
}

} // verus!
