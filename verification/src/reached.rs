//! What holds of the result list in every sound state: each file has one row at most, pages are
//! pieces of it, and every change of a volume shows in it.

use crate::changes;
use crate::counting;
use crate::delta_index;
use crate::keys;
use crate::merged_rows;
use crate::merging;
use crate::renaming;
use crate::result_list;
use crate::rows::RowModel;
use crate::scene;
use crate::scene::Scene;
use crate::search::{FileEntry, SortBy, SortDirection};
use crate::seqs;
use crate::sort_cache;
use crate::soundness;
use crate::soundness::has_id;
use crate::volume_manager::VolumeManager;
use vstd::prelude::*;

verus! {

impl VolumeManager {
    /// What the result list of the last search is made from on the day `today`.
    pub open spec fn scene(&self, today: i32) -> Scene {
        self.search_cache->0.scene(self.shelf(), today)
    }

    /// The whole result list of the last search on the day `today`.
    pub open spec fn list(
        &self,
        today: i32,
        sort_by: SortBy,
        direction: SortDirection,
    ) -> Seq<RowModel> {
        let s = self.scene(today);
        s.shown(s.base_order(sort_by), sort_by, direction)
    }

    /// The key of the file `fid` of a volume.
    pub open spec fn key_in(&self, drive: Seq<char>, fid: u32) -> u64 {
        keys::key(self.volume_index@[drive], fid)
    }
}

/// Whether a row is that of the file `fid` of a volume.
pub open spec fn is_row_of(x: RowModel, drive: Seq<char>, fid: u32) -> bool {
    x.volume == drive && x.file.file_id == fid
}

/// The machine can number the rows of the result list.
pub proof fn list_fits(vm: VolumeManager, today: i32)
    requires
        vm.wf(),
        vm.fits(),
        vm.search_cache is Some,
    ensures
        ({
            let s = vm.scene(today);
            &&& s == s.with_delta(vm.changes())
            &&& s.modified.dom().finite()
            &&& s.matched.len() <= u32::MAX
            &&& s.delta_rows().len() <= s.new_files.len() + s.modified.dom().len()
            &&& s.delta_rows().len() <= usize::MAX
            &&& s.active_count() + s.delta_rows().len() <= u32::MAX
        }),
{
    broadcast use vstd::std_specs::btree::group_btree_axioms;

    let s = vm.scene(today);
    seqs::in_ascent_ascends(s.modified.dom());
    s.modified_keys().unique_seq_to_set();
    merging::filter_map_bounded(s.new_files, |e: (u8, FileEntry)| s.new_row(e));
    merging::filter_map_bounded(s.modified_keys(), |k: u64| s.modified_row(k));
    merging::filter_map_bounded(scene::places(s.matched.len()), |i: u32| s.active_row(i));
}

/// Every number that is known stands for its name alone.
pub proof fn numbers_lead(vm: VolumeManager, today: i32, drive: Seq<char>)
    requires
        vm.is_sound(today),
        vm.fits(),
        vm.search_cache is Some,
        vm.volume_index@.contains_key(drive),
    ensures
        vm.scene(today).numbers_once(vm.volume_index@[drive], drive),
        changes::is_volume(vm.vol_names@, vm.volume_index@[drive], drive),
{
    let s = vm.scene(today);
    let d = vm.changes();
    let v = vm.volume_index@[drive];
    assert forall|i: int| 0 <= i < s.matched.len() implies s.leads_to(
        sort_cache::volume_of(#[trigger] s.matched[i]),
        v,
        drive,
    ) by {
        assert(s.matched.contains(s.matched[i]));
        let r = soundness::matched_is_live(vm, today, s.matched[i]);
    }
    reveal(VolumeManager::stands);
    assert forall|i: int| 0 <= i < s.new_files.len() implies s.leads_to(
        (#[trigger] s.new_files[i]).0,
        v,
        drive,
    ) by {
        assert(vm.has_dir(d.new_files[i].0, d.new_files[i].1));
    }
    assert forall|k: u64| #[trigger] s.modified.contains_key(k) implies s.leads_to(
        keys::volume_in(k),
        v,
        drive,
    ) by {
        assert(d.modified.contains_key(k));
        assert(vm.has_dir(keys::volume_in(k), d.modified[k]));
    }
    assert(merging::last_named(vm.vol_names@, drive, v as int));
}

/// A file that is matched is listed by its volume.
pub proof fn matched_is_listed(vm: VolumeManager, today: i32, i: int, k: u64)
    requires
        vm.is_sound(today),
        vm.fits(),
        vm.search_cache is Some,
        0 <= i < vm.scene(today).matched.len(),
        vm.scene(today).is_matched_key(i, k),
    ensures
        vm.lists(k),
{
    broadcast use keys::key_has_parts;

    let s = vm.scene(today);
    assert(s.matched.contains(s.matched[i]));
    let r = soundness::matched_is_live(vm, today, s.matched[i]);
    assert(has_id(vm.volume(r.0).files@, vm.volume(r.0).files@[r.1].file_id));
}

/// What the rows of a file come from, where the list has any.
pub enum Source {
    Matched(int),
    Added(int),
    Changed,
}

impl Scene {
    /// Whether the list has a row for the file with the key `k` from there.
    pub open spec fn shows_from(self, k: u64, from: Source) -> bool {
        match from {
            Source::Matched(i) => 0 <= i < self.matched.len() && self.shows_matched(i)
                && self.is_matched_key(i, k),
            Source::Added(i) => 0 <= i < self.new_files.len() && self.shows_added(i)
                && delta_index::added_key(self.new_files[i]) == k,
            Source::Changed => self.modified.contains_key(k) && self.modified_row(k) is Some,
        }
    }

    /// The row of the file with the key `k` from there.
    pub open spec fn row_from(self, k: u64, from: Source) -> RowModel {
        match from {
            Source::Matched(i) => self.active_row(i as u32)->0,
            Source::Added(i) => self.new_row(self.new_files[i])->0,
            Source::Changed => self.modified_row(k)->0,
        }
    }
}

/// The rows of a file come from one place.
proof fn one_source(vm: VolumeManager, today: i32, k: u64, a: Source, b: Source)
    requires
        vm.is_sound(today),
        vm.fits(),
        vm.search_cache is Some,
        vm.scene(today).shows_from(k, a),
        vm.scene(today).shows_from(k, b),
    ensures
        a == b,
{
    let s = vm.scene(today);
    let d = vm.changes();
    let ids = counting::matched_keys(vm.shelf(), s.matched);
    assert(s == s.with_delta(d));
    assert(d.is_indexed() && forall|x: u64| #[trigger]
        d.index.contains_key(x) && vm.lists(x) ==> d.deleted.contains(x)) by {
        reveal(VolumeManager::stands);
        assert forall|x: u64| #[trigger]
            d.index.contains_key(x) && vm.lists(x) implies d.deleted.contains(x) by {
            assert((|k: u64| vm.lists(k))(x));
        }
    }
    assert(counting::ids_differ(ids));
    if let Source::Matched(i) = a {
        matched_is_listed(vm, today, i, k);
        assert(ids[i] == Some(k));
    }
    if let Source::Matched(i) = b {
        matched_is_listed(vm, today, i, k);
        assert(ids[i] == Some(k));
    }
    if let Source::Added(i) = a {
        assert(d.index.contains_key(delta_index::added_key(d.new_files[i])));
    }
    if let Source::Added(i) = b {
        assert(d.index.contains_key(delta_index::added_key(d.new_files[i])));
    }
    if let (Source::Matched(i), Source::Matched(j)) = (a, b) {
        if i < j {
            assert(ids[i] != ids[j]);
        } else if j < i {
            assert(ids[j] != ids[i]);
        }
    }
}

/// The result list of a sound state has one row at most for a file.
pub proof fn one_row_at_most(vm: VolumeManager, today: i32, k: u64)
    requires
        vm.is_sound(today),
        vm.fits(),
        vm.search_cache is Some,
    ensures
        vm.scene(today).rows_of_file(k) <= 1,
        vm.scene(today).rows_of_file(k) == 1 <==> exists|from: Source| #[trigger]
            vm.scene(today).shows_from(k, from),
{
    let s = vm.scene(today);
    let (n, m) = (s.matched.len(), s.new_files.len());
    let own = |i: int| s.shows_matched(i) && s.is_matched_key(i, k);
    let added = |i: int| s.shows_added(i) && delta_index::added_key(s.new_files[i]) == k;
    if exists|from: Source| #[trigger] s.shows_from(k, from) {
        let from = choose|from: Source| #[trigger] s.shows_from(k, from);
        assert forall|i: int| 0 <= i < n && #[trigger] own(i) implies from == Source::Matched(
            i,
        ) by {
            assert(s.shows_from(k, Source::Matched(i)));
            one_source(vm, today, k, from, Source::Matched(i));
        }
        assert forall|i: int| 0 <= i < m && #[trigger] added(i) implies from == Source::Added(
            i,
        ) by {
            assert(s.shows_from(k, Source::Added(i)));
            one_source(vm, today, k, from, Source::Added(i));
        }
        if s.shows_from(k, Source::Changed) {
            one_source(vm, today, k, from, Source::Changed);
        }
        match from {
            Source::Matched(i) => {
                assert(own(i));
                renaming::count_one(n, own, i);
                renaming::count_none(m, added);
            },
            Source::Added(i) => {
                assert(added(i));
                renaming::count_one(m, added, i);
                renaming::count_none(n, own);
            },
            Source::Changed => {
                renaming::count_none(n, own);
                renaming::count_none(m, added);
            },
        }
    } else {
        assert forall|i: int| 0 <= i < n implies !#[trigger] own(i) by {
            assert(!s.shows_from(k, Source::Matched(i)));
        }
        assert forall|i: int| 0 <= i < m implies !#[trigger] added(i) by {
            assert(!s.shows_from(k, Source::Added(i)));
        }
        assert(!s.shows_from(k, Source::Changed));
        renaming::count_none(n, own);
        renaming::count_none(m, added);
    }
}

/// A row of the list that is that of a file comes from somewhere.
pub proof fn row_has_source(
    vm: VolumeManager,
    today: i32,
    sort_by: SortBy,
    direction: SortDirection,
    drive: Seq<char>,
    fid: u32,
    x: RowModel,
) -> (from: Source)
    requires
        vm.is_sound(today),
        vm.fits(),
        vm.search_cache is Some,
        vm.volume_index@.contains_key(drive),
        vm.list(today, sort_by, direction).contains(x),
        is_row_of(x, drive, fid),
    ensures
        vm.scene(today).shows_from(vm.key_in(drive, fid), from),
        vm.scene(today).row_from(vm.key_in(drive, fid), from) == x,
{
    broadcast use keys::key_has_parts;

    let s = vm.scene(today);
    let d = vm.changes();
    let v = vm.volume_index@[drive];
    let k = vm.key_in(drive, fid);
    assert(vm.wf() && d.is_indexed()) by {
        reveal(VolumeManager::stands);
    }
    list_fits(vm, today);
    numbers_lead(vm, today, drive);
    result_list::shown_holds(s, sort_by, direction, x);
    result_list::base_ascends(s, sort_by);
    if s.active_rows(s.base_order(sort_by)).contains(x) {
        let i = choose|i: u32| #[trigger] s.active_row(i) == Some(x);
        let w = sort_cache::volume_of(s.matched[i as int]);
        assert(s.shelf[w as int].name == drive);
        assert(s.leads_to(w, v, drive));
        assert(s.is_matched_key(i as int, k));
        Source::Matched(i as int)
    } else {
        merged_rows::delta_row_source(s, x);
        if exists|i: int|
            0 <= i < s.new_files.len() && s.new_row(#[trigger] s.new_files[i]) == Some(x) {
            let i = choose|i: int|
                0 <= i < s.new_files.len() && s.new_row(#[trigger] s.new_files[i]) == Some(x);
            let w = s.new_files[i].0;
            assert(s.shelf[w as int].name == drive);
            assert(s.leads_to(w, v, drive));
            Source::Added(i)
        } else {
            let y = choose|y: u64| #[trigger]
                s.modified.contains_key(y) && s.modified_row(y) == Some(x);
            assert(s.shelf[keys::volume_in(y) as int].name == drive);
            assert(s.leads_to(keys::volume_in(y), v, drive));
            assert(d.modified.contains_key(y));
            assert(y == k);
            Source::Changed
        }
    }
}

/// Where the list has a row for a file, it is that of the file's volume and id.
pub proof fn source_has_row(
    vm: VolumeManager,
    today: i32,
    sort_by: SortBy,
    direction: SortDirection,
    drive: Seq<char>,
    fid: u32,
    from: Source,
)
    requires
        vm.is_sound(today),
        vm.fits(),
        vm.search_cache is Some,
        vm.volume_index@.contains_key(drive),
        vm.scene(today).shows_from(vm.key_in(drive, fid), from),
    ensures
        ({
            let x = vm.scene(today).row_from(vm.key_in(drive, fid), from);
            &&& vm.list(today, sort_by, direction).contains(x)
            &&& is_row_of(x, drive, fid)
        }),
{
    broadcast use keys::key_has_parts;

    let s = vm.scene(today);
    let d = vm.changes();
    let k = vm.key_in(drive, fid);
    let x = s.row_from(k, from);
    assert(vm.wf() && d.is_indexed()) by {
        reveal(VolumeManager::stands);
    }
    list_fits(vm, today);
    numbers_lead(vm, today, drive);
    match from {
        Source::Matched(i) => {
            result_list::matched_is_shown(s, sort_by, direction, i as u32);
        },
        Source::Added(i) => {
            assert(s.new_row(s.new_files[i]) == Some(x));
            merged_rows::delta_row_source(s, x);
            result_list::shown_holds(s, sort_by, direction, x);
        },
        Source::Changed => {
            assert(d.modified.contains_key(k));
            merged_rows::delta_row_source(s, x);
            result_list::shown_holds(s, sort_by, direction, x);
        },
    }
}

/// The result list of a sound state shows a file once or not at all: two rows of the same
/// volume and file id are the same, and it has one row for the file where it has any.
pub proof fn file_shows_once(
    vm: VolumeManager,
    today: i32,
    sort_by: SortBy,
    direction: SortDirection,
    drive: Seq<char>,
    fid: u32,
)
    requires
        vm.is_sound(today),
        vm.fits(),
        vm.search_cache is Some,
        vm.volume_index@.contains_key(drive),
    ensures
        ({
            let list = vm.list(today, sort_by, direction);
            let n = vm.scene(today).rows_of_file(vm.key_in(drive, fid));
            &&& n <= 1
            &&& n == 1 <==> exists|x: RowModel| #[trigger]
                list.contains(x) && is_row_of(x, drive, fid)
            &&& forall|x: RowModel, y: RowModel|
                #![trigger list.contains(x), list.contains(y)]
                list.contains(x) && list.contains(y) && is_row_of(x, drive, fid) && is_row_of(
                    y,
                    drive,
                    fid,
                ) ==> x == y
        }),
{
    let list = vm.list(today, sort_by, direction);
    let s = vm.scene(today);
    let k = vm.key_in(drive, fid);
    one_row_at_most(vm, today, k);
    if s.rows_of_file(k) == 1 {
        let from = choose|from: Source| #[trigger] s.shows_from(k, from);
        source_has_row(vm, today, sort_by, direction, drive, fid, from);
        assert(list.contains(s.row_from(k, from)));
    }
    if exists|x: RowModel| #[trigger] list.contains(x) && is_row_of(x, drive, fid) {
        let x = choose|x: RowModel| #[trigger] list.contains(x) && is_row_of(x, drive, fid);
        let from = row_has_source(vm, today, sort_by, direction, drive, fid, x);
        assert(s.shows_from(k, from));
    }
    assert forall|x: RowModel, y: RowModel|
        #![trigger list.contains(x), list.contains(y)]
        list.contains(x) && list.contains(y) && is_row_of(x, drive, fid) && is_row_of(
            y,
            drive,
            fid,
        ) implies x == y by {
        let a = row_has_source(vm, today, sort_by, direction, drive, fid, x);
        let b = row_has_source(vm, today, sort_by, direction, drive, fid, y);
        one_source(vm, today, k, a, b);
    }
}

/// The row of a file tells its key.
proof fn row_tells_key(vm: VolumeManager, today: i32, k: u64, from: Source)
    requires
        vm.is_sound(today),
        vm.fits(),
        vm.search_cache is Some,
        vm.scene(today).shows_from(k, from),
    ensures
        ({
            let x = vm.scene(today).row_from(k, from);
            k == vm.key_in(x.volume, x.file.file_id)
        }),
{
    broadcast use keys::key_has_parts;

    let s = vm.scene(today);
    let d = vm.changes();
    if let Source::Matched(i) = from {
        assert(s.matched.contains(s.matched[i]));
        let r = soundness::matched_is_live(vm, today, s.matched[i]);
    }
    reveal(VolumeManager::stands);
    match from {
        Source::Matched(i) => {},
        Source::Added(i) => {
            assert(vm.has_dir(d.new_files[i].0, d.new_files[i].1));
        },
        Source::Changed => {
            assert(d.modified.contains_key(k));
            assert(vm.has_dir(keys::volume_in(k), d.modified[k]));
        },
    }
}

/// No two places give the same row.
proof fn row_tells_source(
    vm: VolumeManager,
    today: i32,
    k: u64,
    a: Source,
    l: u64,
    b: Source,
)
    requires
        vm.is_sound(today),
        vm.fits(),
        vm.search_cache is Some,
        vm.scene(today).shows_from(k, a),
        vm.scene(today).shows_from(l, b),
        vm.scene(today).row_from(k, a) == vm.scene(today).row_from(l, b),
    ensures
        k == l,
        a == b,
{
    row_tells_key(vm, today, k, a);
    row_tells_key(vm, today, l, b);
    one_source(vm, today, k, a, b);
}

/// No row stands twice among those of the matched files, nor among those of the changes, and
/// none in both.
proof fn rows_differ(vm: VolumeManager, today: i32)
    requires
        vm.is_sound(today),
        vm.fits(),
        vm.search_cache is Some,
    ensures
        ({
            let s = vm.scene(today);
            let a = s.active_rows(scene::places(s.matched.len()));
            &&& a.no_duplicates()
            &&& s.delta_rows().no_duplicates()
            &&& forall|x: RowModel| !(#[trigger] a.contains(x) && s.delta_rows().contains(x))
            &&& forall|x: RowModel| #[trigger]
                a.contains(x) <==> exists|i: u32| #[trigger] s.active_row(i) == Some(x)
        }),
{
    broadcast use keys::key_has_parts;

    let s = vm.scene(today);
    let d = vm.changes();
    assert(vm.wf() && d.is_indexed()) by {
        reveal(VolumeManager::stands);
    }
    list_fits(vm, today);
    let places = scene::places(s.matched.len());
    let pick = |i: u32| s.active_row(i);
    let a = s.active_rows(places);
    assert forall|i: u32, j: u32|
        places.contains(i) && places.contains(j) && #[trigger] pick(i) is Some && pick(i)
            == #[trigger] pick(j) implies i == j by {
        let x = pick(i)->0;
        let (k, l) = (s.base_key(i as int, x.file.file_id), s.base_key(j as int, x.file.file_id));
        row_tells_source(
            vm,
            today,
            k,
            Source::Matched(i as int),
            l,
            Source::Matched(j as int),
        );
    }
    seqs::filter_map_once(places, pick);
    assert forall|x: RowModel| #[trigger] a.contains(x) <==> exists|i: u32| #[trigger]
        s.active_row(i) == Some(x) by {
        if a.contains(x) {
            places.lemma_filter_map_contains(pick, x);
            let i = choose|i: u32| #[trigger] places.contains(i) && pick(i) == Some(x);
            assert(s.active_row(i) == Some(x));
        }
        if exists|i: u32| #[trigger] s.active_row(i) == Some(x) {
            let i = choose|i: u32| #[trigger] s.active_row(i) == Some(x);
            assert(places[i as int] == i);
            seqs::filter_map_has(places, pick, i as int);
        }
    }
    let new = |e: (u8, FileEntry)| s.new_row(e);
    let changed = |k: u64| s.modified_row(k);
    let (b, c) = (s.new_files.filter_map(new), s.modified_keys().filter_map(changed));
    assert forall|i: int, j: int| 0 <= i < s.new_files.len() && 0 <= j < s.new_files.len() && i
        != j implies s.new_files[i] != s.new_files[j] by {
        assert(d.index[delta_index::added_key(d.new_files[i])] == i);
        assert(d.index[delta_index::added_key(d.new_files[j])] == j);
    }
    assert(s.new_files.no_duplicates());
    assert forall|e: (u8, FileEntry), f: (u8, FileEntry)|
        s.new_files.contains(e) && s.new_files.contains(f) && #[trigger] new(e) is Some && new(e)
            == #[trigger] new(f) implies e == f by {
        let i = choose|i: int| 0 <= i < s.new_files.len() && s.new_files[i] == e;
        let j = choose|j: int| 0 <= j < s.new_files.len() && s.new_files[j] == f;
        row_tells_source(
            vm,
            today,
            delta_index::added_key(e),
            Source::Added(i),
            delta_index::added_key(f),
            Source::Added(j),
        );
    }
    seqs::filter_map_once(s.new_files, new);
    seqs::in_ascent_ascends(s.modified.dom());
    assert forall|k: u64, l: u64|
        s.modified_keys().contains(k) && s.modified_keys().contains(l) && #[trigger] changed(
            k,
        ) is Some && changed(k) == #[trigger] changed(l) implies k == l by {
        assert(s.modified_keys().to_set().contains(k) && s.modified_keys().to_set().contains(l));
        row_tells_source(vm, today, k, Source::Changed, l, Source::Changed);
    }
    assert(s.modified_keys().no_duplicates());
    seqs::filter_map_once(s.modified_keys(), changed);
    let all = s.delta_rows();
    assert(all == b + c);
    assert forall|i: int, j: int| 0 <= i < all.len() && 0 <= j < all.len() && i
        != j implies all[i] != all[j] by {
        if i < b.len() && j < b.len() {
            assert(b[i] != b[j]);
        } else if i >= b.len() && j >= b.len() {
            assert(c[i - b.len()] != c[j - b.len()]);
        } else {
            let (p, q) = if i < b.len() {
                (i, j - b.len())
            } else {
                (j, i - b.len())
            };
            let (x, y) = (b[p], c[q]);
            assert(b.contains(x) && c.contains(y));
            s.new_files.lemma_filter_map_contains(new, x);
            let e = choose|e: (u8, FileEntry)| #[trigger]
                s.new_files.contains(e) && new(e) == Some(x);
            let m = choose|m: int| 0 <= m < s.new_files.len() && s.new_files[m] == e;
            s.modified_keys().lemma_filter_map_contains(changed, y);
            let k = choose|k: u64| #[trigger]
                s.modified_keys().contains(k) && changed(k) == Some(y);
            assert(s.modified_keys().to_set().contains(k));
            if x == y {
                row_tells_source(
                    vm,
                    today,
                    delta_index::added_key(e),
                    Source::Added(m),
                    k,
                    Source::Changed,
                );
            }
        }
    }
    assert forall|x: RowModel| !(#[trigger] a.contains(x) && all.contains(x)) by {
        if a.contains(x) && all.contains(x) {
            let i = choose|i: u32| #[trigger] s.active_row(i) == Some(x);
            let k = s.base_key(i as int, x.file.file_id);
            merged_rows::delta_row_source(s, x);
            if exists|i: int|
                0 <= i < s.new_files.len() && s.new_row(#[trigger] s.new_files[i]) == Some(x) {
                let j = choose|i: int|
                    0 <= i < s.new_files.len() && s.new_row(#[trigger] s.new_files[i]) == Some(x);
                row_tells_source(
                    vm,
                    today,
                    k,
                    Source::Matched(i as int),
                    delta_index::added_key(s.new_files[j]),
                    Source::Added(j),
                );
            } else {
                let y = choose|y: u64| #[trigger]
                    s.modified.contains_key(y) && s.modified_row(y) == Some(x);
                row_tells_source(vm, today, k, Source::Matched(i as int), y, Source::Changed);
            }
        }
    }
}

/// No row stands twice in the result list of a sound state.
pub proof fn list_counts_rows(
    vm: VolumeManager,
    today: i32,
    sort_by: SortBy,
    direction: SortDirection,
)
    requires
        vm.is_sound(today),
        vm.fits(),
        vm.search_cache is Some,
    ensures
        vm.list(today, sort_by, direction).to_set().len() == vm.list(
            today,
            sort_by,
            direction,
        ).len(),
        vm.list(today, sort_by, direction).no_duplicates(),
{
    let s = vm.scene(today);
    assert(vm.wf()) by {
        reveal(VolumeManager::stands);
    }
    list_fits(vm, today);
    rows_differ(vm, today);
    let a = s.active_rows(scene::places(s.matched.len()));
    let b = s.delta_rows();
    let list = vm.list(today, sort_by, direction);
    result_list::shown_len(s, sort_by, direction);
    result_list::base_ascends(s, sort_by);
    a.unique_seq_to_set();
    b.unique_seq_to_set();
    assert forall|x: RowModel| #[trigger]
        list.contains(x) <==> a.contains(x) || b.contains(x) by {
        result_list::shown_holds(s, sort_by, direction, x);
        if a.contains(x) {
            let i = choose|i: u32| #[trigger] s.active_row(i) == Some(x);
            result_list::matched_is_shown(s, sort_by, direction, i);
        }
    }
    assert(list.to_set() =~= a.to_set().union(b.to_set())) by {
        assert forall|x: RowModel| #[trigger] list.to_set().contains(x) == a.to_set().union(
            b.to_set(),
        ).contains(x) by {
            assert(list.to_set().contains(x) == list.contains(x));
        }
    }
    assert(a.to_set().disjoint(b.to_set())) by {
        assert forall|x: RowModel| #[trigger] a.to_set().contains(x) implies !b.to_set().contains(
            x,
        ) by {
            assert(a.contains(x));
        }
    }
    vstd::set_lib::lemma_set_disjoint_lens(a.to_set(), b.to_set());
    list.lemma_no_dup_set_cardinality();
}

} // verus!
