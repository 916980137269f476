//! What holds of the result list when a file is renamed: it has one row for the file, as
//! before, and no row more or less.

use crate::batches;
use crate::changes;
use crate::changes::DeltaModel;
use crate::delta_index;
use crate::delta_index::added_key;
use crate::incremental;
use crate::keys;
use crate::result_list;
use crate::scene;
use crate::scene::Scene;
use crate::search::{FileEntry, SearchResult, SortBy, SortDirection};
use crate::seqs;
use crate::text;
use crate::volume_manager::VolumeManager;
use crate::volume_map;
use vstd::prelude::*;

verus! {

/// How many of the first `n` numbers have a property.
pub open spec fn count_if(n: nat, p: spec_fn(int) -> bool) -> nat
    decreases n,
{
    if n == 0 {
        0
    } else {
        count_if((n - 1) as nat, p) + (if p(n - 1) {
            1nat
        } else {
            0
        })
    }
}

proof fn count_same(n: nat, p: spec_fn(int) -> bool, q: spec_fn(int) -> bool)
    requires
        forall|i: int| 0 <= i < n ==> #[trigger] p(i) == q(i),
    ensures
        count_if(n, p) == count_if(n, q),
    decreases n,
{
    if n > 0 {
        count_same((n - 1) as nat, p, q);
        assert(p(n - 1) == q(n - 1));
    }
}

pub proof fn count_none(n: nat, p: spec_fn(int) -> bool)
    requires
        forall|i: int| 0 <= i < n ==> !#[trigger] p(i),
    ensures
        count_if(n, p) == 0,
    decreases n,
{
    if n > 0 {
        count_none((n - 1) as nat, p);
        assert(!p(n - 1));
    }
}

pub proof fn count_one(n: nat, p: spec_fn(int) -> bool, k: int)
    requires
        0 <= k < n,
        p(k),
        forall|i: int| 0 <= i < n && i != k ==> !#[trigger] p(i),
    ensures
        count_if(n, p) == 1,
    decreases n,
{
    if k == n - 1 {
        count_none((n - 1) as nat, p);
    } else {
        count_one((n - 1) as nat, p, k);
        assert(!p(n - 1));
    }
}

proof fn count_split(n: nat, p: spec_fn(int) -> bool, q: spec_fn(int) -> bool)
    ensures
        count_if(n, p) == count_if(n, |i: int| p(i) && q(i)) + count_if(
            n,
            |i: int| p(i) && !q(i),
        ),
    decreases n,
{
    if n > 0 {
        count_split((n - 1) as nat, p, q);
    }
}

/// `filter_map` keeps as many elements as something is made of.
proof fn filter_map_counts<A, B>(s: Seq<A>, f: spec_fn(A) -> Option<B>)
    ensures
        s.filter_map(f).len() == count_if(s.len(), |i: int| f(s[i]) is Some),
    decreases s.len(),
{
    reveal(Seq::filter_map);
    if s.len() > 0 {
        let t = s.drop_last();
        filter_map_counts(t, f);
        count_same(t.len(), |i: int| f(t[i]) is Some, |i: int| f(s[i]) is Some);
    }
}

/// `filter_map` of the numbers of a set keeps as many as something is made of.
proof fn ascent_counts<B>(s: Seq<u64>, f: spec_fn(u64) -> Option<B>)
    requires
        seqs::ascending(s),
    ensures
        s.to_set().finite(),
        s.filter_map(f).len() == s.to_set().filter(|k: u64| f(k) is Some).len(),
    decreases s.len(),
{
    reveal(Seq::filter_map);
    vstd::seq_lib::seq_to_set_is_finite(s);
    let made = |k: u64| f(k) is Some;
    if s.len() == 0 {
        assert(s.to_set().filter(made) =~= Set::empty());
    } else {
        let t = s.drop_last();
        let x = s.last();
        assert forall|i: int, j: int| 0 <= i < j < t.len() implies #[trigger] t[i] < #[trigger] t[j] by {
            assert(s[i] < s[j]);
        }
        ascent_counts(t, f);
        assert(!t.to_set().contains(x)) by {
            if t.contains(x) {
                let i = t.index_of(x);
                assert(s[i] < s[s.len() - 1]);
            }
        }
        assert forall|k: u64| #[trigger] s.to_set().contains(k) <==> t.to_set().contains(k) || k
            == x by {
            if s.contains(k) && k != x {
                let i = s.index_of(k);
                assert(t[i] == k);
            }
            if t.contains(k) {
                let i = t.index_of(k);
                assert(s[i] == k);
            }
            assert(s[s.len() - 1] == x);
        }
        let before = t.to_set().filter(made);
        assert(!before.contains(x));
        if made(x) {
            assert(s.to_set().filter(made) =~= before.insert(x));
        } else {
            assert(s.to_set().filter(made) =~= before);
        }
    }
}

impl Scene {
    /// Whether the matched file at place `i` is shown.
    pub open spec fn shows_matched(self, i: int) -> bool {
        self.active_row(i as u32) is Some
    }

    /// Whether the matched file at place `i` has the key `k`.
    pub open spec fn is_matched_key(self, i: int, k: u64) -> bool {
        self.base_row(i) matches Some(r) && self.base_key(i, r.file.file_id) == k
    }

    /// Whether the added file `i` is shown.
    pub open spec fn shows_added(self, i: int) -> bool {
        self.new_row(self.new_files[i]) is Some
    }

    /// How many rows the result list has for the file with the key `k`.
    pub open spec fn rows_of_file(self, k: u64) -> nat {
        count_if(
            self.matched.len(),
            |i: int| self.shows_matched(i) && self.is_matched_key(i, k),
        ) + count_if(
            self.new_files.len(),
            |i: int| self.shows_added(i) && added_key(self.new_files[i]) == k,
        ) + (if self.modified.contains_key(k) && self.modified_row(k) is Some {
            1nat
        } else {
            0
        })
    }

    /// How many rows the result list has for other files than that with the key `k`.
    pub open spec fn rows_of_others(self, k: u64) -> nat {
        count_if(
            self.matched.len(),
            |i: int| self.shows_matched(i) && !self.is_matched_key(i, k),
        ) + count_if(
            self.new_files.len(),
            |i: int| self.shows_added(i) && added_key(self.new_files[i]) != k,
        ) + self.changed_but(k).len()
    }

    /// The keys of the changed files that are shown, but for `k`.
    pub open spec fn changed_but(self, k: u64) -> Set<u64> {
        self.modified.dom().filter(|x: u64| x != k && self.modified_row(x) is Some)
    }
}

/// The rows of a file and those of the others make up the result list.
pub proof fn list_splits(s: Scene, k: u64, sort_by: SortBy, direction: SortDirection)
    requires
        s.matched.len() <= u32::MAX,
        s.delta_rows().len() <= usize::MAX,
        s.modified.dom().finite(),
    ensures
        s.shown(s.base_order(sort_by), sort_by, direction).len() == s.rows_of_file(k)
            + s.rows_of_others(k),
{
    result_list::shown_len(s, sort_by, direction);
    let places = scene::places(s.matched.len());
    let pick = |i: u32| s.active_row(i);
    filter_map_counts(places, pick);
    let n = s.matched.len();
    let shows = |i: int| s.shows_matched(i);
    let own = |i: int| s.is_matched_key(i, k);
    count_same(n, |i: int| pick(places[i]) is Some, shows);
    count_split(n, shows, own);
    count_same(
        n,
        |i: int| shows(i) && own(i),
        |i: int| s.shows_matched(i) && s.is_matched_key(i, k),
    );
    count_same(
        n,
        |i: int| shows(i) && !own(i),
        |i: int| s.shows_matched(i) && !s.is_matched_key(i, k),
    );
    let new = |e: (u8, FileEntry)| s.new_row(e);
    let m = s.new_files.len();
    let shows = |i: int| s.shows_added(i);
    let own = |i: int| added_key(s.new_files[i]) == k;
    filter_map_counts(s.new_files, new);
    count_same(m, |i: int| new(s.new_files[i]) is Some, shows);
    count_split(m, shows, own);
    count_same(
        m,
        |i: int| shows(i) && own(i),
        |i: int| s.shows_added(i) && added_key(s.new_files[i]) == k,
    );
    count_same(
        m,
        |i: int| shows(i) && !own(i),
        |i: int| s.shows_added(i) && added_key(s.new_files[i]) != k,
    );
    let changed = |x: u64| s.modified_row(x);
    seqs::in_ascent_ascends(s.modified.dom());
    ascent_counts(s.modified_keys(), changed);
    let all = s.modified.dom().filter(|x: u64| changed(x) is Some);
    let others = s.changed_but(k);
    s.modified.dom().lemma_len_filter(|x: u64| x != k && s.modified_row(x) is Some);
    assert(others.finite());
    if s.modified.contains_key(k) && s.modified_row(k) is Some {
        assert(all =~= others.insert(k));
        assert(!others.contains(k));
    } else {
        assert(all =~= others);
    }
}

/// The changes after a file with the key of `entry` was removed and added again under
/// another path.
pub open spec fn renamed(d: DeltaModel, vol: u8, entry: FileEntry) -> DeltaModel {
    d.with_removal(false, keys::key(vol, entry.file_id)).with_new(vol, false, entry)
}

/// Renaming a file leaves one added file of its key, which is shown, and the others where
/// they were.
proof fn renamed_is_added(d: DeltaModel, vol: u8, entry: FileEntry) -> (p: int)
    requires
        d.is_indexed(),
        d.new_files.len() < usize::MAX,
    ensures
        ({
            let e = renamed(d, vol, entry);
            let k = keys::key(vol, entry.file_id);
            &&& 0 <= p < e.new_files.len()
            &&& e.new_files[p] == (vol, entry)
            &&& d.new_files.len() <= e.new_files.len() <= d.new_files.len() + 1
            &&& e.new_files.len() > d.new_files.len() ==> p == d.new_files.len()
            &&& forall|i: int|
                0 <= i < d.new_files.len() && i != p ==> {
                    &&& #[trigger] e.new_files[i] == d.new_files[i]
                    &&& added_key(d.new_files[i]) != k
                }
            &&& p < d.new_files.len() ==> added_key(d.new_files[p]) == k
            &&& e.deleted == d.deleted.insert(k)
            &&& e.renamed == d.renamed.insert(k)
            &&& e.modified == d.modified.remove(k)
        }),
{
    broadcast use keys::key_has_parts;

    let e = renamed(d, vol, entry);
    let k = keys::key(vol, entry.file_id);
    assert(e.renamed =~= d.renamed.insert(k));
    assert(e.modified =~= d.modified.remove(k));
    if d.index.contains_key(k) {
        let p = d.index[k] as int;
        assert(added_key(d.new_files[p]) == k);
        assert forall|i: int| 0 <= i < d.new_files.len() && i != p implies {
            &&& #[trigger] e.new_files[i] == d.new_files[i]
            &&& added_key(d.new_files[i]) != k
        } by {
            assert(d.index[added_key(d.new_files[i])] == i);
        }
        p
    } else {
        assert forall|i: int| 0 <= i < d.new_files.len() implies {
            &&& #[trigger] e.new_files[i] == d.new_files[i]
            &&& added_key(d.new_files[i]) != k
        } by {
            assert(d.index.contains_key(added_key(d.new_files[i])));
        }
        d.new_files.len() as int
    }
}

/// Whether two lists are made from the same matched files, and the changes `d` pass the query
/// for the one as for the other.
pub open spec fn alike(s: Scene, t: Scene, d: DeltaModel) -> bool {
    &&& t.matched == s.matched
    &&& forall|p: u32| #[trigger]
        volume_map::file_at(t.shelf, p) == volume_map::file_at(s.shelf, p)
    &&& forall|i: int|
        0 <= i < d.new_files.len() ==> t.takes(
            (#[trigger] d.new_files[i]).0,
            d.new_files[i].1,
        ) == s.takes(d.new_files[i].0, d.new_files[i].1)
    &&& forall|k: u64| #[trigger]
        d.modified.contains_key(k) ==> t.takes(keys::volume_in(k), d.modified[k]) == s.takes(
            keys::volume_in(k),
            d.modified[k],
        )
}

/// When a file is renamed, the result list has one row for it, where the query takes it, and
/// as many for the others as before.
pub proof fn renaming_counts(s: Scene, t: Scene, d: DeltaModel, vol: u8, entry: FileEntry)
    requires
        alike(s, t, d),
        s.matched.len() <= u32::MAX,
        d.is_indexed(),
        d.new_files.len() < usize::MAX,
        s == s.with_delta(d),
        t == t.with_delta(renamed(d, vol, entry)),
    ensures
        t.rows_of_file(keys::key(vol, entry.file_id)) == (if t.takes(vol, entry) {
            1nat
        } else {
            0
        }),
        t.rows_of_others(keys::key(vol, entry.file_id)) == s.rows_of_others(
            keys::key(vol, entry.file_id),
        ),
{
    broadcast use keys::key_has_parts;

    let k = keys::key(vol, entry.file_id);
    let p = renamed_is_added(d, vol, entry);
    let (n, m) = (s.matched.len(), t.new_files.len());
    assert forall|i: int| 0 <= i < n implies {
        &&& #[trigger] t.is_matched_key(i, k) == s.is_matched_key(i, k)
        &&& t.is_matched_key(i, k) ==> !t.shows_matched(i)
        &&& !t.is_matched_key(i, k) ==> t.shows_matched(i) == s.shows_matched(i)
    } by {
        assert(volume_map::file_at(t.shelf, s.matched[i]) == volume_map::file_at(
            s.shelf,
            s.matched[i],
        ));
    }
    count_none(n, |i: int| t.shows_matched(i) && t.is_matched_key(i, k));
    count_same(
        n,
        |i: int| t.shows_matched(i) && !t.is_matched_key(i, k),
        |i: int| s.shows_matched(i) && !s.is_matched_key(i, k),
    );
    let own = |i: int| t.shows_added(i) && added_key(t.new_files[i]) == k;
    assert forall|i: int| 0 <= i < m && i != p implies !#[trigger] own(i) by {
        assert(t.new_files[i] == d.new_files[i]);
    }
    assert(own(p) == t.takes(vol, entry));
    if t.takes(vol, entry) {
        count_one(m, own, p);
    } else {
        count_none(m, own);
    }
    let others = |i: int| t.shows_added(i) && added_key(t.new_files[i]) != k;
    let before = |i: int| s.shows_added(i) && added_key(s.new_files[i]) != k;
    assert forall|i: int| 0 <= i < d.new_files.len() implies #[trigger] others(i) == before(i) by {
        if i != p {
            assert(t.new_files[i] == d.new_files[i]);
        }
    }
    count_same(d.new_files.len(), others, before);
    if m > d.new_files.len() {
        assert(!others(m - 1));
    }
    let (a, b) = (t.changed_but(k), s.changed_but(k));
    assert forall|x: u64| #[trigger] a.contains(x) <==> b.contains(x) by {
        if s.modified.contains_key(x) && x != k {
            assert(d.modified.contains_key(x));
            assert(t.modified[x] == s.modified[x]);
            assert(keys::key(keys::volume_in(x), s.modified[x].file_id) == x);
        }
    }
    assert(a =~= b);
}

/// What a batch that renames one file leaves of the changes.
pub proof fn batch_renames(
    before: VolumeManager,
    after: VolumeManager,
    drive: Seq<char>,
    r: SearchResult,
    gone: (u64, String),
) -> (entry: FileEntry)
    requires
        before.took_up(after, drive, seq![r], seq![gone], seq![]),
        gone.0 as u32 == r.file_id,
        text::ascii_lower(gone.1@) != text::ascii_lower(r.path@),
    ensures
        entry == changes::entry_for(r, entry.path_id),
        entry == batches::added_entry(before.volumes@[drive].path_table@, seq![r], seq![], 0),
        after.changes() == renamed(before.changes(), before.volume_index@[drive], entry),
{
    let (added, removed) = (seq![r], seq![gone]);
    let updated = Seq::<(u64, SearchResult)>::empty();
    assert(seq![] =~= updated);
    delta_index::batch_changes(before, after, drive, added, removed, updated);
    let vol = before.volume_index@[drive];
    let m = before.volumes@[drive];
    let t = m.path_table@;
    let index = m.ready_index();
    let none = |fid: u32| false;
    let d = before.changes();
    let results = incremental::results_of(updated);
    assert(results =~= seq![]);
    assert(incremental::updated_ids(updated) =~= seq![]);
    assert(changes::table_after(t, results) == t);
    let gone_ids = incremental::removed_ids(removed);
    assert(gone_ids =~= seq![r.file_id]);
    assert(gone_ids.drop_last() =~= seq![]);
    assert(added.drop_last() =~= seq![]);
    assert(removed.drop_last() =~= seq![]);
    let entries = changes::entries_for(t, added);
    let entry = entries[0];
    assert(entries =~= seq![entry]);
    assert(entries.drop_last() =~= seq![]);
    let passed_over = |fid: u32| incremental::came_and_went(added, removed, fid);
    assert(!passed_over(entry.file_id)) by {
        reveal_with_fuel(incremental::removed_path, 2);
        reveal_with_fuel(incremental::added_path, 2);
    }
    let k = keys::key(vol, r.file_id);
    let d1 = d.with_removal(false, k);
    assert(d.with_removals(vol, none, gone_ids.drop_last()) == d);
    assert(d.with_removals(vol, none, gone_ids) == d1);
    assert(d1.with_additions(vol, index, none, entries.drop_last(), passed_over) == d1);
    assert(d1.with_removal(false, k) =~= d1);
    assert(d1.with_additions(vol, index, none, entries, passed_over) == d1.with_new(
        vol,
        false,
        entry,
    ));
    entry
}

/// When a file is removed, the result list has no row for it and as many for the others as
/// before.
pub proof fn removal_counts_rows(s: Scene, t: Scene, d: DeltaModel, k: u64)
    requires
        alike(s, t, d),
        s.matched.len() <= u32::MAX,
        d.is_indexed(),
        s == s.with_delta(d),
        t == t.with_delta(d.with_removal(false, k)),
    ensures
        t.rows_of_file(k) == 0,
        t.rows_of_others(k) == s.rows_of_others(k),
{
    broadcast use keys::key_has_parts;

    let (n, m) = (s.matched.len(), s.new_files.len());
    assert forall|i: int| 0 <= i < n implies {
        &&& #[trigger] t.is_matched_key(i, k) == s.is_matched_key(i, k)
        &&& t.is_matched_key(i, k) ==> !t.shows_matched(i)
        &&& !t.is_matched_key(i, k) ==> t.shows_matched(i) == s.shows_matched(i)
    } by {
        assert(volume_map::file_at(t.shelf, s.matched[i]) == volume_map::file_at(
            s.shelf,
            s.matched[i],
        ));
    }
    count_none(n, |i: int| t.shows_matched(i) && t.is_matched_key(i, k));
    count_same(
        n,
        |i: int| t.shows_matched(i) && !t.is_matched_key(i, k),
        |i: int| s.shows_matched(i) && !s.is_matched_key(i, k),
    );
    count_none(m, |i: int| t.shows_added(i) && added_key(t.new_files[i]) == k);
    let others = |i: int| t.shows_added(i) && added_key(t.new_files[i]) != k;
    let before = |i: int| s.shows_added(i) && added_key(s.new_files[i]) != k;
    assert forall|i: int| 0 <= i < m implies #[trigger] others(i) == before(i) by {
        assert(t.new_files[i] == d.new_files[i]);
    }
    count_same(m, others, before);
    let (a, b) = (t.changed_but(k), s.changed_but(k));
    assert forall|x: u64| #[trigger] a.contains(x) <==> b.contains(x) by {
        if s.modified.contains_key(x) && x != k {
            assert(d.modified.contains_key(x));
            assert(t.modified[x] == s.modified[x]);
            assert(keys::key(keys::volume_in(x), s.modified[x].file_id) == x);
        }
    }
    assert(a =~= b);
}

/// What a batch leaves of the changes that creates one file and removes it again under the
/// same path: the file counts as removed, and none is added.
pub proof fn batch_vanishes(
    before: VolumeManager,
    after: VolumeManager,
    drive: Seq<char>,
    r: SearchResult,
    gone: (u64, String),
)
    requires
        before.took_up(after, drive, seq![r], seq![gone], seq![]),
        gone.0 as u32 == r.file_id,
        text::ascii_lower(gone.1@) == text::ascii_lower(r.path@),
    ensures
        after.changes() == before.changes().with_removal(
            false,
            keys::key(before.volume_index@[drive], r.file_id),
        ),
{
    let (added, removed) = (seq![r], seq![gone]);
    let updated = Seq::<(u64, SearchResult)>::empty();
    assert(seq![] =~= updated);
    delta_index::batch_changes(before, after, drive, added, removed, updated);
    let vol = before.volume_index@[drive];
    let m = before.volumes@[drive];
    let index = m.ready_index();
    let none = |fid: u32| false;
    let d = before.changes();
    let results = incremental::results_of(updated);
    assert(results =~= seq![]);
    assert(incremental::updated_ids(updated) =~= seq![]);
    let gone_ids = incremental::removed_ids(removed);
    assert(gone_ids =~= seq![r.file_id]);
    assert(gone_ids.drop_last() =~= seq![]);
    assert(added.drop_last() =~= seq![]);
    assert(removed.drop_last() =~= seq![]);
    let entries = changes::entries_for(changes::table_after(m.path_table@, results), added);
    assert(entries =~= seq![entries[0]]);
    assert(entries.drop_last() =~= seq![]);
    let passed_over = |fid: u32| incremental::came_and_went(added, removed, fid);
    assert(passed_over(entries[0].file_id)) by {
        reveal_with_fuel(incremental::removed_path, 2);
        reveal_with_fuel(incremental::added_path, 2);
    }
    let d1 = d.with_removal(false, keys::key(vol, r.file_id));
    assert(d.with_removals(vol, none, gone_ids.drop_last()) == d);
    assert(d.with_removals(vol, none, gone_ids) == d1);
    assert(d1.with_additions(vol, index, none, entries.drop_last(), passed_over) == d1);
    assert(d1.with_additions(vol, index, none, entries, passed_over) == d1);
}

/// What a batch that removes one file leaves of the changes.
pub proof fn batch_takes_out(
    before: VolumeManager,
    after: VolumeManager,
    drive: Seq<char>,
    gone: (u64, String),
)
    requires
        before.took_up(after, drive, seq![], seq![gone], seq![]),
    ensures
        after.changes() == before.changes().with_removal(
            false,
            keys::key(before.volume_index@[drive], gone.0 as u32),
        ),
{
    let removed = seq![gone];
    let added = Seq::<SearchResult>::empty();
    let updated = Seq::<(u64, SearchResult)>::empty();
    assert(added =~= seq![]);
    assert(updated =~= seq![]);
    delta_index::batch_changes(before, after, drive, added, removed, updated);
    let vol = before.volume_index@[drive];
    let m = before.volumes@[drive];
    let fid = gone.0 as u32;
    let none = |fid: u32| false;
    let d = before.changes();
    let results = incremental::results_of(updated);
    assert(results =~= seq![]);
    assert(incremental::updated_ids(updated) =~= seq![]);
    let gone_ids = incremental::removed_ids(removed);
    assert(gone_ids =~= seq![fid]);
    assert(gone_ids.drop_last() =~= seq![]);
    let entries = changes::entries_for(changes::table_after(m.path_table@, results), added);
    assert(entries =~= seq![]);
    let d1 = d.with_removal(false, keys::key(vol, fid));
    assert(d.with_removals(vol, none, gone_ids.drop_last()) == d);
    assert(d.with_removals(vol, none, gone_ids) == d1);
}

} // verus!
