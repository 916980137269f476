//! Changes to a volume as they arrive: what each does to the cache of a search and
//! to the table of directories.

use crate::keys;
use crate::keys::{key_of, volume_of_key};
use crate::path_table;
use crate::path_table::{PathTable, TableModel};
use crate::search::{FileEntry, SearchResult};
use crate::search_cache::{DeltaCache, SearchCache};
use crate::seqs::keys_in_ascent;
use crate::sort_cache;
use crate::sort_cache::pack_matched;
use crate::text;
use crate::text::{chars_of, find_last, same_text, string_from};
use std::collections::{HashMap, HashSet};
use vstd::prelude::*;

verus! {

broadcast use {
    vstd::string::group_string_axioms,
    vstd::std_specs::hash::group_hash_axioms,
    vstd::std_specs::btree::group_btree_axioms,
    vstd::laws_cmp::group_laws_cmp,
};

/// Whether `p` takes at most two bytes in UTF-8, as the `C:` of a path does.
pub open spec fn is_drive_long(p: Seq<char>) -> bool {
    ||| p.len() == 0
    ||| p.len() == 1 && (p[0] as u32) < 0x800
    ||| p.len() == 2 && (p[0] as u32) < 0x80 && (p[1] as u32) < 0x80
}

/// The directory that a path lies in. Of a path right below a drive it is the drive
/// with its backslash; a path without a backslash lies in `X:\`.
pub open spec fn parent_dir(path: Seq<char>) -> Seq<char> {
    let cut = text::last_place(path, '\\');
    if cut < 0 {
        "X:\\"@
    } else if is_drive_long(path.take(cut)) {
        path.take(cut + 1)
    } else {
        path.take(cut)
    }
}

/// The directory that a path lies in.
pub fn parent_dir_of(full_path: &str) -> (r: String)
    ensures
        r@ == parent_dir(full_path@),
{
    let chars = chars_of(full_path);
    match find_last(&chars, '\\') {
        Some(cut) => {
            let short = cut == 0 || (cut == 1 && (chars[0] as u32) < 0x800) || (cut == 2 && (
            chars[0] as u32) < 0x80 && (chars[1] as u32) < 0x80);
            assert(short == is_drive_long(full_path@.take(cut as int)));
            assert(chars@.subrange(0, cut as int) =~= full_path@.take(cut as int));
            assert(chars@.subrange(0, cut + 1) =~= full_path@.take(cut + 1));
            if short {
                string_from(&chars, 0, cut + 1)
            } else {
                string_from(&chars, 0, cut)
            }
        },
        None => "X:\\".to_string(),
    }
}

/// The table with the directory of a file registered, and the directory's id; a
/// directory is itself registered too.
pub open spec fn registered(t: TableModel, path: Seq<char>, is_directory: bool) -> (TableModel, u32) {
    let (above, id) = t.interned(parent_dir(path));
    (
        if is_directory {
            above.interned(path).0
        } else {
            above
        },
        id,
    )
}

/// Registers the directory of a file, and a directory itself, and gives the id of the
/// directory that the file lies in.
pub fn register_path(table: &mut PathTable, path: &str, is_directory: bool) -> (id: u32)
    ensures
        final(table)@ == registered(old(table)@, path@, is_directory).0,
        id == registered(old(table)@, path@, is_directory).1,
{
    let parent = parent_dir_of(path);
    let id: u32 = table.intern(parent.as_str());
    if is_directory {
        table.intern(path);
    }
    id
}

/// The file to store for a result whose directory is `path_id`.
pub open spec fn entry_for(r: SearchResult, path_id: u32) -> FileEntry {
    FileEntry {
        name: r.name,
        size: r.size,
        path_id,
        file_id: r.file_id,
        modified_time: r.modified_time as i32,
        is_directory: r.is_directory,
    }
}

/// A file whose directory is registered is found under its path: every plain path that
/// names a directory comes out as it went in.
pub proof fn registered_file_has_path(t: TableModel, path: Seq<char>, is_directory: bool)
    requires
        t.sound(),
        path_table::is_plain(path),
        text::last_place(path, '\\') >= 0,
        path_table::depth(parent_dir(path)) <= path_table::MAX_DEPTH,
        t.entries.len() + path_table::depth(parent_dir(path)) + path_table::depth(path)
            <= u32::MAX,
    ensures
        ({
            let (grown, id) = registered(t, path, is_directory);
            let name = path.skip(text::last_place(path, '\\') + 1);
            &&& grown.file_path(id, name) == path
            &&& grown.sound()
            &&& grown.extends(t)
        }),
{
    text::last_place_is_last(path, '\\');
    let cut = text::last_place(path, '\\');
    let dir = parent_dir(path);
    let (above, id) = t.interned(dir);
    assert(cut > 0);
    assert(path_table::is_plain(dir)) by {
        assert forall|i: int| 0 <= i < dir.len() - 1 implies !(#[trigger] dir[i] == '\\' && dir[i
            + 1] == '\\') by {
            assert(dir[i] == path[i] && dir[i + 1] == path[i + 1]);
        }
    }
    path_table::interning_extends(t, dir);
    path_table::interned_path_reads_back(t, dir);
    assert(above.well_placed(dir));
    if is_directory {
        path_table::interning_extends(above, path);
        path_table::growing_keeps_paths(above, registered(t, path, is_directory).0, id);
    }
    let name = path.skip(cut + 1);
    assert(path[cut - 1] != '\\');
    assert(path =~= path_table::below(dir, name));
}

/// The table after the results' directories were registered in turn.
pub open spec fn table_after(t: TableModel, results: Seq<SearchResult>) -> TableModel
    decreases results.len(),
{
    if results.len() == 0 {
        t
    } else {
        registered(
            table_after(t, results.drop_last()),
            results.last().path@,
            results.last().is_directory,
        ).0
    }
}

/// The files to store for results whose directories are registered in turn.
pub open spec fn entries_for(t: TableModel, results: Seq<SearchResult>) -> Seq<FileEntry> {
    Seq::new(
        results.len(),
        |i: int|
            entry_for(
                results[i],
                registered(
                    table_after(t, results.take(i)),
                    results[i].path@,
                    results[i].is_directory,
                ).1,
            ),
    )
}

/// What changed since the volumes were scanned, and the count of matched files that are
/// shown.
#[verifier::ext_equal]
pub struct DeltaModel {
    pub new_files: Seq<(u8, FileEntry)>,
    pub index: Map<u64, usize>,
    pub deleted: Set<u64>,
    pub renamed: Set<u64>,
    pub modified: Map<u64, FileEntry>,
    pub count: Option<usize>,
}

/// Whether volume number `v` has the name `name`.
pub open spec fn is_volume(vol_names: Seq<String>, v: u8, name: Seq<char>) -> bool {
    v < vol_names.len() && vol_names[v as int]@ == name
}

/// Whether volume number `v` has the name `name`, where the volumes have these names.
pub open spec fn is_named(names: Seq<Seq<char>>, v: u8, name: Seq<char>) -> bool {
    v < names.len() && names[v as int] == name
}

/// Whether volume number `v` has the name `name`.
pub fn volume_is(vol_names: &Vec<String>, v: u8, name: &str) -> (r: bool)
    ensures
        r == is_volume(vol_names@, v, name@),
{
    (v as usize) < vol_names.len() && same_text(vol_names[v as usize].as_str(), name)
}

/// The places of added files by key; of two with the same key that of the later one.
pub open spec fn places_of_added(new_files: Seq<(u8, FileEntry)>) -> Map<u64, usize>
    decreases new_files.len(),
{
    if new_files.len() == 0 {
        Map::empty()
    } else {
        let e = new_files.last();
        places_of_added(new_files.drop_last()).insert(
            keys::key(e.0, e.1.file_id),
            (new_files.len() - 1) as usize,
        )
    }
}

impl DeltaModel {
    /// The same, where the shown files are not counted.
    pub open spec fn uncounted(self) -> DeltaModel {
        DeltaModel { count: None, ..self }
    }

    /// Whether the matched file with the key `k` is not shown.
    pub open spec fn hides(self, k: u64) -> bool {
        self.deleted.contains(k) || self.modified.contains_key(k)
    }

    /// Whether the file with the key `k` counts as removed and was not added again.
    pub open spec fn is_gone(self, k: u64) -> bool {
        self.deleted.contains(k) && !self.renamed.contains(k)
    }

    /// The count when a matched file is about to be hidden.
    pub open spec fn count_hiding(self, k: u64, in_base: bool) -> Option<usize> {
        match self.count {
            Some(n) => if in_base && !self.hides(k) && n > 0 {
                Some((n - 1) as usize)
            } else {
                Some(n)
            },
            None => None,
        }
    }

    /// The count when a matched file may be shown again, up to what the machine can
    /// count.
    pub open spec fn count_showing(self, k: u64, in_base: bool) -> Option<usize> {
        match self.count {
            Some(n) => if in_base && !self.hides(k) && n < usize::MAX {
                Some((n + 1) as usize)
            } else {
                Some(n)
            },
            None => None,
        }
    }

    /// After a file was changed. A file that was added, and is not gone, is changed where it
    /// was added; else one that its volume lists, as `known` says, counts as changed from
    /// then on.
    pub open spec fn with_update(
        self,
        known: bool,
        in_base: bool,
        k: u64,
        entry: FileEntry,
    ) -> DeltaModel {
        if known && !(self.index.contains_key(k) && !self.is_gone(k)) {
            DeltaModel {
                modified: self.modified.insert(k, entry),
                count: self.count_hiding(k, in_base),
                ..self
            }
        } else {
            self.with_added_changed(k, entry)
        }
    }

    /// After a file that was added changed; nothing where it was not added.
    pub open spec fn with_added_changed(self, k: u64, entry: FileEntry) -> DeltaModel {
        if self.index.contains_key(k) && self.index[k] < self.new_files.len() {
            let i = self.index[k] as int;
            DeltaModel { new_files: self.new_files.update(i, (self.new_files[i].0, entry)), ..self }
        } else {
            self
        }
    }

    /// After a file was removed.
    pub open spec fn with_removal(self, in_base: bool, k: u64) -> DeltaModel {
        DeltaModel {
            deleted: self.deleted.insert(k),
            renamed: self.renamed.remove(k),
            modified: self.modified.remove(k),
            count: self.count_hiding(k, in_base),
            ..self
        }
    }

    /// After a file of volume `vol` was added. One that was added before is replaced; one
    /// that its volume lists, as `known` says, or that was removed counts as renamed, so that
    /// no file stands twice.
    pub open spec fn with_addition(
        self,
        vol: u8,
        known: bool,
        in_base: bool,
        entry: FileEntry,
    ) -> DeltaModel {
        if known {
            self.with_removal(in_base, keys::key(vol, entry.file_id)).with_new(vol, in_base, entry)
        } else {
            self.with_new(vol, in_base, entry)
        }
    }

    /// After a file of volume `vol` was added that the volume does not list, or that was
    /// removed.
    pub open spec fn with_new(self, vol: u8, in_base: bool, entry: FileEntry) -> DeltaModel {
        let k = keys::key(vol, entry.file_id);
        let settled = DeltaModel {
            renamed: if self.deleted.contains(k) {
                self.renamed.insert(k)
            } else {
                self.renamed
            },
            modified: self.modified.remove(k),
            ..self
        };
        let counted = DeltaModel {
            count: if self.modified.contains_key(k) {
                settled.count_showing(k, in_base)
            } else {
                self.count
            },
            ..settled
        };
        if self.index.contains_key(k) {
            counted.with_added_changed(k, entry)
        } else {
            DeltaModel {
                index: self.index.insert(k, self.new_files.len() as usize),
                new_files: self.new_files.push((vol, entry)),
                ..counted
            }
        }
    }

    /// Without the changes of the volume `name`.
    pub open spec fn without(self, vol_names: Seq<String>, name: Seq<char>) -> DeltaModel {
        let new_files = self.new_files.filter(
            |e: (u8, FileEntry)| !is_volume(vol_names, e.0, name),
        );
        let stays = |k: u64| !is_volume(vol_names, keys::volume_in(k), name);
        DeltaModel {
            new_files,
            index: places_of_added(new_files),
            deleted: self.deleted.filter(stays),
            renamed: self.renamed.filter(stays),
            modified: self.modified.restrict(self.modified.dom().filter(stays)),
            count: self.count,
        }
    }

    /// Without the changes of the volume `name`, where the volumes have these names.
    pub open spec fn without_named(self, names: Seq<Seq<char>>, name: Seq<char>) -> DeltaModel {
        let new_files = self.new_files.filter(|e: (u8, FileEntry)| !is_named(names, e.0, name));
        let kept = |k: u64| !is_named(names, keys::volume_in(k), name);
        DeltaModel {
            new_files,
            index: places_of_added(new_files),
            deleted: self.deleted.filter(kept),
            renamed: self.renamed.filter(kept),
            modified: self.modified.restrict(self.modified.dom().filter(kept)),
            count: self.count,
        }
    }

    /// The packed positions of the added files that are not removed.
    pub open spec fn positions(self, i: int) -> Option<u32> {
        let e = self.new_files[i];
        if self.is_gone(keys::key(e.0, e.1.file_id)) {
            None
        } else {
            Some(sort_cache::packed(e.0, i as u32))
        }
    }

    /// The packed positions of the added files that are not removed.
    pub open spec fn matched(self) -> Seq<u32> {
        Seq::new(self.new_files.len(), |i: int| i).filter_map(|i: int| self.positions(i))
    }
}

/// What is left without a volume depends on the names alone.
pub proof fn without_by_name(d: DeltaModel, vol_names: Seq<String>, name: Seq<char>)
    ensures
        d.without(vol_names, name) == d.without_named(crate::query::strings(vol_names), name),
{
    let names = crate::query::strings(vol_names);
    assert((|e: (u8, FileEntry)| !is_volume(vol_names, e.0, name)) =~= (|e: (u8, FileEntry)|
        !is_named(names, e.0, name)));
    assert((|k: u64| !is_volume(vol_names, keys::volume_in(k), name)) =~= (|k: u64|
        !is_named(names, keys::volume_in(k), name)));
}

/// The keys of a set that are not of the volume `name`.
fn keys_elsewhere(set: &HashSet<u64>, vol_names: &Vec<String>, name: &str) -> (r: HashSet<u64>)
    ensures
        r@ == set@.filter(|k: u64| !is_volume(vol_names@, keys::volume_in(k), name@)),
{
    let mut r: HashSet<u64> = HashSet::new();
    let iter = set.iter();
    let ghost list = vstd::std_specs::iter::IteratorSpec::remaining(&iter);
    assert(list.unref().to_set() == set@);
    for k in it: iter
        invariant
            it.seq() == list,
            forall|x: u64| #[trigger]
                r@.contains(x) <==> !is_volume(vol_names@, keys::volume_in(x), name@) && exists|
                    i: int,
                |
                    0 <= i < it.index() && *#[trigger] list[i] == x,
    {
        let x: u64 = *k;
        assert(*list[it.index() as int] == x);
        if !volume_is(vol_names, volume_of_key(x), name) {
            r.insert(x);
        }
    }
    proof {
        assert forall|x: u64| (exists|i: int| 0 <= i < list.len() && *#[trigger] list[i] == x)
            <==> #[trigger] set@.contains(x) by {
            if set@.contains(x) {
                assert(list.unref().to_set().contains(x));
                let i = list.unref().index_of(x);
                assert(*list[i] == x);
            }
            if exists|i: int| 0 <= i < list.len() && *#[trigger] list[i] == x {
                let i = choose|i: int| 0 <= i < list.len() && *#[trigger] list[i] == x;
                assert(list.unref()[i] == x);
                assert(list.unref().contains(x));
                assert(list.unref().to_set().contains(x));
            }
        }
        assert(r@ =~= set@.filter(|k: u64| !is_volume(vol_names@, keys::volume_in(k), name@)));
    }
    r
}

impl DeltaCache {
    /// What changed, where `count` matched files are shown.
    pub open spec fn model(&self, count: Option<usize>) -> DeltaModel {
        DeltaModel {
            new_files: self.new_files@,
            index: self.file_id_index@,
            deleted: self.deleted_ids@,
            renamed: self.renamed_fids@,
            modified: self.modified@,
            count,
        }
    }

    /// Whether something changed.
    pub open spec fn has_changes(&self) -> bool {
        !(self.new_files@.len() == 0 && self.deleted_ids@.is_empty() && self.modified@.is_empty())
    }

    /// Forgets the changes.
    pub(crate) fn forget(&mut self)
        ensures
            final(self).is_clear(),
            final(self).generation == old(self).generation.wrapping_add(1),
    {
        self.new_files.clear();
        self.file_id_index.clear();
        self.deleted_ids.clear();
        self.renamed_fids.clear();
        self.modified.clear();
        self.matched.clear();
        self.generation = self.generation.wrapping_add(1);
    }

    /// Forgets the changes of the volume `name`.
    pub(crate) fn forget_volume(&mut self, vol_names: &Vec<String>, name: &str)
        ensures
            final(self).model(None) == old(self).model(None).without(vol_names@, name@),
            final(self).matched@ == final(self).model(None).matched(),
            final(self).generation == old(self).generation.wrapping_add(1),
    {
        let ghost before = self.model(None);
        let ghost new_files = self.new_files@;
        let ghost stays = |e: (u8, FileEntry)| !is_volume(vol_names@, e.0, name@);
        let mut kept: Vec<(u8, FileEntry)> = Vec::new();
        let mut index: HashMap<u64, usize> = HashMap::new();
        let mut i: usize = 0;
        proof {
            assert(new_files.take(0) =~= seq![]);
            reveal(Seq::filter);
            assert(kept@ =~= new_files.take(0).filter(stays));
        }
        while i < self.new_files.len()
            invariant
                i <= self.new_files@.len(),
                new_files == self.new_files@,
                *self == *old(self),
                stays == (|e: (u8, FileEntry)| !is_volume(vol_names@, e.0, name@)),
                kept@ == new_files.take(i as int).filter(stays),
                index@ == places_of_added(kept@),
            decreases self.new_files@.len() - i,
        {
            let ghost step = new_files.take(i + 1);
            proof {
                reveal(Seq::filter);
                assert(step.drop_last() =~= new_files.take(i as int));
                assert(step.last() == new_files[i as int]);
            }
            let vol: u8 = self.new_files[i].0;
            if !volume_is(vol_names, vol, name) {
                let ghost most = kept@;
                let entry = self.new_files[i].1.clone();
                index.insert(key_of(vol, entry.file_id), kept.len());
                kept.push((vol, entry));
                assert(kept@.drop_last() =~= most);
            }
            i += 1;
        }
        assert(new_files.take(i as int) =~= new_files);
        self.new_files = kept;
        self.file_id_index = index;
        self.deleted_ids = keys_elsewhere(&self.deleted_ids, vol_names, name);
        self.renamed_fids = keys_elsewhere(&self.renamed_fids, vol_names, name);
        let keys = keys_in_ascent(&self.modified);
        let ghost modified = self.modified@;
        let mut n: usize = 0;
        while n < keys.len()
            invariant
                n <= keys@.len(),
                keys@.to_set() == modified.dom(),
                self.modified@.dom().subset_of(modified.dom()),
                forall|k: u64| #[trigger]
                    self.modified@.contains_key(k) ==> self.modified@[k] == modified[k],
                forall|k: u64| #[trigger]
                    modified.contains_key(k) ==> (self.modified@.contains_key(k) <==> !(is_volume(
                        vol_names@,
                        keys::volume_in(k),
                        name@,
                    ) && exists|j: int| 0 <= j < n && #[trigger] keys@[j] == k)),
                *self == (DeltaCache { modified: self.modified, ..*self }),
                self.new_files == kept,
                self.file_id_index == index,
                self.deleted_ids@ == before.deleted.filter(
                    |k: u64| !is_volume(vol_names@, keys::volume_in(k), name@),
                ),
                self.renamed_fids@ == before.renamed.filter(
                    |k: u64| !is_volume(vol_names@, keys::volume_in(k), name@),
                ),
                self.generation == old(self).generation,
            decreases keys@.len() - n,
        {
            let k: u64 = keys[n];
            if volume_is(vol_names, volume_of_key(k), name) {
                self.modified.remove(&k);
            }
            n += 1;
        }
        proof {
            let after = before.without(vol_names@, name@);
            assert forall|k: u64| #[trigger] self.modified@.contains_key(k)
                <==> after.modified.contains_key(k) by {
                if modified.contains_key(k) {
                    assert(keys@.to_set().contains(k));
                    let j = keys@.index_of(k);
                    assert(keys@[j] == k);
                }
            }
            assert(self.modified@ =~= after.modified);
            assert(self.model(None) =~= after);
        }
        self.rebuild_matched();
    }

    /// Takes the added files that are not removed into the positions.
    pub(crate) fn rebuild_matched(&mut self)
        ensures
            *final(self) == (DeltaCache {
                matched: final(self).matched,
                generation: final(self).generation,
                ..*old(self)
            }),
            final(self).matched@ == old(self).model(None).matched(),
            final(self).generation == old(self).generation.wrapping_add(1),
    {
        let ghost d = self.model(None);
        let ghost all = Seq::new(d.new_files.len(), |i: int| i);
        let ghost position = |i: int| d.positions(i);
        let mut matched: Vec<u32> = Vec::new();
        let mut i: usize = 0;
        assert(all.take(0) =~= seq![]);
        while i < self.new_files.len()
            invariant
                i <= self.new_files@.len(),
                d == self.model(None),
                *self == *old(self),
                all == Seq::new(d.new_files.len(), |i: int| i),
                position == (|i: int| d.positions(i)),
                matched@ =~= all.take(i as int).filter_map(position),
            decreases self.new_files@.len() - i,
        {
            proof {
                all.lemma_filter_map_take_succ(position, i as int);
            }
            let e = &self.new_files[i];
            let k: u64 = key_of(e.0, e.1.file_id);
            if !self.deleted_ids.contains(&k) || self.renamed_fids.contains(&k) {
                matched.push(pack_matched(e.0, #[verifier::truncate] (i as u32)));
            }
            i += 1;
        }
        assert(all.take(i as int) =~= all);
        self.matched = matched;
        self.generation = self.generation.wrapping_add(1);
    }
}

impl SearchCache {
    /// What changed since the volumes were scanned, and how many matched files are shown.
    pub open spec fn delta_model(&self) -> DeltaModel {
        self.delta.model(self.active_base_count)
    }

    /// Whether nothing differs but what changed since the volumes were scanned.
    pub open spec fn same_but_delta(&self, other: SearchCache) -> bool {
        &&& self.query == other.query
        &&& self.files_only == other.files_only
        &&& self.directories_only == other.directories_only
        &&& self.created_at == other.created_at
        &&& self.base == other.base
        &&& self.base_file_bitvec == other.base_file_bitvec
        &&& self.delta.matched == other.delta.matched
        &&& self.delta.generation == other.delta.generation
    }

    /// Counts a matched file out that is about to be hidden.
    pub fn on_base_entry_hidden(&mut self, vol: u8, fid: u32)
        ensures
            *final(self) == (SearchCache {
                active_base_count: old(self).delta_model().count_hiding(
                    keys::key(vol, fid),
                    old(self).marks(vol, fid),
                ),
                ..*old(self)
            }),
    {
        if let Some(n) = self.active_base_count {
            if self.is_fid_in_base(vol, fid) && !self.hides(vol, fid) && n > 0 {
                self.active_base_count = Some(n - 1);
            }
        }
    }

    /// Counts a matched file in that may be shown again.
    pub fn on_base_entry_unhidden(&mut self, vol: u8, fid: u32)
        ensures
            *final(self) == (SearchCache {
                active_base_count: old(self).delta_model().count_showing(
                    keys::key(vol, fid),
                    old(self).marks(vol, fid),
                ),
                ..*old(self)
            }),
    {
        if let Some(n) = self.active_base_count {
            if self.is_fid_in_base(vol, fid) && !self.hides(vol, fid) {
                self.active_base_count = Some(n.saturating_add(1));
            }
        }
    }

    /// Forgets the count of shown files and the bits of matched file ids, because what
    /// was matched is about to change.
    pub fn invalidate_base_count(&mut self)
        ensures
            *final(self) == (SearchCache {
                active_base_count: None,
                base_file_bitvec: None,
                base: crate::search_cache::BaseCache {
                    matched_generation: old(self).base.matched_generation.wrapping_add(1),
                    ..old(self).base
                },
                ..*old(self)
            }),
    {
        self.active_base_count = None;
        self.base_file_bitvec = None;
        self.base.matched_generation = self.base.matched_generation.wrapping_add(1);
    }

    /// Changes a file where it was added.
    fn change_added(&mut self, k: u64, entry: FileEntry)
        ensures
            final(self).same_but_delta(*old(self)),
            final(self).delta_model() == old(self).delta_model().with_added_changed(k, entry),
    {
        let at: Option<usize> = match self.delta.file_id_index.get(&k) {
            Some(i) => Some(*i),
            None => None,
        };
        let ghost before = self.delta_model();
        if let Some(i) = at {
            if i < self.delta.new_files.len() {
                let vol: u8 = self.delta.new_files[i].0;
                self.delta.new_files[i] = (vol, entry);
            }
        }
        assert(self.delta_model() =~= before.with_added_changed(k, entry));
    }

    /// Takes up that a file was changed.
    pub fn note_update(&mut self, vol: u8, known: bool, fid: u32, entry: FileEntry)
        ensures
            final(self).same_but_delta(*old(self)),
            final(self).delta_model() == old(self).delta_model().with_update(
                known,
                old(self).marks(vol, fid),
                keys::key(vol, fid),
                entry,
            ),
    {
        let k: u64 = key_of(vol, fid);
        let added = self.delta.file_id_index.contains_key(&k) && (!self.delta.deleted_ids.contains(
            &k,
        ) || self.delta.renamed_fids.contains(&k));
        if known && !added {
            self.on_base_entry_hidden(vol, fid);
            self.delta.modified.insert(k, entry);
            assert(self.delta_model() =~= old(self).delta_model().with_update(
                known,
                old(self).marks(vol, fid),
                k,
                entry,
            ));
        } else {
            self.change_added(k, entry);
        }
    }

    /// Takes up that a file was removed.
    pub fn note_removal(&mut self, vol: u8, fid: u32)
        ensures
            final(self).same_but_delta(*old(self)),
            final(self).delta_model() == old(self).delta_model().with_removal(
                old(self).marks(vol, fid),
                keys::key(vol, fid),
            ),
    {
        let k: u64 = key_of(vol, fid);
        self.on_base_entry_hidden(vol, fid);
        self.delta.deleted_ids.insert(k);
        self.delta.modified.remove(&k);
        self.delta.renamed_fids.remove(&k);
        assert(self.delta_model() =~= old(self).delta_model().with_removal(
            old(self).marks(vol, fid),
            k,
        ));
    }

    /// Takes up that a file was added.
    pub fn note_addition(&mut self, vol: u8, known: bool, entry: FileEntry)
        ensures
            final(self).same_but_delta(*old(self)),
            final(self).delta_model() == old(self).delta_model().with_addition(
                vol,
                known,
                old(self).marks(vol, entry.file_id),
                entry,
            ),
    {
        let fid: u32 = entry.file_id;
        let k: u64 = key_of(vol, fid);
        if known {
            self.note_removal(vol, fid);
        }
        let ghost before = self.delta_model();
        assert(self.marks(vol, fid) == old(self).marks(vol, fid));
        if self.delta.deleted_ids.contains(&k) {
            self.delta.renamed_fids.insert(k);
        }
        let was_modified = self.delta.modified.remove(&k).is_some();
        if was_modified {
            self.on_base_entry_unhidden(vol, fid);
        }
        assert(self.delta_model().modified =~= before.modified.remove(k));
        if self.delta.file_id_index.contains_key(&k) {
            self.change_added(k, entry);
        } else {
            self.delta.file_id_index.insert(k, self.delta.new_files.len());
            self.delta.new_files.push((vol, entry));
        }
        assert(self.delta_model() =~= before.with_new(vol, old(self).marks(vol, fid), entry));
    }
}

} // verus!
