//! Walking a volume again: which files stayed, changed, came and went.

use crate::changes;
use crate::changes::register_path;
use crate::path_table::TableModel;
use crate::remapping::IncrementalResult;
use crate::search::FileEntry;
use crate::text;
use crate::text::decimal_text;
use crate::volume_monitor::VolumeMonitor;
use crate::walking::Walked;
use vstd::hash_map::StringHashMap;
use vstd::prelude::*;

verus! {

broadcast use vstd::string::group_string_axioms;

/// The last place at which a file of this name stands in the directory `path_id`.
pub open spec fn place_in(files: Seq<FileEntry>, path_id: u32, name: Seq<char>) -> Option<int>
    decreases files.len(),
{
    if files.len() == 0 {
        None
    } else if files.last().path_id == path_id && files.last().name@ == name {
        Some(files.len() - 1)
    } else {
        place_in(files.drop_last(), path_id, name)
    }
}

/// A place that was found holds a file of that name and directory.
pub proof fn place_in_holds(files: Seq<FileEntry>, path_id: u32, name: Seq<char>)
    ensures
        place_in(files, path_id, name) matches Some(i) ==> {
            &&& 0 <= i < files.len()
            &&& files[i].path_id == path_id
            &&& files[i].name@ == name
        },
    decreases files.len(),
{
    if files.len() > 0 {
        place_in_holds(files.drop_last(), path_id, name);
    }
}

/// A file that is exchanged for one of the same name and directory is found where it was.
proof fn place_in_exchanged(
    files: Seq<FileEntry>,
    i: int,
    f: FileEntry,
    path_id: u32,
    name: Seq<char>,
)
    requires
        0 <= i < files.len(),
        f.path_id == files[i].path_id,
        f.name@ == files[i].name@,
    ensures
        place_in(files.update(i, f), path_id, name) == place_in(files, path_id, name),
    decreases files.len(),
{
    let after = files.update(i, f);
    if i < files.len() - 1 {
        assert(after.drop_last() =~= files.drop_last().update(i, f));
        place_in_exchanged(files.drop_last(), i, f, path_id, name);
    } else {
        assert(after.drop_last() =~= files.drop_last());
    }
}

/// The text under which a file is looked up: its directory's number, a slash, its name.
spec fn key_of(path_id: u32, name: Seq<char>) -> Seq<char> {
    text::decimal(path_id as nat) + seq!['/'] + name
}

/// Different files are looked up under different texts.
proof fn keys_differ(a: u32, x: Seq<char>, b: u32, y: Seq<char>)
    requires
        key_of(a, x) == key_of(b, y),
    ensures
        a == b,
        x == y,
{
    let p = text::decimal(a as nat);
    let q = text::decimal(b as nat);
    let k = key_of(a, x);
    let l = key_of(b, y);
    text::decimal_reads_back(a as nat);
    text::decimal_reads_back(b as nat);
    assert(k[p.len() as int] == '/');
    assert(l[q.len() as int] == '/');
    if p.len() < q.len() {
        assert(l[p.len() as int] == q[p.len() as int]);
        assert(text::is_digit(q[p.len() as int]));
    } else if q.len() < p.len() {
        assert(k[q.len() as int] == p[q.len() as int]);
        assert(text::is_digit(p[q.len() as int]));
    }
    assert(k.take(p.len() as int) =~= p);
    assert(l.take(p.len() as int) =~= q);
    assert(k.skip(p.len() as int + 1) =~= x);
    assert(l.skip(p.len() as int + 1) =~= y);
}

/// The text under which a file is looked up.
fn key_text(path_id: u32, name: &str) -> (r: String)
    ensures
        r@ == key_of(path_id, name@),
{
    let mut r = decimal_text(path_id as u64);
    r.push('/');
    r.append(name);
    assert(r@ =~= key_of(path_id, name@));
    r
}

/// Whether `known` gives the place of every file.
spec fn gives_places(known: Map<Seq<char>, usize>, files: Seq<FileEntry>) -> bool {
    forall|path_id: u32, name: Seq<char>|
        #![trigger place_in(files, path_id, name)]
        match place_in(files, path_id, name) {
            Some(i) => known.contains_key(key_of(path_id, name)) && known[key_of(path_id, name)]
                == i,
            None => !known.contains_key(key_of(path_id, name)),
        }
}

/// A file that is added is known from then on.
proof fn place_of_added(known: Map<Seq<char>, usize>, files: Seq<FileEntry>, f: FileEntry, at: usize)
    requires
        gives_places(known, files),
        at == files.len(),
    ensures
        gives_places(known.insert(key_of(f.path_id, f.name@), at), files.push(f)),
{
    let after = files.push(f);
    let map = known.insert(key_of(f.path_id, f.name@), at);
    assert(after.drop_last() =~= files);
    assert forall|path_id: u32, name: Seq<char>|
        #![trigger place_in(after, path_id, name)]
        match place_in(after, path_id, name) {
            Some(i) => map.contains_key(key_of(path_id, name)) && map[key_of(path_id, name)] == i,
            None => !map.contains_key(key_of(path_id, name)),
        } by {
        assert(place_in(files, path_id, name) == place_in(files, path_id, name));
        if key_of(path_id, name) == key_of(f.path_id, f.name@) {
            keys_differ(path_id, name, f.path_id, f.name@);
        }
    }
}

/// A volume while it is walked again.
#[verifier::ext_equal]
pub struct RewalkModel {
    pub files: Seq<FileEntry>,
    pub table: TableModel,
    /// For each file whether the walk met it.
    pub visited: Seq<bool>,
    pub added: nat,
    pub updated: usize,
}

impl RewalkModel {
    /// After one more entry. One that is known is marked, and exchanged where its size
    /// or time changed; any other is added.
    pub open spec fn with_entry(
        self,
        include_hidden: bool,
        include_system: bool,
        e: Walked,
        now: i64,
    ) -> RewalkModel {
        if e.is_skipped(include_hidden, include_system) {
            self
        } else {
            let (table, id) = changes::registered(self.table, e.path@, e.is_directory());
            match place_in(self.files, id, e.name@) {
                Some(i) => {
                    let visited = self.visited.update(i, true);
                    if self.files[i].modified_time != e.time(now) as i32 || self.files[i].size
                        != e.size() {
                        RewalkModel {
                            files: self.files.update(
                                i,
                                e.entry(id, now, self.files[i].file_id),
                            ),
                            table,
                            visited,
                            added: self.added,
                            updated: if self.updated < usize::MAX {
                                (self.updated + 1) as usize
                            } else {
                                self.updated
                            },
                        }
                    } else {
                        RewalkModel { table, visited, ..self }
                    }
                },
                None => RewalkModel {
                    files: self.files.push(e.entry(id, now, self.files.len() as u32)),
                    table,
                    visited: self.visited.push(true),
                    added: self.added + 1,
                    updated: self.updated,
                },
            }
        }
    }

    /// After the entries in turn.
    pub open spec fn with_entries(
        self,
        include_hidden: bool,
        include_system: bool,
        entries: Seq<Walked>,
        now: i64,
    ) -> RewalkModel
        decreases entries.len(),
    {
        if entries.len() == 0 {
            self
        } else {
            self.with_entries(include_hidden, include_system, entries.drop_last(), now).with_entry(
                include_hidden,
                include_system,
                entries.last(),
                now,
            )
        }
    }
}

/// How many of the first `n` files were met.
pub open spec fn met_before(visited: Seq<bool>, n: int) -> nat
    decreases n,
{
    if n <= 0 {
        0
    } else {
        met_before(visited, n - 1) + if visited[n - 1] {
            1nat
        } else {
            0nat
        }
    }
}

/// The files that were met.
pub open spec fn met_files(files: Seq<FileEntry>, visited: Seq<bool>) -> Seq<FileEntry>
    decreases files.len(),
{
    if files.len() == 0 {
        seq![]
    } else if visited[files.len() - 1] {
        met_files(files.drop_last(), visited).push(files.last())
    } else {
        met_files(files.drop_last(), visited)
    }
}

/// The files with ids in the order of their places.
pub open spec fn renumbered(files: Seq<FileEntry>) -> Seq<FileEntry> {
    files.map(|i: int, f: FileEntry| FileEntry { file_id: i as u32, ..f })
}

/// As many files were met as are counted.
proof fn met_len(files: Seq<FileEntry>, visited: Seq<bool>)
    ensures
        met_files(files, visited).len() == met_before(visited, files.len() as int),
        met_files(files, visited).len() <= files.len(),
    decreases files.len(),
{
    if files.len() > 0 {
        met_len(files.drop_last(), visited);
    }
}

/// Every file that was met stands at the place it is moved to.
pub proof fn met_file_has_place(files: Seq<FileEntry>, visited: Seq<bool>, i: int)
    requires
        0 <= i < files.len(),
        visited[i],
    ensures
        met_before(visited, i) < met_files(files, visited).len(),
        met_files(files, visited)[met_before(visited, i) as int] == files[i],
    decreases files.len(),
{
    let init = files.drop_last();
    met_len(init, visited);
    if i < init.len() {
        assert(init[i] == files[i]);
        met_file_has_place(init, visited, i);
    }
}

/// Files that were met keep their order, so that no two are moved to the same place.
pub proof fn met_files_keep_order(visited: Seq<bool>, i: int, j: int)
    requires
        0 <= i < j,
        visited[i],
    ensures
        met_before(visited, i) < met_before(visited, j),
    decreases j,
{
    if i < j - 1 {
        met_files_keep_order(visited, i, j - 1);
    }
}

/// What a walk that is repeated keeps account of.
pub struct Rewalk {
    known: StringHashMap<usize>,
    visited: Vec<bool>,
    added: usize,
    updated: usize,
}

impl VolumeMonitor {
    /// The volume while it is walked again.
    pub closed spec fn rewalk_model(&self, w: Rewalk) -> RewalkModel {
        RewalkModel {
            files: self.files@,
            table: self.path_table@,
            visited: w.visited@,
            added: w.added as nat,
            updated: w.updated,
        }
    }

    /// Whether the account fits the volume.
    pub closed spec fn rewalks(&self, w: Rewalk) -> bool {
        &&& w.visited@.len() == self.files@.len()
        &&& w.added <= self.files@.len()
        &&& forall|i: int|
            self.files@.len() - w.added <= i < self.files@.len() ==> #[trigger] w.visited@[i]
        &&& gives_places(w.known@, self.files@)
    }

    /// Begins to walk the volume again.
    pub fn begin_rewalk(&self) -> (w: Rewalk)
        ensures
            self.rewalks(w),
            self.rewalk_model(w) == (RewalkModel {
                files: self.files@,
                table: self.path_table@,
                visited: Seq::new(self.files@.len(), |i: int| false),
                added: 0,
                updated: 0,
            }),
    {
        let ghost files = self.files@;
        let mut known: StringHashMap<usize> = StringHashMap::new();
        let mut visited: Vec<bool> = Vec::new();
        let mut i: usize = 0;
        assert(files.take(0) =~= seq![]);
        while i < self.files.len()
            invariant
                i <= files.len(),
                files == self.files@,
                gives_places(known@, files.take(i as int)),
                visited@ =~= Seq::new(i as nat, |k: int| false),
            decreases files.len() - i,
        {
            let f = &self.files[i];
            proof {
                place_of_added(known@, files.take(i as int), files[i as int], i);
                assert(files.take(i as int).push(files[i as int]) =~= files.take(i + 1));
            }
            known.insert(key_text(f.path_id, f.name.as_str()), i);
            visited.push(false);
            i += 1;
        }
        assert(files.take(i as int) =~= files);
        let w = Rewalk { known, visited, added: 0, updated: 0 };
        assert(self.rewalk_model(w) =~= (RewalkModel {
            files: self.files@,
            table: self.path_table@,
            visited: Seq::new(self.files@.len(), |i: int| false),
            added: 0,
            updated: 0,
        }));
        w
    }

    /// Takes up an entry that the repeated walk meets, and gives how many were added or
    /// changed so far, up to what the machine can count.
    pub fn rewalk_entry(&mut self, w: &mut Rewalk, e: &Walked, now: i64) -> (r: usize)
        requires
            old(self).rewalks(*old(w)),
        ensures
            final(self).rewalks(*final(w)),
            final(self).rewalk_model(*final(w)) == old(self).rewalk_model(*old(w)).with_entry(
                old(self).include_hidden_files,
                old(self).include_system_files,
                *e,
                now,
            ),
            ({
                let m = final(self).rewalk_model(*final(w));
                r == crate::rows::least(m.added + m.updated, usize::MAX as int)
            }),
            *final(self) == (VolumeMonitor {
                files: final(self).files,
                path_table: final(self).path_table,
                ..*old(self)
            }),
    {
        if e.skipped(self.include_hidden_files, self.include_system_files) {
            return w.added.saturating_add(w.updated);
        }
        let ghost before = self.rewalk_model(*w);
        let ghost files = self.files@;
        let (size, is_directory, time) = e.read(now);
        let path_id: u32 = register_path(&mut self.path_table, e.path.as_str(), is_directory);
        let key = key_text(path_id, e.name.as_str());
        let at: Option<usize> = match w.known.get(key.as_str()) {
            Some(i) => Some(*i),
            None => None,
        };
        proof {
            place_in_holds(files, path_id, e.name@);
        }
        let ghost sought = place_in(files, path_id, e.name@);
        match at {
            Some(i) => {
                assert(sought == Some(i as int));
                w.visited.set(i, true);
                let stored: i32 = #[verifier::truncate]
                (time as i32);
                if self.files[i].modified_time != stored || self.files[i].size != size {
                    let file_id: u32 = self.files[i].file_id;
                    let f = FileEntry::new(
                        e.name.clone(),
                        path_id,
                        size,
                        time,
                        file_id,
                        is_directory,
                    );
                    proof {
                        assert forall|p: u32, n: Seq<char>|
                            #![trigger place_in(files.update(i as int, f), p, n)]
                            place_in(files.update(i as int, f), p, n) == place_in(
                                files,
                                p,
                                n,
                            ) by {
                            place_in_exchanged(files, i as int, f, p, n);
                        }
                    }
                    self.files[i] = f;
                    w.updated = w.updated.saturating_add(1);
                }
            },
            None => {
                assert(sought is None);
                let place: usize = self.files.len();
                let file_id: u32 = #[verifier::truncate]
                (place as u32);
                let f = FileEntry::new(e.name.clone(), path_id, size, time, file_id, is_directory);
                proof {
                    place_of_added(w.known@, files, f, place);
                }
                self.files.push(f);
                w.known.insert(key, place);
                w.visited.push(true);
                assert(w.added < self.files.len());
                w.added = w.added + 1;
            },
        }
        assert(self.rewalk_model(*w) =~= before.with_entry(
            old(self).include_hidden_files,
            old(self).include_system_files,
            *e,
            now,
        ));
        w.added.saturating_add(w.updated)
    }

    /// Ends a repeated walk: the files that it did not meet are gone, and the others are
    /// numbered anew.
    pub fn end_rewalk(&mut self, w: Rewalk) -> (r: IncrementalResult)
        requires
            old(self).rewalks(w),
        ensures
            ({
                let m = old(self).rewalk_model(w);
                let met = met_files(m.files, m.visited);
                &&& final(self).files@ == renumbered(met)
                &&& r.added == m.added
                &&& r.updated == m.updated
                &&& r.removed == m.files.len() - met.len()
                &&& r.total == met.len()
                &&& r.index_map@ == Seq::new(
                    m.files.len(),
                    |i: int|
                        if m.visited[i] {
                            Some(met_before(m.visited, i) as usize)
                        } else {
                            None
                        },
                )
                &&& r.new_file_indices@ == Seq::new(
                    m.added,
                    |k: int| met_before(m.visited, m.files.len() - m.added + k) as usize,
                )
            }),
            *final(self) == (VolumeMonitor {
                files: final(self).files,
                fid_index: None,
                ..*old(self)
            }),
    {
        let ghost m = self.rewalk_model(w);
        let ghost files = self.files@;
        let ghost visited = w.visited@;
        let old_len: usize = self.files.len();
        let first_new: usize = old_len - w.added;
        let mut index_map: Vec<Option<usize>> = Vec::new();
        let mut kept: Vec<FileEntry> = Vec::new();
        let mut fresh: Vec<usize> = Vec::new();
        let mut i: usize = 0;
        assert(files.take(0) =~= seq![]);
        while i < self.files.len()
            invariant
                i <= files.len(),
                *self == *old(self),
                self.rewalks(w),
                files == self.files@,
                visited == w.visited@,
                visited.len() == files.len(),
                first_new == files.len() - w.added,
                first_new <= files.len(),
                met_before(visited, i as int) == met_files(files.take(i as int), visited).len(),
                kept@ =~= renumbered(met_files(files.take(i as int), visited)),
                kept@.len() <= i,
                index_map@ =~= Seq::new(
                    i as nat,
                    |k: int|
                        if visited[k] {
                            Some(met_before(visited, k) as usize)
                        } else {
                            None
                        },
                ),
                fresh@ =~= Seq::new(
                    if i <= first_new {
                        0
                    } else {
                        (i - first_new) as nat
                    },
                    |k: int| met_before(visited, first_new + k) as usize,
                ),
            decreases files.len() - i,
        {
            proof {
                let step = files.take(i + 1);
                assert(step.drop_last() =~= files.take(i as int));
                assert(step.last() == files[i as int]);
                met_len(step, visited);
            }
            if w.visited[i] {
                let place: usize = kept.len();
                if i >= first_new {
                    fresh.push(place);
                }
                index_map.push(Some(place));
                let f = &self.files[i];
                kept.push(
                    FileEntry {
                        name: f.name.clone(),
                        size: f.size,
                        path_id: f.path_id,
                        file_id: #[verifier::truncate] (place as u32),
                        modified_time: f.modified_time,
                        is_directory: f.is_directory,
                    },
                );
            } else {
                index_map.push(None);
            }
            i += 1;
        }
        assert(files.take(i as int) =~= files);
        let total: usize = kept.len();
        self.files = kept;
        self.fid_index = None;
        IncrementalResult {
            added: w.added,
            updated: w.updated,
            removed: old_len - total,
            total,
            index_map,
            new_file_indices: fresh,
        }
    }

    /// Walks the volume again, with all its entries at hand. A volume that is followed by
    /// its journal is left as it is.
    pub fn scan_incremental(&mut self, entries: &Vec<Walked>, now: i64) -> (r: IncrementalResult)
        ensures
            old(self).use_usn ==> {
                &&& *final(self) == *old(self)
                &&& r.added == 0 && r.updated == 0 && r.removed == 0
                &&& r.total == old(self).files@.len()
                &&& r.index_map@.len() == 0
                &&& r.new_file_indices@.len() == 0
            },
            !old(self).use_usn ==> {
                let m = (RewalkModel {
                    files: old(self).files@,
                    table: old(self).path_table@,
                    visited: Seq::new(old(self).files@.len(), |i: int| false),
                    added: 0,
                    updated: 0,
                }).with_entries(
                    old(self).include_hidden_files,
                    old(self).include_system_files,
                    entries@,
                    now,
                );
                let met = met_files(m.files, m.visited);
                &&& final(self).files@ == renumbered(met)
                &&& final(self).path_table@ == m.table
                &&& r.added == m.added
                &&& r.updated == m.updated
                &&& r.removed == m.files.len() - met.len()
                &&& r.total == met.len()
                &&& r.index_map@ == Seq::new(
                    m.files.len(),
                    |i: int|
                        if m.visited[i] {
                            Some(met_before(m.visited, i) as usize)
                        } else {
                            None
                        },
                )
                &&& r.new_file_indices@ == Seq::new(
                    m.added,
                    |k: int| met_before(m.visited, m.files.len() - m.added + k) as usize,
                )
                &&& *final(self) == (VolumeMonitor {
                    files: final(self).files,
                    path_table: final(self).path_table,
                    fid_index: None,
                    ..*old(self)
                })
            },
    {
        if self.use_usn {
            return IncrementalResult {
                added: 0,
                updated: 0,
                removed: 0,
                total: self.files.len(),
                index_map: Vec::new(),
                new_file_indices: Vec::new(),
            };
        }
        let mut w = self.begin_rewalk();
        let ghost start = self.rewalk_model(w);
        let mut i: usize = 0;
        assert(entries@.take(0) =~= seq![]);
        while i < entries.len()
            invariant
                i <= entries@.len(),
                self.rewalks(w),
                self.rewalk_model(w) == start.with_entries(
                    old(self).include_hidden_files,
                    old(self).include_system_files,
                    entries@.take(i as int),
                    now,
                ),
                *self == (VolumeMonitor {
                    files: self.files,
                    path_table: self.path_table,
                    ..*old(self)
                }),
            decreases entries@.len() - i,
        {
            proof {
                let step = entries@.take(i + 1);
                assert(step.drop_last() =~= entries@.take(i as int));
                assert(step.last() == entries@[i as int]);
            }
            self.rewalk_entry(&mut w, &entries[i], now);
            i += 1;
        }
        assert(entries@.take(i as int) =~= entries@);
        self.end_rewalk(w)
    }
}

} // verus!
