//! Building the list of a volume's files from an enumeration of its file table, where the
//! table itself cannot be read.

use crate::changes;
use crate::changes::register_path;
use crate::full_scan;
use crate::full_scan::{should_skip_path, ScanRules};
use crate::ntfs_time;
use crate::ntfs_time::{filetime_to_unix, usn_timestamp_to_unix};
use crate::outside::{par_sift, Sift};
use crate::path_table::{PathTable, TableModel};
use crate::search::{FileEntry, FileModel};
use crate::seqs;
use crate::text::same_text;
use crate::usn_records;
use crate::usn_records::{MftEntryWithTimestamp, MftModel};
use std::collections::HashMap;
use vstd::prelude::*;

verus! {

broadcast use {
    vstd::string::group_string_axioms,
    vstd::std_specs::hash::group_hash_axioms,
};

/// How many directories a path is followed up.
pub const MAX_PARENTS: usize = 50;

/// A file with its path.
pub struct LegacyEntry {
    pub fid: u64,
    pub name: String,
    pub path: String,
    pub is_dir: bool,
    /// When it was last changed, in seconds since 1970; 0 or less where that is not known.
    pub timestamp: i64,
}

/// A file with its path.
#[verifier::ext_equal]
pub struct LegacyModel {
    pub fid: u64,
    pub name: Seq<char>,
    pub path: Seq<char>,
    pub is_dir: bool,
    pub timestamp: i64,
}

impl View for LegacyEntry {
    type V = LegacyModel;

    open spec fn view(&self) -> LegacyModel {
        LegacyModel {
            fid: self.fid,
            name: self.name@,
            path: self.path@,
            is_dir: self.is_dir,
            timestamp: self.timestamp,
        }
    }
}

/// The last file with the id `fid`.
pub open spec fn file_of(raw: Seq<MftModel>, fid: u64) -> Option<MftModel>
    decreases raw.len(),
{
    if raw.len() == 0 {
        None
    } else if raw.last().fid == fid {
        Some(raw.last())
    } else {
        file_of(raw.drop_last(), fid)
    }
}

/// The names of the directories above a file, from the top down, as far as they are known
/// and up to `hops` of them. Names that lead nowhere are left out.
pub open spec fn names_above(raw: Seq<MftModel>, fid: u64, hops: nat) -> Seq<Seq<char>>
    decreases hops,
{
    match file_of(raw, fid) {
        Some(f) => {
            let p = f.parent_fid;
            match file_of(raw, p) {
                Some(dir) => if hops == 0 || p == fid || p == 0 {
                    seq![]
                } else {
                    names_above(raw, p, (hops - 1) as nat) + (if dir.file_name == "."@
                        || dir.file_name == ".."@ {
                        seq![]
                    } else {
                        seq![dir.file_name]
                    })
                },
                None => seq![],
            }
        },
        None => seq![],
    }
}

/// The path of a file.
pub open spec fn path_of(raw: Seq<MftModel>, drive: char, f: MftModel) -> Seq<char> {
    seq![drive, ':', '\\'] + full_scan::joined(
        names_above(raw, f.fid, MAX_PARENTS as nat).push(f.file_name),
    )
}

/// A file of the enumeration with its path, where a scan takes it up.
pub open spec fn entry_of(raw: Seq<MftModel>, rules: ScanRules, f: MftModel) -> Option<LegacyModel> {
    let path = path_of(raw, rules.drive_letter, f);
    if (f.file_name.len() > 0 && f.file_name[0] == '$') || (!rules.include_hidden_files
        && f.file_attributes & 0x02 != 0) || (!rules.include_system_files && f.file_attributes
        & 0x04 != 0) || full_scan::is_excluded(path, rules.include_system_files) {
        None
    } else {
        Some(
            LegacyModel {
                fid: f.fid,
                name: f.file_name,
                path,
                is_dir: f.file_attributes & 0x10 != 0,
                timestamp: ntfs_time::unix_seconds(f.timestamp),
            },
        )
    }
}

/// The files of the enumeration with their paths, as far as a scan takes them up.
pub open spec fn entries_of(raw: Seq<MftModel>, rules: ScanRules) -> Seq<LegacyModel> {
    raw.filter_map(|f: MftModel| entry_of(raw, rules, f))
}

/// Finds the paths of an enumeration.
struct Resolver<'a> {
    raw: &'a Vec<MftEntryWithTimestamp>,
    index: HashMap<u64, usize>,
    rules: ScanRules,
}

/// Whether `index` gives the last place of each id.
spec fn gives_places(index: Map<u64, usize>, raw: Seq<MftModel>) -> bool {
    forall|fid: u64|
        #![trigger file_of(raw, fid)]
        match file_of(raw, fid) {
            Some(f) => index.contains_key(fid) && index[fid] < raw.len() && raw[index[fid] as int]
                == f,
            None => !index.contains_key(fid),
        }
}

impl<'a> Resolver<'a> {
    /// Whether the index gives the last place of each id.
    spec fn wf(&self) -> bool {
        gives_places(self.index@, usn_records::mft_models(self.raw@))
    }

    /// Indexes the files by id.
    fn new(raw: &'a Vec<MftEntryWithTimestamp>, rules: ScanRules) -> (r: Resolver<'a>)
        ensures
            r.wf(),
            r.raw == raw,
            r.rules == rules,
    {
        let ghost models = usn_records::mft_models(raw@);
        let mut index: HashMap<u64, usize> = HashMap::new();
        let mut i: usize = 0;
        assert(models.take(0) =~= seq![]);
        while i < raw.len()
            invariant
                i <= raw@.len(),
                models == usn_records::mft_models(raw@),
                gives_places(index@, models.take(i as int)),
            decreases raw@.len() - i,
        {
            let ghost before = index@;
            index.insert(raw[i].fid, i);
            proof {
                let step = models.take(i + 1);
                assert(step.drop_last() =~= models.take(i as int));
                assert(step.last() == models[i as int]);
                assert forall|fid: u64|
                    #![trigger file_of(step, fid)]
                    match file_of(step, fid) {
                        Some(f) => index@.contains_key(fid) && index@[fid] < step.len()
                            && step[index@[fid] as int] == f,
                        None => !index@.contains_key(fid),
                    } by {
                    let was = file_of(models.take(i as int), fid);
                    if fid != models[i as int].fid && was is Some {
                        assert(models.take(i as int)[before[fid] as int] == step[before[fid] as int]);
                    }
                }
            }
            i += 1;
        }
        assert(models.take(i as int) =~= models);
        Resolver { raw, index, rules }
    }

    /// The last file with the id `fid`.
    fn file(&self, fid: u64) -> (r: Option<&'a MftEntryWithTimestamp>)
        requires
            self.wf(),
        ensures
            match file_of(usn_records::mft_models(self.raw@), fid) {
                Some(f) => r matches Some(e) && e@ == f,
                None => r is None,
            },
    {
        match self.index.get(&fid) {
            Some(i) => Some(&self.raw[*i]),
            None => None,
        }
    }

    /// The path of a file.
    fn path(&self, f: &MftEntryWithTimestamp) -> (r: String)
        requires
            self.wf(),
        ensures
            r@ == path_of(usn_records::mft_models(self.raw@), self.rules.drive_letter, f@),
    {
        let ghost models = usn_records::mft_models(self.raw@);
        let mut names: Vec<&str> = Vec::new();
        names.push(f.file_name.as_str());
        let mut cur: u64 = f.fid;
        let mut hop: usize = 0;
        let ghost whole = names_above(models, f.fid, MAX_PARENTS as nat).push(f.file_name@);
        assert(upward(names@) =~= seq![f.file_name@]);
        assert(names_above(models, cur, MAX_PARENTS as nat) + upward(names@) =~= whole);
        while hop < MAX_PARENTS
            invariant_except_break
                hop <= MAX_PARENTS,
                self.wf(),
                models == usn_records::mft_models(self.raw@),
                names_above(models, cur, (MAX_PARENTS - hop) as nat) + upward(names@) == whole,
            ensures
                upward(names@) == whole,
            decreases MAX_PARENTS - hop,
        {
            let ghost rest = names_above(models, cur, (MAX_PARENTS - hop) as nat);
            let ghost before = names@;
            let parent: u64 = match self.file(cur) {
                Some(e) => e.parent_fid,
                None => {
                    assert(rest + upward(names@) =~= upward(names@));
                    break ;
                },
            };
            if parent == cur || parent == 0 {
                assert(rest + upward(names@) =~= upward(names@));
                break ;
            }
            match self.file(parent) {
                Some(dir) => {
                    let name = dir.file_name.as_str();
                    if !same_text(name, ".") && !same_text(name, "..") {
                        names.push(name);
                        assert(upward(names@) =~= seq![name@] + upward(before));
                    } else {
                        assert(upward(names@) =~= Seq::<Seq<char>>::empty() + upward(before));
                    }
                    assert(rest + upward(before) =~= names_above(
                        models,
                        parent,
                        (MAX_PARENTS - hop - 1) as nat,
                    ) + upward(names@));
                },
                None => {
                    assert(rest + upward(names@) =~= upward(names@));
                    break ;
                },
            }
            cur = parent;
            hop += 1;
            proof {
                if hop == MAX_PARENTS {
                    assert(names_above(models, cur, 0) + upward(names@) =~= upward(names@));
                }
            }
        }
        let mut path = String::new();
        path.push(self.rules.drive_letter);
        path.push(':');
        path.push('\\');
        let ghost start = path@;
        assert(start =~= seq![self.rules.drive_letter, ':', '\\']);
        let n: usize = names.len();
        let mut i: usize = 0;
        assert(whole.take(0) =~= seq![]);
        assert(path@ =~= start + full_scan::joined(whole.take(0)));
        while i < n
            invariant
                i <= n,
                n == names@.len(),
                whole == upward(names@),
                path@ == start + full_scan::joined(whole.take(i as int)),
            decreases n - i,
        {
            proof {
                let step = whole.take(i + 1);
                assert(step.drop_last() =~= whole.take(i as int));
                assert(step.last() == names@[n - 1 - i]@);
            }
            if i > 0 {
                path.push('\\');
            }
            path.append(names[n - 1 - i]);
            assert(path@ =~= start + full_scan::joined(whole.take(i + 1)));
            i += 1;
        }
        assert(whole.take(n as int) =~= whole);
        path
    }
}

/// Texts from the last to the first.
spec fn upward(names: Seq<&str>) -> Seq<Seq<char>> {
    Seq::new(names.len(), |i: int| names[names.len() - 1 - i]@)
}

/// A resolver whose index is in order.
pub struct ReadyResolver<'a> {
    inner: Resolver<'a>,
}

impl<'a> ReadyResolver<'a> {
    /// The files of the enumeration.
    pub closed spec fn raw(&self) -> Seq<MftModel> {
        usn_records::mft_models(self.inner.raw@)
    }

    /// What a scan takes up.
    pub closed spec fn rules(&self) -> ScanRules {
        self.inner.rules
    }

    #[verifier::type_invariant]
    closed spec fn type_inv(&self) -> bool {
        self.inner.wf()
    }

    /// Indexes the files by id.
    pub fn new(raw: &'a Vec<MftEntryWithTimestamp>, rules: ScanRules) -> (r: ReadyResolver<'a>)
        ensures
            r.raw() == usn_records::mft_models(raw@),
            r.rules() == rules,
    {
        ReadyResolver { inner: Resolver::new(raw, rules) }
    }
}

impl<'a> Sift<MftEntryWithTimestamp, LegacyEntry, LegacyModel> for ReadyResolver<'a> {
    open spec fn model(&self, r: LegacyEntry) -> LegacyModel {
        r@
    }

    open spec fn finds(&self, i: int, x: MftEntryWithTimestamp) -> Option<LegacyModel> {
        entry_of(self.raw(), self.rules(), x@)
    }

    fn sift(&self, i: usize, x: &MftEntryWithTimestamp) -> (r: Option<LegacyEntry>) {
        proof {
            use_type_invariant(self);
        }
        let rules = self.inner.rules;
        if x.file_name.as_str().unicode_len() > 0 && x.file_name.as_str().get_char(0) == '$' {
            return None;
        }
        if (!rules.include_hidden_files && x.file_attributes & 0x02 != 0) || (
        !rules.include_system_files && x.file_attributes & 0x04 != 0) {
            return None;
        }
        let path = self.inner.path(x);
        if should_skip_path(path.as_str(), rules.include_system_files) {
            return None;
        }
        Some(
            LegacyEntry {
                fid: x.fid,
                name: x.file_name.clone(),
                path,
                is_dir: x.file_attributes & 0x10 != 0,
                timestamp: usn_timestamp_to_unix(x.timestamp),
            },
        )
    }
}

/// The models of files with their paths.
pub open spec fn legacy_models(v: Seq<LegacyEntry>) -> Seq<LegacyModel> {
    v.map_values(|e: LegacyEntry| e@)
}

/// The files of the enumeration with their paths, as far as a scan takes them up.
pub fn resolve_entries(raw: &Vec<MftEntryWithTimestamp>, rules: ScanRules) -> (r: Vec<LegacyEntry>)
    ensures
        legacy_models(r@) == entries_of(usn_records::mft_models(raw@), rules),
{
    let resolver = ReadyResolver::new(raw, rules);
    let r = par_sift(raw, &resolver);
    proof {
        let models = usn_records::mft_models(raw@);
        let g = |f: MftModel| entry_of(models, rules, f);
        seqs::filter_map_by_place(models, g);
        assert(r@.map_values(|v: LegacyEntry| resolver.model(v)) =~= legacy_models(r@));
        let by_place = |i: int| resolver.finds(i, raw@[i]);
        assert forall|i: int| 0 <= i < raw@.len() implies #[trigger] by_place(i) == g(models[i]) by {
        }
        seqs::filter_map_same(
            Seq::new(raw@.len(), |i: int| i),
            by_place,
            |i: int| g(models[i]),
        );
    }
    r
}

/// Size and time of a file by the halves in which the system tells of them; none where the
/// file is gone or may not be asked about.
pub fn metadata_from(
    size_high: u32,
    size_low: u32,
    time_high: u32,
    time_low: u32,
) -> (r: (u64, i64))
    ensures
        r.0 == size_high * 0x1_0000_0000 + size_low,
        r.1 == (time_high * 0x1_0000_0000 + time_low) / 10_000_000
            - crate::ntfs_time::NTFS_EPOCH_DIFF,
{
    (
        (size_high as u64) * 0x1_0000_0000 + (size_low as u64),
        filetime_to_unix(time_high, time_low),
    )
}

/// What the system tells of a file: size and time, or nothing. Directories have no size.
pub fn listed_metadata(is_dir: bool, found: Option<(u64, i64)>) -> (r: (u64, i64))
    ensures
        r == (match found {
            Some((size, time)) => (
                if is_dir {
                    0
                } else {
                    size
                },
                time,
            ),
            None => (0u64, 0i64),
        }),
{
    match found {
        Some((size, time)) => (
            if is_dir {
                0
            } else {
                size
            },
            time,
        ),
        None => (0, 0),
    }
}

/// Files and directories that were taken up so far.
#[verifier::ext_equal]
pub struct ListModel {
    pub files: Seq<FileModel>,
    pub table: TableModel,
}

impl ListModel {
    /// With one more file of the given size. Its time is that of the enumeration where it
    /// is known, else the given one.
    pub open spec fn with_entry(self, e: LegacyModel, size: u64, time: i64) -> ListModel {
        let (table, id) = changes::registered(self.table, e.path, e.is_dir);
        ListModel {
            files: self.files.push(
                FileModel {
                    name: e.name,
                    size,
                    path_id: id,
                    file_id: e.fid as u32,
                    modified_time: (if e.timestamp > 0 {
                        e.timestamp
                    } else {
                        time
                    }) as i32,
                    is_directory: e.is_dir,
                },
            ),
            table,
        }
    }

    /// With the files in turn.
    pub open spec fn with_entries(
        self,
        entries: Seq<LegacyModel>,
        metadata: Seq<(u64, i64)>,
    ) -> ListModel
        decreases entries.len(),
    {
        if entries.len() == 0 {
            self
        } else {
            self.with_entries(entries.drop_last(), metadata).with_entry(
                entries.last(),
                metadata[entries.len() - 1].0,
                metadata[entries.len() - 1].1,
            )
        }
    }
}

/// The files to store for an enumeration, with the sizes and times that the system tells
/// of them, and the table of their directories.
pub fn list_files(entries: &Vec<LegacyEntry>, metadata: &Vec<(u64, i64)>) -> (r: (
    Vec<FileEntry>,
    PathTable,
))
    requires
        metadata@.len() == entries@.len(),
    ensures
        ({
            let done = (ListModel {
                files: seq![],
                table: crate::path_table::empty_table(),
            }).with_entries(legacy_models(entries@), metadata@);
            full_scan::file_models(r.0@) == done.files && r.1@ == done.table
        }),
{
    let ghost models = legacy_models(entries@);
    let ghost start = ListModel { files: seq![], table: crate::path_table::empty_table() };
    let mut files: Vec<FileEntry> = Vec::new();
    let mut table = PathTable::new();
    let mut i: usize = 0;
    assert(models.take(0) =~= seq![]);
    assert(full_scan::file_models(files@) =~= seq![]);
    while i < entries.len()
        invariant
            i <= entries@.len(),
            metadata@.len() == entries@.len(),
            models == legacy_models(entries@),
            full_scan::file_models(files@) == start.with_entries(
                models.take(i as int),
                metadata@,
            ).files,
            table@ == start.with_entries(models.take(i as int), metadata@).table,
        decreases entries@.len() - i,
    {
        let ghost before = files@;
        proof {
            let step = models.take(i + 1);
            assert(step.drop_last() =~= models.take(i as int));
            assert(step.last() == models[i as int]);
        }
        let e = &entries[i];
        let (size, time) = metadata[i];
        let id: u32 = register_path(&mut table, e.path.as_str(), e.is_dir);
        files.push(
            FileEntry::new(
                e.name.clone(),
                id,
                size,
                if e.timestamp > 0 {
                    e.timestamp
                } else {
                    time
                },
                #[verifier::truncate] (e.fid as u32),
                e.is_dir,
            ),
        );
        assert(full_scan::file_models(files@) =~= full_scan::file_models(before).push(
            files@.last()@,
        ));
        i += 1;
    }
    assert(models.take(i as int) =~= models);
    (files, table)
}

} // verus!
