//! Building the list of a volume's files from the records of its file table, as they come.

use crate::mft_scan::ScanResult;
use crate::ntfs_time;
use crate::ntfs_time::ntfs_time_to_unix;
use crate::outside;
use crate::path_table;
use crate::path_table::{PathTable, TableModel};
use crate::search::{FileEntry, FileModel};
use crate::text;
use crate::text::{same_text, split_parts};
use std::collections::HashMap;
use vstd::prelude::*;

verus! {

broadcast use {
    vstd::string::group_string_axioms,
    vstd::std_specs::hash::group_hash_axioms,
};

/// How many directories a path is followed up.
pub const MAX_DIR_DEPTH: usize = 64;

/// What a scan takes up, and of which drive.
#[derive(Clone, Copy, Debug, PartialEq, Eq, Structural)]
pub struct ScanRules {
    pub drive_letter: char,
    pub include_hidden_files: bool,
    pub include_system_files: bool,
}

/// The names of the directories from the top down to record `cur`, where each is known,
/// up to `hops` of them. Names that lead nowhere are left out.
pub open spec fn dir_names(dirs: Map<u64, (u64, String)>, cur: u64, hops: nat) -> Option<
    Seq<Seq<char>>,
>
    decreases hops,
{
    if hops == 0 {
        Some(seq![])
    } else if !dirs.contains_key(cur) {
        None
    } else {
        let (parent, name) = dirs[cur];
        let own = if name@.len() == 0 || name@ == "."@ || name@ == ".."@ {
            seq![]
        } else {
            seq![name@]
        };
        if parent == cur || parent == 0 {
            Some(own)
        } else {
            match dir_names(dirs, parent, (hops - 1) as nat) {
                Some(above) => Some(above + own),
                None => None,
            }
        }
    }
}

/// Names with a backslash between each two.
pub open spec fn joined(names: Seq<Seq<char>>) -> Seq<char>
    decreases names.len(),
{
    if names.len() == 0 {
        seq![]
    } else if names.len() == 1 {
        names[0]
    } else {
        joined(names.drop_last()).push('\\') + names.last()
    }
}

/// The path of the directory of a record, by the directories that are known: the drive
/// alone for the root, record 5. None for record 0, nor where a directory above is not
/// known, nor where no name is left.
pub open spec fn dir_path(dirs: Map<u64, (u64, String)>, drive: char, record: u64) -> Option<
    Seq<char>,
> {
    if record == 0 {
        None
    } else if record == 5 {
        Some(seq![drive, ':'])
    } else {
        match dir_names(dirs, record, MAX_DIR_DEPTH as nat) {
            Some(names) => if names.len() == 0 {
                None
            } else {
                Some(seq![drive, ':', '\\'] + joined(names))
            },
            None => None,
        }
    }
}

/// The path of the directory of a record.
pub fn resolve_dir_path(
    target_record: u64,
    dir_map: &HashMap<u64, (u64, String)>,
    drive_letter: char,
) -> (r: Option<String>)
    ensures
        match dir_path(dir_map@, drive_letter, target_record) {
            Some(path) => r matches Some(p) && p@ == path,
            None => r is None,
        },
{
    if target_record == 0 {
        return None;
    }
    let mut path = String::new();
    path.push(drive_letter);
    path.push(':');
    if target_record == 5 {
        assert(path@ =~= seq![drive_letter, ':']);
        return Some(path);
    }
    let mut names: Vec<&String> = Vec::new();
    let mut cur: u64 = target_record;
    let mut hop: usize = 0;
    let ghost whole = dir_names(dir_map@, target_record, MAX_DIR_DEPTH as nat);
    assert(reversed(names@) =~= seq![]);
    assert(match whole {
        Some(w) => w + reversed(names@) == w,
        None => true,
    }) by {
        if whole is Some {
            assert(whole->0 + reversed(names@) =~= whole->0);
        }
    }
    while hop < MAX_DIR_DEPTH
        invariant_except_break
            hop <= MAX_DIR_DEPTH,
            whole is None <==> dir_names(dir_map@, cur, (MAX_DIR_DEPTH - hop) as nat) is None,
            whole is Some ==> whole->0 == dir_names(
                dir_map@,
                cur,
                (MAX_DIR_DEPTH - hop) as nat,
            )->0 + reversed(names@),
            whole == dir_names(dir_map@, target_record, MAX_DIR_DEPTH as nat),
            target_record != 0,
            target_record != 5,
        ensures
            whole == Some(reversed(names@)),
        decreases MAX_DIR_DEPTH - hop,
    {
        let ghost before = names@;
        match dir_map.get(&cur) {
            Some(entry) => {
                let ghost above = dir_names(dir_map@, entry.0, (MAX_DIR_DEPTH - hop - 1) as nat);
                let name = &entry.1;
                if !name.as_str().is_empty() && !same_text(name.as_str(), ".") && !same_text(
                    name.as_str(),
                    "..",
                ) {
                    names.push(name);
                    assert(reversed(names@) =~= seq![name@] + reversed(before));
                } else {
                    assert(reversed(names@) =~= Seq::<Seq<char>>::empty() + reversed(before));
                }
                if entry.0 == cur || entry.0 == 0 {
                    break ;
                }
                proof {
                    let own = dir_names(dir_map@, cur, (MAX_DIR_DEPTH - hop) as nat);
                    if above is Some {
                        assert(own->0 + reversed(before) =~= above->0 + reversed(names@));
                    }
                }
                cur = entry.0;
            },
            None => {
                return None;
            },
        }
        hop += 1;
        proof {
            if hop == MAX_DIR_DEPTH {
                assert(dir_names(dir_map@, cur, 0) == Some(Seq::<Seq<char>>::empty()));
                assert(Seq::<Seq<char>>::empty() + reversed(names@) =~= reversed(names@));
            }
        }
    }
    if names.len() == 0 {
        return None;
    }
    path.push('\\');
    let ghost start = path@;
    let n: usize = names.len();
    let mut i: usize = 0;
    let ghost down = reversed(names@);
    assert(down.take(0) =~= seq![]);
    assert(path@ =~= start + joined(down.take(0)));
    while i < n
        invariant
            i <= n,
            n == names@.len(),
            down == reversed(names@),
            path@ == start + joined(down.take(i as int)),
        decreases n - i,
    {
        let ghost before = path@;
        proof {
            let step = down.take(i + 1);
            assert(step.drop_last() =~= down.take(i as int));
            assert(step.last() == names@[n - 1 - i]@);
        }
        if i > 0 {
            path.push('\\');
        }
        path.append(names[n - 1 - i].as_str());
        assert(path@ =~= start + joined(down.take(i + 1)));
        i += 1;
    }
    assert(down.take(n as int) =~= down);
    assert(start =~= seq![drive_letter, ':', '\\']);
    Some(path)
}

/// The texts of strings from the last to the first.
spec fn reversed(names: Seq<&String>) -> Seq<Seq<char>> {
    Seq::new(names.len(), |i: int| names[names.len() - 1 - i]@)
}

/// Whether a part of a path leads to what a scan leaves out: the recycle bin, and the
/// volume information where system files are not asked for.
pub open spec fn is_excluded_part(part: Seq<char>, include_system: bool) -> bool {
    ||| outside::lowercased(part) == "$recycle.bin"@
    ||| !include_system && outside::lowercased(part) == "system volume information"@
}

/// Whether a path leads to what a scan leaves out.
pub open spec fn is_excluded(path: Seq<char>, include_system: bool) -> bool {
    exists|i: int|
        0 <= i < text::parts(path, '\\').len() && is_excluded_part(
            #[trigger] text::parts(path, '\\')[i],
            include_system,
        )
}

/// Whether a path leads to what a scan leaves out.
pub fn should_skip_path(path: &str, include_system: bool) -> (r: bool)
    ensures
        r == is_excluded(path@, include_system),
{
    let parts = split_parts(path, '\\');
    let ghost views = text::views(parts@);
    let mut i: usize = 0;
    while i < parts.len()
        invariant
            i <= parts@.len(),
            views == text::views(parts@),
            views == text::parts(path@, '\\'),
            forall|k: int|
                0 <= k < i ==> !is_excluded_part(#[trigger] views[k], include_system),
        decreases parts@.len() - i,
    {
        assert(views[i as int] == parts@[i as int]@);
        let lower = outside::to_lowercase(parts[i].as_str());
        if same_text(lower.as_str(), "$recycle.bin") || (!include_system && same_text(
            lower.as_str(),
            "system volume information",
        )) {
            assert(is_excluded_part(views[i as int], include_system));
            return true;
        }
        i += 1;
    }
    false
}

/// Whether a part of a path is the name of a special directory.
pub open spec fn is_special_part(part: Seq<char>) -> bool {
    part.len() > 1 && part[0] == '$'
}

/// Whether a path leads through a special directory.
pub open spec fn is_special(path: Seq<char>) -> bool {
    exists|i: int|
        0 <= i < text::parts(path, '\\').len() && is_special_part(
            #[trigger] text::parts(path, '\\')[i],
        )
}

/// Whether a text begins with a character.
fn begins_with_char(s: &str, c: char) -> (r: bool)
    ensures
        r == (s@.len() > 0 && s@[0] == c),
{
    s.unicode_len() > 0 && s.get_char(0) == c
}

/// Whether a path leads through a special directory.
fn has_special_part(path: &str) -> (r: bool)
    ensures
        r == is_special(path@),
{
    let parts = split_parts(path, '\\');
    let ghost views = text::views(parts@);
    let mut i: usize = 0;
    while i < parts.len()
        invariant
            i <= parts@.len(),
            views == text::views(parts@),
            views == text::parts(path@, '\\'),
            forall|k: int| 0 <= k < i ==> !is_special_part(#[trigger] views[k]),
        decreases parts@.len() - i,
    {
        assert(views[i as int] == parts@[i as int]@);
        let part = parts[i].as_str();
        if part.unicode_len() > 1 && begins_with_char(part, '$') {
            assert(is_special_part(views[i as int]));
            return true;
        }
        i += 1;
    }
    false
}

/// A file whose directory may not be known yet.
pub struct DeferredEntry {
    pub record_number: u64,
    pub parent_record: u64,
    pub name: String,
    pub is_dir: bool,
    pub mtime: i64,
    pub size: u64,
}

/// Where a file stands, by the directories that are known: its directory and its own
/// path. A file whose directory is record 0 or its own stands at the top.
pub open spec fn place_of(dirs: Map<u64, (u64, String)>, drive: char, e: DeferredEntry) -> Option<
    (Seq<char>, Seq<char>),
> {
    if e.parent_record == 0 || e.parent_record == e.record_number {
        let root = seq![drive, ':', '\\'];
        Some((root, root + e.name@))
    } else {
        match dir_path(dirs, drive, e.parent_record) {
            Some(dir) => Some((dir, dir.push('\\') + e.name@)),
            None => None,
        }
    }
}

/// The files and directories that were taken up so far, and those whose directories are
/// not known yet.
#[verifier::ext_equal]
pub struct FullScanModel {
    pub dirs: Map<u64, (u64, String)>,
    pub files: Seq<FileModel>,
    pub table: TableModel,
    pub deferred: Seq<DeferredEntry>,
}

/// The models of files.
pub open spec fn file_models(files: Seq<FileEntry>) -> Seq<FileModel> {
    files.map_values(|f: FileEntry| f@)
}

/// What a record tells of a file, to be taken up.
pub open spec fn entry_of(r: ScanResult) -> DeferredEntry {
    DeferredEntry {
        record_number: r.record_number,
        parent_record: r.parent_record,
        name: r.name,
        is_dir: r.is_directory,
        mtime: match r.mtime {
            Some(t) => if t > 0 {
                (ntfs_time::toward_zero((t as i64) as int, 10_000_000)
                    - ntfs_time::NTFS_EPOCH_DIFF) as i64
            } else {
                0
            },
            None => 0,
        },
        size: r.size,
    }
}

/// Whether a scan takes up the file of a record, wherever it stands.
pub open spec fn is_listed(r: ScanResult, rules: ScanRules) -> bool {
    &&& !(r.name@.len() > 0 && r.name@[0] == '$')
    &&& r.name@ != "."@
    &&& r.name@ != ".."@
    &&& rules.include_hidden_files || r.attributes & 0x02 == 0
    &&& rules.include_system_files || r.attributes & 0x04 == 0
}

impl FullScanModel {
    /// With a file taken up, where its directory is known; else it is put off, or left
    /// out. Its directory is registered even where the path is left out.
    pub open spec fn with_entry(self, rules: ScanRules, e: DeferredEntry, put_off: bool) -> FullScanModel {
        match place_of(self.dirs, rules.drive_letter, e) {
            None => if put_off {
                FullScanModel { deferred: self.deferred.push(e), ..self }
            } else {
                self
            },
            Some((dir, path)) => {
                let (table, id) = self.table.interned(dir);
                if is_excluded(path, rules.include_system_files) || is_special(path) {
                    FullScanModel { table, ..self }
                } else {
                    FullScanModel {
                        files: self.files.push(
                            FileModel {
                                name: e.name@,
                                size: e.size,
                                path_id: id,
                                file_id: e.record_number as u32,
                                modified_time: e.mtime as i32,
                                is_directory: e.is_dir,
                            },
                        ),
                        table: if e.is_dir {
                            table.interned(path).0
                        } else {
                            table
                        },
                        ..self
                    }
                }
            },
        }
    }

    /// With the file of a record taken up. The first records, which are the system's, and
    /// those without a name are passed over; every other directory is known from then on,
    /// even where it is not listed.
    pub open spec fn with_record(self, rules: ScanRules, r: ScanResult) -> FullScanModel {
        if r.record_number < 5 || (r.name@.len() > 0 && r.name@[0] == '<') {
            self
        } else {
            let known = FullScanModel {
                dirs: if r.is_directory {
                    self.dirs.insert(r.record_number, (r.parent_record, r.name))
                } else {
                    self.dirs
                },
                ..self
            };
            if is_listed(r, rules) {
                known.with_entry(rules, entry_of(r), true)
            } else {
                known
            }
        }
    }

    /// With files that were put off taken up in turn.
    pub open spec fn with_deferred(self, rules: ScanRules, entries: Seq<DeferredEntry>) -> FullScanModel
        decreases entries.len(),
    {
        if entries.len() == 0 {
            self
        } else {
            self.with_deferred(rules, entries.drop_last()).with_entry(
                rules,
                entries.last(),
                false,
            )
        }
    }
}

/// A file of size 0 with the size that is known for its record.
pub open spec fn with_size(f: FileModel, sizes: Map<u64, u64>) -> FileModel {
    if f.size == 0 && sizes.contains_key(f.file_id as u64) {
        FileModel { size: sizes[f.file_id as u64], ..f }
    } else {
        f
    }
}

/// A scan of a whole volume.
pub struct FullScan {
    pub rules: ScanRules,
    pub dirs: HashMap<u64, (u64, String)>,
    pub files: Vec<FileEntry>,
    pub table: PathTable,
    pub deferred: Vec<DeferredEntry>,
}

impl View for FullScan {
    type V = FullScanModel;

    open spec fn view(&self) -> FullScanModel {
        FullScanModel {
            dirs: self.dirs@,
            files: file_models(self.files@),
            table: self.table@,
            deferred: self.deferred@,
        }
    }
}

impl FullScan {
    /// A scan that has taken up nothing.
    pub fn new(rules: ScanRules) -> (r: Self)
        ensures
            r.rules == rules,
            r@.dirs == Map::<u64, (u64, String)>::empty(),
            r@.files == Seq::<FileModel>::empty(),
            r@.table == crate::path_table::empty_table(),
            r@.deferred == Seq::<DeferredEntry>::empty(),
    {
        let r = FullScan {
            rules,
            dirs: HashMap::new(),
            files: Vec::new(),
            table: PathTable::new(),
            deferred: Vec::new(),
        };
        assert(file_models(r.files@) =~= seq![]);
        r
    }

    /// Takes up the file of a record.
    pub fn take_record(&mut self, r: &ScanResult)
        ensures
            final(self)@ == old(self)@.with_record(old(self).rules, *r),
            final(self).rules == old(self).rules,
    {
        if r.record_number < 5 || begins_with_char(r.name.as_str(), '<') {
            return;
        }
        if r.is_directory {
            self.dirs.insert(r.record_number, (r.parent_record, r.name.clone()));
        }
        if begins_with_char(r.name.as_str(), '$') || same_text(r.name.as_str(), ".") || same_text(
            r.name.as_str(),
            "..",
        ) {
            return;
        }
        if (!self.rules.include_hidden_files && r.attributes & 0x02 != 0) || (
        !self.rules.include_system_files && r.attributes & 0x04 != 0) {
            return;
        }
        let e = DeferredEntry {
            record_number: r.record_number,
            parent_record: r.parent_record,
            name: r.name.clone(),
            is_dir: r.is_directory,
            mtime: ntfs_time_to_unix(r.mtime),
            size: r.size,
        };
        self.take_entry(&e, true);
    }

    /// Takes up a file where its directory is known; else puts it off or leaves it out.
    fn take_entry(&mut self, e: &DeferredEntry, put_off: bool)
        ensures
            final(self)@ == old(self)@.with_entry(old(self).rules, *e, put_off),
            final(self).rules == old(self).rules,
    {
        let ghost before = self@;
        let drive: char = self.rules.drive_letter;
        let mut path: String;
        let id: u32;
        if e.parent_record == 0 || e.parent_record == e.record_number {
            path = String::new();
            path.push(drive);
            path.push(':');
            path.push('\\');
            assert(path@ =~= seq![drive, ':', '\\']);
            id = self.table.intern(path.as_str());
        } else {
            match resolve_dir_path(e.parent_record, &self.dirs, drive) {
                Some(dir) => {
                    path = dir;
                    id = self.table.intern(path.as_str());
                    path.push('\\');
                },
                None => {
                    if put_off {
                        self.deferred.push(
                            DeferredEntry {
                                record_number: e.record_number,
                                parent_record: e.parent_record,
                                name: e.name.clone(),
                                is_dir: e.is_dir,
                                mtime: e.mtime,
                                size: e.size,
                            },
                        );
                    }
                    return;
                },
            }
        }
        path.append(e.name.as_str());
        if should_skip_path(path.as_str(), self.rules.include_system_files) || has_special_part(
            path.as_str(),
        ) {
            return;
        }
        if e.is_dir {
            self.table.intern(path.as_str());
        }
        let ghost files = self.files@;
        self.files.push(
            FileEntry::new(
                e.name.clone(),
                id,
                e.size,
                e.mtime,
                #[verifier::truncate] (e.record_number as u32),
                e.is_dir,
            ),
        );
        assert(file_models(self.files@) =~= file_models(files).push(self.files@.last()@));
    }

    /// Ends a scan: takes up the files that were put off, and gives the files of size 0 the
    /// sizes that are known for their records.
    pub fn finish(self, sizes: &HashMap<u64, u64>) -> (r: (Vec<FileEntry>, PathTable))
        ensures
            ({
                let done = self@.with_deferred(self.rules, self@.deferred);
                &&& file_models(r.0@) == done.files.map_values(
                    |f: FileModel| with_size(f, sizes@),
                )
                &&& r.1@ == done.table
            }),
    {
        let mut scan = self;
        let ghost start = self@;
        let mut entries: Vec<DeferredEntry> = Vec::new();
        std::mem::swap(&mut entries, &mut scan.deferred);
        let ghost all = entries@;
        let mut k: usize = 0;
        assert(all.take(0) =~= seq![]);
        while k < entries.len()
            invariant
                k <= all.len(),
                scan.rules == self.rules,
                entries@ == all,
                scan@.same_but_deferred(start.with_deferred(self.rules, all.take(k as int))),
            decreases all.len() - k,
        {
            let ghost before = scan@;
            let ghost model = start.with_deferred(self.rules, all.take(k as int));
            proof {
                let step = all.take(k + 1);
                assert(step.drop_last() =~= all.take(k as int));
                assert(step.last() == all[k as int]);
                entry_keeps_likeness(before, model, self.rules, all[k as int]);
            }
            scan.take_entry(&entries[k], false);
            k += 1;
        }
        assert(all.take(k as int) =~= all);
        let ghost done = start.with_deferred(self.rules, all);
        let ghost files = file_models(scan.files@);
        let ghost sized = |f: FileModel| with_size(f, sizes@);
        let mut i: usize = 0;
        while i < scan.files.len()
            invariant
                i <= scan.files@.len(),
                scan.files@.len() == files.len(),
                scan.table@ == done.table,
                sized == (|f: FileModel| with_size(f, sizes@)),
                forall|k: int|
                    0 <= k < i ==> (#[trigger] scan.files@[k])@ == sized(files[k]),
                forall|k: int|
                    i <= k < files.len() ==> (#[trigger] scan.files@[k])@ == files[k],
            decreases files.len() - i,
        {
            if scan.files[i].size == 0 {
                let record: u64 = scan.files[i].file_id as u64;
                if let Some(size) = sizes.get(&record) {
                    scan.files[i].size = *size;
                }
            }
            i += 1;
        }
        assert(file_models(scan.files@) =~= done.files.map_values(sized));
        (scan.files, scan.table)
    }
}

/// A file that a scan takes up is listed under its path: that of the directory it stands
/// in, a backslash and its name. The table keeps all that it holds.
pub proof fn listed_file_has_path(m: FullScanModel, rules: ScanRules, e: DeferredEntry, put_off: bool)
    requires
        m.table.sound(),
        place_of(m.dirs, rules.drive_letter, e) is Some,
        ({
            let (dir, path) = place_of(m.dirs, rules.drive_letter, e)->0;
            &&& !is_excluded(path, rules.include_system_files)
            &&& !is_special(path)
            &&& path_table::is_plain(dir)
            &&& dir.last() == '\\' ==> e.parent_record == 0 || e.parent_record == e.record_number
            &&& path_table::depth(dir) <= path_table::MAX_DEPTH
            &&& m.table.entries.len() + path_table::depth(dir) + path_table::depth(path)
                <= u32::MAX
        }),
    ensures
        ({
            let after = m.with_entry(rules, e, put_off);
            let (_, path) = place_of(m.dirs, rules.drive_letter, e)->0;
            &&& after.files.len() == m.files.len() + 1
            &&& after.table.file_path(after.files.last().path_id, after.files.last().name) == path
            &&& after.table.sound()
            &&& after.table.extends(m.table)
        }),
{
    let (dir, path) = place_of(m.dirs, rules.drive_letter, e)->0;
    let (table, id) = m.table.interned(dir);
    let after = m.with_entry(rules, e, put_off);
    path_table::interning_extends(m.table, dir);
    path_table::interned_path_reads_back(m.table, dir);
    assert(table.well_placed(dir));
    if e.is_dir {
        path_table::interning_extends(table, path);
        path_table::growing_keeps_paths(table, after.table, id);
    }
    assert(path =~= path_table::below(dir, e.name@));
}

impl FullScanModel {
    /// Whether nothing differs but the files that were put off.
    pub open spec fn same_but_deferred(self, other: FullScanModel) -> bool {
        &&& self.dirs == other.dirs
        &&& self.files == other.files
        &&& self.table == other.table
    }
}

/// Taking up a file that is not put off does not depend on those that are.
proof fn entry_keeps_likeness(
    a: FullScanModel,
    b: FullScanModel,
    rules: ScanRules,
    e: DeferredEntry,
)
    requires
        a.same_but_deferred(b),
    ensures
        a.with_entry(rules, e, false).same_but_deferred(b.with_entry(rules, e, false)),
{
}

} // verus!
