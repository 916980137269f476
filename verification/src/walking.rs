//! Walking a volume without its journal: what is taken up of the entries that a walk
//! of the directories meets, at first and when the walk is repeated.

use crate::changes;
use crate::changes::register_path;
use crate::path_table::TableModel;
use crate::search::FileEntry;
use crate::text;
use crate::text::{chars_of, ends_with_char, has_prefix, same_ignoring_ascii_case};
use crate::volume_monitor::VolumeMonitor;
use vstd::prelude::*;

verus! {

broadcast use vstd::string::group_string_axioms;

/// What the system tells of an entry besides its name and path.
#[derive(Clone, Copy, Debug, PartialEq, Eq, Structural)]
pub struct WalkedMetadata {
    pub attributes: u32,
    pub size: u64,
    pub is_directory: bool,
    /// When it was last changed, in seconds since 1970.
    pub modified: Option<i64>,
}

/// An entry that a walk meets.
pub struct Walked {
    pub name: String,
    pub path: String,
    pub metadata: Option<WalkedMetadata>,
}

/// A walk reports its progress each time that it has taken up this many entries.
pub const PROGRESS_STEP: usize = 5000;

/// Whether a walk reports its progress after `count` entries.
pub fn reports_progress(count: usize) -> (r: bool)
    ensures
        r == (count > 0 && count % PROGRESS_STEP == 0),
{
    count > 0 && count % PROGRESS_STEP == 0
}

/// Whether a walk goes on with an entry of this name, and below it.
pub open spec fn enters(include_hidden: bool, include_system: bool, name: Seq<char>) -> bool {
    &&& text::ascii_lower(name) != text::ascii_lower("$Recycle.Bin"@)
    &&& include_system || text::ascii_lower(name) != text::ascii_lower(
        "System Volume Information"@,
    )
    &&& include_hidden || !text::begins_with(name, "."@)
}

/// Whether a walk goes on with an entry of this name, and below it.
pub fn enters_name(include_hidden: bool, include_system: bool, name: &str) -> (r: bool)
    ensures
        r == enters(include_hidden, include_system, name@),
{
    if same_ignoring_ascii_case(name, "$Recycle.Bin") {
        return false;
    }
    if !include_system && same_ignoring_ascii_case(name, "System Volume Information") {
        return false;
    }
    let chars = chars_of(name);
    if !include_hidden && has_prefix(&chars, ".") {
        return false;
    }
    true
}

/// Whether an entry with these attributes is passed over: a hidden one, bit 1, or one of
/// the system, bit 2, where those are not asked for.
pub open spec fn skips_attributes(include_hidden: bool, include_system: bool, attributes: u32) -> bool {
    ||| !include_hidden && attributes & 0x2 != 0
    ||| !include_system && attributes & 0x4 != 0
}

/// Whether an entry with these attributes is passed over.
pub fn should_skip_by_attr(include_hidden: bool, include_system: bool, attributes: u32) -> (r: bool)
    ensures
        r == skips_attributes(include_hidden, include_system, attributes),
{
    (!include_hidden && attributes & 0x2 != 0) || (!include_system && attributes & 0x4 != 0)
}

impl Walked {
    /// Whether the entry is passed over.
    pub open spec fn is_skipped(&self, include_hidden: bool, include_system: bool) -> bool {
        self.metadata matches Some(m) && skips_attributes(
            include_hidden,
            include_system,
            m.attributes,
        )
    }

    /// The size of the entry; 0 where it is not known.
    pub open spec fn size(&self) -> u64 {
        match self.metadata {
            Some(m) => m.size,
            None => 0,
        }
    }

    /// Whether the entry is known to be a directory.
    pub open spec fn is_directory(&self) -> bool {
        self.metadata matches Some(m) && m.is_directory
    }

    /// When the entry was last changed; `now` where it is not known.
    pub open spec fn time(&self, now: i64) -> i64 {
        match self.metadata {
            Some(m) => match m.modified {
                Some(t) => t,
                None => now,
            },
            None => now,
        }
    }

    /// The file to store for the entry.
    pub open spec fn entry(&self, path_id: u32, now: i64, file_id: u32) -> FileEntry {
        FileEntry {
            name: self.name,
            size: self.size(),
            path_id,
            file_id,
            modified_time: self.time(now) as i32,
            is_directory: self.is_directory(),
        }
    }

    /// The size, whether it is a directory, and when it was last changed.
    pub(crate) fn read(&self, now: i64) -> (r: (u64, bool, i64))
        ensures
            r == (self.size(), self.is_directory(), self.time(now)),
    {
        match self.metadata {
            Some(m) => (
                m.size,
                m.is_directory,
                match m.modified {
                    Some(t) => t,
                    None => now,
                },
            ),
            None => (0, false, now),
        }
    }

    /// Whether the entry is passed over.
    pub(crate) fn skipped(&self, include_hidden: bool, include_system: bool) -> (r: bool)
        ensures
            r == self.is_skipped(include_hidden, include_system),
    {
        match self.metadata {
            Some(m) => should_skip_by_attr(include_hidden, include_system, m.attributes),
            None => false,
        }
    }
}

/// A volume's files and directories during a walk.
#[verifier::ext_equal]
pub struct WalkModel {
    pub files: Seq<FileEntry>,
    pub table: TableModel,
}

impl WalkModel {
    /// After one more entry; files are numbered in the order in which they come.
    pub open spec fn with_entry(
        self,
        include_hidden: bool,
        include_system: bool,
        e: Walked,
        now: i64,
    ) -> WalkModel {
        if e.is_skipped(include_hidden, include_system) {
            self
        } else {
            let (table, id) = changes::registered(self.table, e.path@, e.is_directory());
            WalkModel { files: self.files.push(e.entry(id, now, self.files.len() as u32)), table }
        }
    }

    /// After the entries in turn.
    pub open spec fn with_entries(
        self,
        include_hidden: bool,
        include_system: bool,
        entries: Seq<Walked>,
        now: i64,
    ) -> WalkModel
        decreases entries.len(),
    {
        if entries.len() == 0 {
            self
        } else {
            self.with_entries(include_hidden, include_system, entries.drop_last(), now).with_entry(
                include_hidden,
                include_system,
                entries.last(),
                now,
            )
        }
    }
}

impl VolumeMonitor {
    /// The volume's files and directories.
    pub open spec fn walk_model(&self) -> WalkModel {
        WalkModel { files: self.files@, table: self.path_table@ }
    }

    /// Where a walk of the volume begins: its letter, with a backslash behind it.
    pub fn walk_root(&self) -> (r: String)
        ensures
            r@ == (if self.drive_letter@.len() > 0 && self.drive_letter@.last() == '\\' {
                self.drive_letter@
            } else {
                self.drive_letter@.push('\\')
            }),
    {
        let mut root = self.drive_letter.clone();
        if !ends_with_char(self.drive_letter.as_str(), '\\') {
            root.push('\\');
        }
        root
    }

    /// Takes up an entry that a walk meets, where it is not passed over, and gives whether
    /// it was taken.
    pub fn walk_entry(&mut self, e: &Walked, now: i64) -> (r: bool)
        ensures
            final(self).walk_model() == old(self).walk_model().with_entry(
                old(self).include_hidden_files,
                old(self).include_system_files,
                *e,
                now,
            ),
            r == !e.is_skipped(old(self).include_hidden_files, old(self).include_system_files),
            *final(self) == (VolumeMonitor {
                files: final(self).files,
                path_table: final(self).path_table,
                ..*old(self)
            }),
    {
        if e.skipped(self.include_hidden_files, self.include_system_files) {
            return false;
        }
        let (size, is_directory, time) = e.read(now);
        let path_id: u32 = register_path(&mut self.path_table, e.path.as_str(), is_directory);
        let file_id: u32 = #[verifier::truncate]
        (self.files.len() as u32);
        self.files.push(
            FileEntry::new(e.name.clone(), path_id, size, time, file_id, is_directory),
        );
        true
    }

    /// Takes up the entries of a whole walk in place of the files that were there, and
    /// gives the number of files. The index of file ids is built anew when it is next needed.
    pub fn scan(&mut self, entries: &Vec<Walked>, now: i64) -> (r: usize)
        ensures
            final(self).walk_model() == (WalkModel {
                files: seq![],
                table: old(self).path_table@,
            }).with_entries(
                old(self).include_hidden_files,
                old(self).include_system_files,
                entries@,
                now,
            ),
            r == final(self).files@.len(),
            *final(self) == (VolumeMonitor {
                files: final(self).files,
                path_table: final(self).path_table,
                fid_index: None,
                ..*old(self)
            }),
    {
        self.files = Vec::new();
        self.fid_index = None;
        let ghost start = self.walk_model();
        let mut i: usize = 0;
        assert(start =~= (WalkModel { files: seq![], table: old(self).path_table@ }));
        assert(entries@.take(0) =~= seq![]);
        while i < entries.len()
            invariant
                i <= entries@.len(),
                self.walk_model() == start.with_entries(
                    old(self).include_hidden_files,
                    old(self).include_system_files,
                    entries@.take(i as int),
                    now,
                ),
                *self == (VolumeMonitor {
                    files: self.files,
                    path_table: self.path_table,
                    fid_index: None,
                    ..*old(self)
                }),
            decreases entries@.len() - i,
        {
            proof {
                let step = entries@.take(i + 1);
                assert(step.drop_last() =~= entries@.take(i as int));
                assert(step.last() == entries@[i as int]);
            }
            self.walk_entry(&entries[i], now);
            i += 1;
        }
        assert(entries@.take(i as int) =~= entries@);
        self.files.len()
    }
}

} // verus!
