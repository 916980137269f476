//! One volume of the index: its files, the table of their directories, and what may
//! be shown of them.

use crate::fid_index::build_index;
use crate::path_table::{PathTable, DELETED_PATH_ID};
use crate::search::FileEntry;
use crate::text;
use crate::text::{chars_of, find_last, same_text, string_from};
use vstd::prelude::*;

verus! {

broadcast use vstd::string::group_string_axioms;

/// A volume and its files.
pub struct VolumeMonitor {
    pub drive_letter: String,
    pub files: Vec<FileEntry>,
    pub path_table: PathTable,
    pub include_hidden_files: bool,
    pub include_system_files: bool,
    /// The files' ids with their places, in the order of the ids.
    pub fid_index: Option<Vec<(u32, u32)>>,
    pub use_usn: bool,
    pub file_system: String,
}

/// The files that are not marked as removed.
pub open spec fn kept_files(files: Seq<FileEntry>) -> Seq<FileEntry> {
    files.filter(|f: FileEntry| f.path_id != DELETED_PATH_ID)
}

/// The name that a path ends in: what stands behind its last separator. The names `.`
/// and `..` lead elsewhere and do not count.
pub open spec fn name_in(path: Seq<char>) -> Seq<char> {
    let cut = crate::rows::most(text::last_place(path, '\\'), text::last_place(path, '/'));
    let name = path.skip(cut + 1);
    if name == "."@ || name == ".."@ {
        seq![]
    } else {
        name
    }
}

/// The name that a path ends in.
pub fn file_name_in(path: &str) -> (r: String)
    ensures
        r@ == name_in(path@),
{
    let chars = chars_of(path);
    let mut from: usize = 0;
    if let Some(i) = find_last(&chars, '\\') {
        from = i + 1;
    }
    if let Some(i) = find_last(&chars, '/') {
        if i + 1 > from {
            from = i + 1;
        }
    }
    proof {
        text::last_place_is_last(path@, '\\');
        text::last_place_is_last(path@, '/');
    }
    let name = string_from(&chars, from, chars.len());
    assert(name@ =~= path@.skip(from as int));
    if same_text(name.as_str(), ".") || same_text(name.as_str(), "..") {
        String::new()
    } else {
        name
    }
}

impl VolumeMonitor {
    /// Whether the index of file ids, where there is one, is in order.
    pub open spec fn wf(&self) -> bool {
        self.fid_index matches Some(index) ==> crate::fid_index::ids_ascend(index@)
    }

    /// The path of a file of this volume.
    pub open spec fn path_of(&self, f: FileEntry) -> Seq<char> {
        self.path_table@.file_path(f.path_id, f.name@)
    }

    /// Whether this is a volume without files.
    pub open spec fn is_new(
        &self,
        drive_letter: Seq<char>,
        include_hidden_files: bool,
        include_system_files: bool,
    ) -> bool {
        &&& self.drive_letter@ == drive_letter
        &&& self.files@ == Seq::<FileEntry>::empty()
        &&& self.path_table@.entries.len() == 1
        &&& self.path_table@.sound()
        &&& self.path_table@.ids == Map::<Seq<char>, u32>::empty()
        &&& self.include_hidden_files == include_hidden_files
        &&& self.include_system_files == include_system_files
        &&& self.fid_index is None
        &&& !self.use_usn
        &&& self.file_system@ == Seq::<char>::empty()
    }

    /// A volume without files.
    pub fn new(
        drive_letter: String,
        include_hidden_files: bool,
        include_system_files: bool,
    ) -> (r: Self)
        ensures
            r.is_new(drive_letter@, include_hidden_files, include_system_files),
            r.wf(),
    {
        VolumeMonitor {
            drive_letter,
            files: Vec::new(),
            path_table: PathTable::new(),
            include_hidden_files,
            include_system_files,
            fid_index: None,
            use_usn: false,
            file_system: String::new(),
        }
    }

    /// Drops the files that are marked as removed; where there were any, the index of
    /// file ids is built anew.
    pub fn compact_files(&mut self)
        requires
            old(self).wf(),
        ensures
            final(self).wf(),
            final(self).files@ == kept_files(old(self).files@),
            match final(self).fid_index {
                Some(index) => if final(self).files@.len() < old(self).files@.len() {
                    index@ == crate::fid_index::index_of_files(final(self).files@)
                } else {
                    old(self).fid_index == Some(index)
                },
                None => final(self).files@.len() == old(self).files@.len() && old(
                    self,
                ).fid_index is None,
            },
            final(self).same_settings(*old(self)),
            final(self).path_table == old(self).path_table,
    {
        let old_len: usize = self.files.len();
        let ghost before = self.files@;
        let mut kept: Vec<FileEntry> = Vec::new();
        let mut i: usize = 0;
        while i < self.files.len()
            invariant
                i <= self.files@.len(),
                self.files@ == before,
                kept@ == kept_files(before.take(i as int)),
            decreases self.files@.len() - i,
        {
            let ghost step = before.take(i + 1);
            assert(step.drop_last() =~= before.take(i as int));
            if !PathTable::is_deleted(self.files[i].path_id) {
                kept.push(self.files[i].clone());
            }
            proof {
                reveal(Seq::filter);
                assert(step.last() == before[i as int]);
            }
            i += 1;
        }
        proof {
            assert(before.take(i as int) =~= before);
            before.lemma_filter_len(|f: FileEntry| f.path_id != DELETED_PATH_ID);
        }
        self.files = kept;
        if self.files.len() < old_len {
            self.fid_index = Some(build_index(&self.files));
        }
    }

    /// Whether the two volumes agree in everything but files, directories and index.
    pub open spec fn same_settings(&self, other: VolumeMonitor) -> bool {
        &&& self.drive_letter == other.drive_letter
        &&& self.include_hidden_files == other.include_hidden_files
        &&& self.include_system_files == other.include_system_files
        &&& self.use_usn == other.use_usn
        &&& self.file_system == other.file_system
    }

    /// Sets what a scan takes up.
    pub fn update_settings(&mut self, include_hidden_files: bool, include_system_files: bool)
        ensures
            *final(self) == (VolumeMonitor {
                include_hidden_files,
                include_system_files,
                ..*old(self)
            }),
    {
        self.include_hidden_files = include_hidden_files;
        self.include_system_files = include_system_files;
    }

    /// Drops the file that has the given path, and with it the index of file ids, which is
    /// built anew when it is next needed.
    pub fn remove_file(&mut self, file_path: &str)
        ensures
            final(self).files@ == old(self).files@.filter(
                |f: FileEntry|
                    !(f.name@ == name_in(file_path@) && old(self).path_of(f) == file_path@),
            ),
            final(self).path_table == old(self).path_table,
            final(self).fid_index is None,
            final(self).same_settings(*old(self)),
    {
        let name = file_name_in(file_path);
        let ghost before = self.files@;
        let ghost stays = |f: FileEntry|
            !(f.name@ == name_in(file_path@) && old(self).path_of(f) == file_path@);
        let mut kept: Vec<FileEntry> = Vec::new();
        let mut i: usize = 0;
        while i < self.files.len()
            invariant
                i <= self.files@.len(),
                *self == *old(self),
                self.files@ == before,
                name@ == name_in(file_path@),
                stays == (|f: FileEntry|
                    !(f.name@ == name_in(file_path@) && old(self).path_of(f) == file_path@)),
                kept@ == before.take(i as int).filter(stays),
            decreases self.files@.len() - i,
        {
            let ghost step = before.take(i + 1);
            assert(step.drop_last() =~= before.take(i as int));
            proof {
                reveal(Seq::filter);
                assert(step.last() == before[i as int]);
            }
            let f = &self.files[i];
            let goes = if same_text(f.name.as_str(), name.as_str()) {
                let path = self.path_table.resolve_file_path(f.path_id, f.name.as_str());
                same_text(path.as_str(), file_path)
            } else {
                false
            };
            if !goes {
                kept.push(f.clone());
            }
            i += 1;
        }
        assert(before.take(i as int) =~= before);
        self.files = kept;
        self.fid_index = None;
    }

    /// The files of the volume.
    pub fn files(&self) -> (r: &Vec<FileEntry>)
        ensures
            *r == self.files,
    {
        &self.files
    }
}

} // verus!
