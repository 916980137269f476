//! What is asked of the worker that follows the journals, what it answers, and how far
//! each journal was read.

use crate::path_table::PathTable;
use crate::search::{FileEntry, SearchResult};
use crate::text::same_text;
use vstd::prelude::*;

verus! {

broadcast use vstd::string::group_string_axioms;

/// What is asked of the worker.
#[derive(Clone, Copy, Debug, PartialEq, Eq, Structural)]
pub enum UsnCommand {
    /// A scan of a whole volume.
    FullScan { drive_letter: char, include_hidden_files: bool, include_system_files: bool },
    /// The changes of a volume since the last time.
    PollChanges { drive_letter: char, include_hidden_files: bool, include_system_files: bool },
    /// To end.
    Shutdown,
}

/// What the worker answers.
pub enum UsnResponse {
    /// The files of a volume and the table of their directories.
    FullScanResult {
        drive_letter: char,
        files: Vec<FileEntry>,
        path_table: PathTable,
        last_usn: i64,
    },
    /// The changes of a volume.
    IncrementalResult {
        drive_letter: char,
        added: Vec<SearchResult>,
        /// Ids and paths of the files that are gone.
        removed: Vec<(u64, String)>,
        updated: Vec<(u64, SearchResult)>,
        last_usn: i64,
    },
    /// What went wrong.
    Error { drive_letter: char, message: String },
}

/// How far the journal of a volume was read.
#[derive(Clone, Copy, Debug, PartialEq, Eq, Structural)]
pub struct VolumeState {
    pub last_usn: i64,
}

/// How far the journals were read, by drive; no drive stands twice.
pub struct UsnState {
    pub volumes: Vec<(String, VolumeState)>,
}

/// The places by drive.
pub open spec fn by_drive(volumes: Seq<(String, VolumeState)>) -> Map<Seq<char>, i64>
    decreases volumes.len(),
{
    if volumes.len() == 0 {
        Map::empty()
    } else {
        by_drive(volumes.drop_last()).insert(volumes.last().0@, volumes.last().1.last_usn)
    }
}

impl View for UsnState {
    type V = Map<Seq<char>, i64>;

    open spec fn view(&self) -> Map<Seq<char>, i64> {
        by_drive(self.volumes@)
    }
}

/// Exchanging the place of a drive that stands once changes that drive alone.
proof fn drive_exchanged(volumes: Seq<(String, VolumeState)>, i: int, last_usn: i64)
    requires
        0 <= i < volumes.len(),
        forall|a: int, b: int|
            0 <= a < b < volumes.len() ==> (#[trigger] volumes[a]).0@ != (#[trigger] volumes[b]).0@,
    ensures
        by_drive(volumes.update(i, (volumes[i].0, VolumeState { last_usn }))) == by_drive(
            volumes,
        ).insert(volumes[i].0@, last_usn),
    decreases volumes.len(),
{
    let after = volumes.update(i, (volumes[i].0, VolumeState { last_usn }));
    let init = volumes.drop_last();
    if i < volumes.len() - 1 {
        assert forall|a: int, b: int| 0 <= a < b < init.len() implies (#[trigger] init[a]).0@ != (
        #[trigger] init[b]).0@ by {
            assert(volumes[a].0@ != volumes[b].0@);
        }
        drive_exchanged(init, i, last_usn);
        assert(after.drop_last() =~= init.update(i, (volumes[i].0, VolumeState { last_usn })));
        assert(volumes[i].0@ != volumes[volumes.len() - 1].0@);
        assert(by_drive(after) =~= by_drive(volumes).insert(volumes[i].0@, last_usn));
    } else {
        assert(after.drop_last() =~= init);
        assert(by_drive(after) =~= by_drive(volumes).insert(volumes[i].0@, last_usn));
    }
}

/// The drives are those that stand in the list.
proof fn drive_in_list(volumes: Seq<(String, VolumeState)>, drive: Seq<char>)
    requires
        forall|a: int, b: int|
            0 <= a < b < volumes.len() ==> (#[trigger] volumes[a]).0@ != (#[trigger] volumes[b]).0@,
    ensures
        by_drive(volumes).contains_key(drive) <==> exists|i: int|
            0 <= i < volumes.len() && (#[trigger] volumes[i]).0@ == drive,
        forall|i: int|
            0 <= i < volumes.len() && (#[trigger] volumes[i]).0@ == drive ==> by_drive(
                volumes,
            )[drive] == volumes[i].1.last_usn,
    decreases volumes.len(),
{
    if volumes.len() > 0 {
        let init = volumes.drop_last();
        assert forall|a: int, b: int| 0 <= a < b < init.len() implies (#[trigger] init[a]).0@ != (
        #[trigger] init[b]).0@ by {
            assert(volumes[a].0@ != volumes[b].0@);
        }
        drive_in_list(init, drive);
        if volumes.last().0@ == drive {
            assert(volumes[volumes.len() - 1].0@ == drive);
        } else if by_drive(init).contains_key(drive) {
            let i = choose|i: int| 0 <= i < init.len() && (#[trigger] init[i]).0@ == drive;
            assert(volumes[i].0@ == drive);
        }
        assert forall|i: int|
            0 <= i < volumes.len() && (#[trigger] volumes[i]).0@ == drive implies by_drive(
            volumes,
        ).contains_key(drive) && by_drive(volumes)[drive] == volumes[i].1.last_usn by {
            if i < init.len() {
                assert(init[i] == volumes[i]);
                assert(volumes[i].0@ != volumes[volumes.len() - 1].0@);
            }
        }
    }
}

impl Default for UsnState {
    /// No journal was read.
    fn default() -> (r: Self)
        ensures
            r.wf(),
            r@ == Map::<Seq<char>, i64>::empty(),
            r.volumes@.len() == 0,
    {
        UsnState { volumes: Vec::new() }
    }
}

impl UsnState {
    /// Whether no drive stands twice.
    pub open spec fn wf(&self) -> bool {
        forall|a: int, b: int|
            0 <= a < b < self.volumes@.len() ==> (#[trigger] self.volumes@[a]).0@ != (
            #[trigger] self.volumes@[b]).0@
    }

    /// Where the drive stands in the list.
    fn find(&self, drive: &str) -> (r: Option<usize>)
        requires
            self.wf(),
        ensures
            match r {
                Some(i) => i < self.volumes@.len() && self.volumes@[i as int].0@ == drive@
                    && self@.contains_key(drive@) && self@[drive@]
                    == self.volumes@[i as int].1.last_usn,
                None => !self@.contains_key(drive@) && forall|i: int|
                    0 <= i < self.volumes@.len() ==> (#[trigger] self.volumes@[i]).0@ != drive@,
            },
    {
        proof {
            drive_in_list(self.volumes@, drive@);
        }
        let mut i: usize = 0;
        while i < self.volumes.len()
            invariant
                i <= self.volumes@.len(),
                self.wf(),
                forall|k: int| 0 <= k < i ==> (#[trigger] self.volumes@[k]).0@ != drive@,
            decreases self.volumes@.len() - i,
        {
            if same_text(self.volumes[i].0.as_str(), drive) {
                proof {
                    drive_in_list(self.volumes@, drive@);
                }
                return Some(i);
            }
            i += 1;
        }
        None
    }

    /// How far the journal of a drive was read.
    pub fn last_usn(&self, drive: &str) -> (r: Option<i64>)
        requires
            self.wf(),
        ensures
            match r {
                Some(usn) => self@.contains_key(drive@) && self@[drive@] == usn,
                None => !self@.contains_key(drive@),
            },
    {
        match self.find(drive) {
            Some(i) => Some(self.volumes[i].1.last_usn),
            None => None,
        }
    }

    /// Notes how far the journal of a drive was read.
    pub fn note_usn(&mut self, drive: &str, last_usn: i64)
        requires
            old(self).wf(),
        ensures
            final(self).wf(),
            final(self)@ == old(self)@.insert(drive@, last_usn),
    {
        let ghost before = self.volumes@;
        match self.find(drive) {
            Some(i) => {
                proof {
                    drive_exchanged(before, i as int, last_usn);
                }
                self.volumes[i].1 = VolumeState { last_usn };
                assert(self.volumes@ =~= before.update(
                    i as int,
                    (before[i as int].0, VolumeState { last_usn }),
                ));
            },
            None => {
                self.volumes.push((drive.to_string(), VolumeState { last_usn }));
                assert(self.volumes@.drop_last() =~= before);
            },
        }
    }
}

} // verus!
