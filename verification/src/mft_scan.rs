//! Scanning the file table: which bytes to read next, what each record tells, and the
//! sizes that stand in other records.

use crate::attributes;
use crate::attributes::{count_ads, count_hard_links, extract_atime, extract_attributes, extract_ctime, extract_data_size_from_bytes, extract_mtime, extract_parent_record, list_attributes, ATTR_DATA};
use crate::bytes;
use crate::bytes::{read_u16, read_u32};
use crate::data_runs;
use crate::data_runs::{parse_data_runs, record_disk_offset, DataRun};
use crate::fixup;
use crate::fixup::{apply_fixup, FixupError};
use crate::record_details;
use crate::record_details::{extract_data_extension_records, extract_name, well_known_name};
use crate::seqs;
use crate::sorting::{merge_sort, SortOrder};
use crate::text;
use crate::text::{decimal_text, same_text};
use std::collections::HashMap;
use vstd::prelude::*;
use vstd::relations::*;
use vstd::slice::slice_subrange;

verus! {

broadcast use {
    vstd::string::group_string_axioms,
    vstd::std_specs::hash::group_hash_axioms,
};

/// What a record tells of its file.
pub struct ScanResult {
    pub record_number: u64,
    pub parent_record: u64,
    pub is_directory: bool,
    pub name: String,
    pub size: u64,
    pub mtime: Option<u64>,
    pub ctime: Option<u64>,
    pub atime: Option<u64>,
    pub attributes: u32,
}

/// What a record tells of its file.
#[verifier::ext_equal]
pub struct ScannedModel {
    pub record_number: u64,
    pub parent_record: u64,
    pub is_directory: bool,
    pub name: Seq<char>,
    pub size: u64,
    pub mtime: Option<u64>,
    pub ctime: Option<u64>,
    pub atime: Option<u64>,
    pub attributes: u32,
}

impl View for ScanResult {
    type V = ScannedModel;

    open spec fn view(&self) -> ScannedModel {
        ScannedModel {
            record_number: self.record_number,
            parent_record: self.parent_record,
            is_directory: self.is_directory,
            name: self.name@,
            size: self.size,
            mtime: self.mtime,
            ctime: self.ctime,
            atime: self.atime,
            attributes: self.attributes,
        }
    }
}

/// What a scan counted, each up to what the machine can count.
#[derive(Clone, Copy, Debug, PartialEq, Eq, Structural)]
pub struct ScanStats {
    pub total_records: u64,
    pub files: u64,
    pub dirs: u64,
    pub skip_no_signature: u64,
    pub skip_fixup_fail: u64,
    pub skip_inactive: u64,
    pub total_ads: u64,
    pub total_hard_links: u64,
    pub no_timestamp: u64,
}

/// The records of a scan and what it counted.
pub struct ScanOutput {
    pub all_records: Vec<ScanResult>,
    pub total_records: u64,
    pub files: u64,
    pub dirs: u64,
    pub skip_no_signature: u64,
    pub skip_fixup_fail: u64,
    pub skip_inactive: u64,
    pub total_ads: u64,
    pub total_hard_links: u64,
    pub no_timestamp: u64,
}

impl ScanOutput {
    /// The records of a scan and what it counted.
    pub fn new(all_records: Vec<ScanResult>, stats: ScanStats) -> (r: Self)
        ensures
            r.all_records == all_records,
            r.total_records == stats.total_records,
            r.files == stats.files,
            r.dirs == stats.dirs,
            r.skip_no_signature == stats.skip_no_signature,
            r.skip_fixup_fail == stats.skip_fixup_fail,
            r.skip_inactive == stats.skip_inactive,
            r.total_ads == stats.total_ads,
            r.total_hard_links == stats.total_hard_links,
            r.no_timestamp == stats.no_timestamp,
    {
        ScanOutput {
            all_records,
            total_records: stats.total_records,
            files: stats.files,
            dirs: stats.dirs,
            skip_no_signature: stats.skip_no_signature,
            skip_fixup_fail: stats.skip_fixup_fail,
            skip_inactive: stats.skip_inactive,
            total_ads: stats.total_ads,
            total_hard_links: stats.total_hard_links,
            no_timestamp: stats.no_timestamp,
        }
    }
}

/// Where the file table stands.
pub struct MftScanner {
    pub data_runs: Vec<DataRun>,
    pub cluster_size: u64,
    pub file_record_size: u64,
}

/// Why the file table was not found.
#[derive(Clone, Copy, Debug, PartialEq, Eq, Structural)]
pub enum ScannerError {
    Fixup(FixupError),
    NoData,
}

/// The text that an error is shown with.
pub open spec fn scanner_error_text(e: ScannerError) -> Seq<char> {
    match e {
        ScannerError::Fixup(e) => fixup::fixup_error_text(e),
        ScannerError::NoData => "No non-resident $DATA attribute in MFT record 0"@,
    }
}

impl ScannerError {
    /// The text that the error is shown with.
    pub fn message(&self) -> (r: String)
        ensures
            r@ == scanner_error_text(*self),
    {
        match self {
            ScannerError::Fixup(e) => e.message(),
            ScannerError::NoData => "No non-resident $DATA attribute in MFT record 0".to_string(),
        }
    }
}

/// The runs that the contents at `o` stand in, where they stand outside the record and
/// the list of runs lies in the attribute.
pub open spec fn runs_at(s: Seq<u8>, o: usize) -> Option<Seq<DataRun>> {
    let len = bytes::u32_at(s, o + 4) as int;
    let from = bytes::u16_at(s, o + 32) as int;
    if bytes::u32_at(s, o as int) == ATTR_DATA && s[o + 8] == 1 && from <= len {
        Some(data_runs::runs_in(s.subrange(o + from, o + len), 0))
    } else {
        None
    }
}

/// The runs that the contents of a record stand in.
pub open spec fn runs_of(s: Seq<u8>) -> Option<Seq<DataRun>> {
    attributes::first_of(
        attributes::attributes_of(s, s.len() as int, 64, 1).filter_map(|o: usize| runs_at(s, o)),
    )
}

/// How many of so many consecutive errors end a scan.
pub const MAX_ERRORS: u64 = 100;

/// What a scan does next.
#[derive(Clone, Copy, Debug, PartialEq, Eq, Structural)]
pub enum ScanStep {
    /// Goes to a place on the disk.
    Seek(u64),
    /// Reads a record.
    Read,
    /// Is over.
    Done,
}

/// How far a scan has come.
pub struct ScanProgress {
    /// The run that it is at.
    pub run: usize,
    /// How many records of the run are left, while the run is read.
    pub left: u64,
    pub reading: bool,
    pub over: bool,
    /// How many errors came one after the other.
    pub errors: u64,
    pub stats: ScanStats,
    /// Files whose size stands in other records, with the numbers of both.
    pub pending: Vec<(u64, Vec<u64>)>,
}

/// How far a scan has come.
#[verifier::ext_equal]
pub struct ProgressModel {
    pub run: int,
    pub left: int,
    pub reading: bool,
    pub over: bool,
    pub errors: int,
    pub stats: ScanStats,
    pub pending: Seq<(u64, Seq<u64>)>,
}

/// The models of files whose size stands in other records.
pub open spec fn pending_model(p: Seq<(u64, Vec<u64>)>) -> Seq<(u64, Seq<u64>)> {
    p.map_values(|e: (u64, Vec<u64>)| (e.0, e.1@))
}

impl View for ScanProgress {
    type V = ProgressModel;

    open spec fn view(&self) -> ProgressModel {
        ProgressModel {
            run: self.run as int,
            left: self.left as int,
            reading: self.reading,
            over: self.over,
            errors: self.errors as int,
            stats: self.stats,
            pending: pending_model(self.pending@),
        }
    }
}

/// The sum, up to what the machine can count.
pub open spec fn sum(a: u64, b: int) -> u64 {
    if a + b <= u64::MAX {
        (a + b) as u64
    } else {
        u64::MAX
    }
}

impl ProgressModel {
    /// With so many more records passed.
    pub open spec fn passed(self, n: int) -> ProgressModel {
        ProgressModel {
            stats: ScanStats { total_records: sum(self.stats.total_records, n), ..self.stats },
            ..self
        }
    }

    /// With one record of the run less to read.
    pub open spec fn one_less(self) -> ProgressModel {
        ProgressModel { left: self.left - 1, ..self }
    }

    /// At the next run.
    pub open spec fn next_run(self) -> ProgressModel {
        ProgressModel { run: self.run + 1, reading: false, ..self }
    }

    /// What the scan does next, up to `max` records, and how far it has come then: a run
    /// that is read, or sparse, is passed.
    pub open spec fn next(self, runs: Seq<DataRun>, cluster_size: u64, record_size: u64, max: u64) -> (
        ProgressModel,
        ScanStep,
    )
        decreases runs.len() - self.run,
    {
        if self.over {
            (self, ScanStep::Done)
        } else if self.reading {
            if self.left == 0 || self.stats.total_records >= max {
                if self.run < runs.len() {
                    self.next_run().next(runs, cluster_size, record_size, max)
                } else {
                    (self, ScanStep::Done)
                }
            } else {
                (self, ScanStep::Read)
            }
        } else if self.run >= runs.len() || self.stats.total_records >= max {
            (ProgressModel { over: true, ..self }, ScanStep::Done)
        } else if runs[self.run].is_sparse {
            self.passed(
                data_runs::records_in(runs[self.run], cluster_size, record_size),
            ).next_run().next(runs, cluster_size, record_size, max)
        } else {
            (self, ScanStep::Seek((runs[self.run].lcn * cluster_size) as u64))
        }
    }

    /// After the scan went to a run, or failed to. A run that cannot be reached is passed;
    /// after too many errors the scan is over.
    pub open spec fn after_seek(
        self,
        runs: Seq<DataRun>,
        cluster_size: u64,
        record_size: u64,
        ok: bool,
    ) -> ProgressModel {
        let n = data_runs::records_in(runs[self.run], cluster_size, record_size);
        if ok {
            ProgressModel { reading: true, left: n, ..self }
        } else {
            let failed = self.failed();
            if failed.errors > MAX_ERRORS {
                ProgressModel { over: true, ..failed }
            } else {
                failed.passed(n).next_run()
            }
        }
    }

    /// After one more error.
    pub open spec fn failed(self) -> ProgressModel {
        ProgressModel { errors: sum(self.errors as u64, 1) as int, ..self }
    }

    /// After a record could not be read. It is passed; after too many errors the whole run
    /// is left.
    pub open spec fn after_failed_read(self) -> ProgressModel {
        let failed = self.failed();
        if failed.errors > MAX_ERRORS {
            failed.next_run()
        } else {
            failed.passed(1).one_less()
        }
    }
}

/// What became of a record that was read.
#[verifier::ext_equal]
pub enum Outcome {
    NoSignature,
    FixupFail,
    Inactive,
    File(ScannedModel),
}

/// The name of the file of record `number`: that which the record holds, else that which
/// every volume has for the number, else one made of the number.
pub open spec fn shown_name(s: Seq<u8>, record_size: int, number: u64) -> Seq<char> {
    let name = record_details::name_in(s, record_size);
    if name == "<no name>"@ {
        match record_details::known_name(number) {
            Some(known) => known,
            None => "<Record#"@ + text::decimal(number as nat) + ">"@,
        }
    } else {
        name
    }
}

/// What the record `number` tells of its file, once its sectors are put together.
pub open spec fn scanned(s: Seq<u8>, record_size: int, number: u64) -> ScannedModel {
    ScannedModel {
        record_number: number,
        parent_record: attributes::parent_in(s, record_size),
        is_directory: bytes::u16_at(s, 22) & 0x02 != 0,
        name: shown_name(s, record_size, number),
        size: attributes::size_in(s, record_size),
        mtime: attributes::mtime_in(s, record_size),
        ctime: attributes::ctime_in(s, record_size),
        atime: attributes::atime_in(s, record_size),
        attributes: attributes::flags_in(s, record_size),
    }
}

/// Whether the bytes begin like a record.
pub open spec fn has_signature(s: Seq<u8>) -> bool {
    s.len() >= 24 && s[0] == 0x46 && s[1] == 0x49 && s[2] == 0x4C && s[3] == 0x45
}

/// What becomes of the bytes of record `number`.
pub open spec fn outcome(s: Seq<u8>, record_size: u64, number: u64) -> Outcome {
    let (whole, error) = fixup::fixed_up(s, number, record_size);
    if !has_signature(s) {
        Outcome::NoSignature
    } else if error is Some {
        Outcome::FixupFail
    } else if bytes::u16_at(whole, 22) & 0x01 == 0 {
        Outcome::Inactive
    } else {
        Outcome::File(scanned(whole, record_size as int, number))
    }
}

/// The other records of a file of size 0 that is no directory.
pub open spec fn pending_of(whole: Seq<u8>, record_size: u64, m: ScannedModel) -> Seq<
    (u64, Seq<u64>),
> {
    let others = record_details::distinct(
        record_details::data_records(record_details::list_in(whole, record_size as int)),
    );
    if m.size == 0 && !m.is_directory && others.len() > 0 {
        seq![(m.record_number, others)]
    } else {
        seq![]
    }
}

/// What is counted after a record.
pub open spec fn counted(stats: ScanStats, s: Seq<u8>, record_size: u64) -> ScanStats {
    let number = stats.total_records;
    let whole = fixup::fixed_up(s, number, record_size).0;
    let passed = ScanStats { total_records: sum(stats.total_records, 1), ..stats };
    match outcome(s, record_size, number) {
        Outcome::NoSignature => ScanStats {
            skip_no_signature: sum(stats.skip_no_signature, 1),
            ..passed
        },
        Outcome::FixupFail => ScanStats {
            skip_fixup_fail: sum(stats.skip_fixup_fail, 1),
            ..passed
        },
        Outcome::Inactive => ScanStats { skip_inactive: sum(stats.skip_inactive, 1), ..passed },
        Outcome::File(m) => ScanStats {
            files: if m.is_directory {
                stats.files
            } else {
                sum(stats.files, 1)
            },
            dirs: if m.is_directory {
                sum(stats.dirs, 1)
            } else {
                stats.dirs
            },
            total_ads: sum(
                stats.total_ads,
                attributes::attributes_of(whole, record_size as int, 12, 24).filter(
                    |o: usize| attributes::is_named_stream(whole, o),
                ).len() as int,
            ),
            total_hard_links: sum(
                stats.total_hard_links,
                attributes::parents_in(whole, record_size as int).to_set().len() as int,
            ),
            no_timestamp: if m.mtime is None && m.ctime is None && m.atime is None {
                sum(stats.no_timestamp, 1)
            } else {
                stats.no_timestamp
            },
            ..passed
        },
    }
}

impl ProgressModel {
    /// After a record was read.
    pub open spec fn after_read(self, s: Seq<u8>, record_size: u64) -> ProgressModel {
        let number = self.stats.total_records;
        ProgressModel {
            errors: 0,
            left: self.left - 1,
            stats: counted(self.stats, s, record_size),
            pending: match outcome(s, record_size, number) {
                Outcome::File(m) => self.pending + pending_of(
                    fixup::fixed_up(s, number, record_size).0,
                    record_size,
                    m,
                ),
                _ => self.pending,
            },
            ..self
        }
    }
}

impl ScanProgress {
    /// A scan that has not begun.
    pub fn new() -> (r: Self)
        ensures
            r@ == (ProgressModel {
                run: 0,
                left: 0,
                reading: false,
                over: false,
                errors: 0,
                stats: ScanStats {
                    total_records: 0,
                    files: 0,
                    dirs: 0,
                    skip_no_signature: 0,
                    skip_fixup_fail: 0,
                    skip_inactive: 0,
                    total_ads: 0,
                    total_hard_links: 0,
                    no_timestamp: 0,
                },
                pending: seq![],
            }),
    {
        let r = ScanProgress {
            run: 0,
            left: 0,
            reading: false,
            over: false,
            errors: 0,
            stats: ScanStats {
                total_records: 0,
                files: 0,
                dirs: 0,
                skip_no_signature: 0,
                skip_fixup_fail: 0,
                skip_inactive: 0,
                total_ads: 0,
                total_hard_links: 0,
                no_timestamp: 0,
            },
            pending: Vec::new(),
        };
        assert(pending_model(r.pending@) =~= seq![]);
        r
    }
}

impl MftScanner {
    /// Whether the runs of the table can be counted and reached.
    pub open spec fn wf(&self) -> bool {
        data_runs::runs_fit(self.data_runs@, self.file_record_size, self.cluster_size)
    }

    /// The table, by the bytes of its first record.
    pub fn from_first_record(record0: Vec<u8>, cluster_size: u64, file_record_size: u64) -> (r:
        Result<Self, ScannerError>)
        ensures
            ({
                let (whole, error) = fixup::fixed_up(record0@, 0, file_record_size);
                match r {
                    Ok(table) => {
                        &&& error is None
                        &&& runs_of(whole) == Some(table.data_runs@)
                        &&& table.cluster_size == cluster_size
                        &&& table.file_record_size == file_record_size
                    },
                    Err(ScannerError::Fixup(e)) => error == Some(e),
                    Err(ScannerError::NoData) => error is None && runs_of(whole) is None,
                }
            }),
    {
        let mut record = record0;
        match apply_fixup(&mut record, 0, file_record_size) {
            Ok(()) => {},
            Err(e) => {
                return Err(ScannerError::Fixup(e));
            },
        }
        let s = record.as_slice();
        let ghost whole = record@;
        let places = list_attributes(s, s.len(), 64, 1);
        let ghost f = |o: usize| runs_at(whole, o);
        let mut i: usize = 0;
        assert(places@.skip(0) =~= places@);
        while i < places.len()
            invariant
                i <= places@.len(),
                s@ == whole,
                whole == fixup::fixed_up(record0@, 0, file_record_size).0,
                fixup::fixed_up(record0@, 0, file_record_size).1 is None,
                f == (|o: usize| runs_at(whole, o)),
                places@ == attributes::attributes_of(whole, whole.len() as int, 64, 1),
                places@.filter_map(f) == places@.skip(i as int).filter_map(f),
                forall|i: int| 0 <= i < places@.len() ==> #[trigger] places@[i] + 64 <= s.len(),
                forall|i: int|
                    0 <= i < places@.len() ==> #[trigger] places@[i] + bytes::u32_at(
                        whole,
                        places@[i] + 4,
                    ) <= s.len(),
            decreases places@.len() - i,
        {
            let ghost rest = places@.skip(i as int);
            proof {
                seqs::filter_map_first(rest, f);
                assert(rest.drop_first() =~= places@.skip(i + 1));
            }
            let o: usize = places[i];
            if read_u32(s, o) == ATTR_DATA && s[o + 8] == 1 {
                let from: usize = read_u16(s, o + 32) as usize;
                let len: usize = read_u32(s, o + 4) as usize;
                if from <= len {
                    let data_runs = parse_data_runs(slice_subrange(s, o + from, o + len));
                    return Ok(MftScanner { data_runs, cluster_size, file_record_size });
                }
            }
            i += 1;
        }
        proof {
            assert(places@.skip(i as int) =~= seq![]);
            reveal(Seq::filter_map);
        }
        Err(ScannerError::NoData)
    }

    /// What a scan of up to `max_records` records does next.
    pub fn next_step(&self, p: &mut ScanProgress, max_records: u64) -> (r: ScanStep)
        requires
            self.wf(),
            old(p).reading ==> old(p).run < self.data_runs.len(),
        ensures
            (final(p)@, r) == old(p)@.next(
                self.data_runs@,
                self.cluster_size,
                self.file_record_size,
                max_records,
            ),
            final(p).reading ==> final(p).run < self.data_runs.len(),
            r is Seek ==> !final(p).reading && final(p).run < self.data_runs.len(),
            r is Read ==> final(p).reading && final(p).left > 0,
    {
        loop
            invariant
                self.wf(),
                p.reading ==> p.run < self.data_runs.len(),
                old(p)@.next(
                    self.data_runs@,
                    self.cluster_size,
                    self.file_record_size,
                    max_records,
                ) == p@.next(
                    self.data_runs@,
                    self.cluster_size,
                    self.file_record_size,
                    max_records,
                ),
            decreases self.data_runs@.len() - p.run,
        {
            let ghost before = p@;
            if p.over {
                return ScanStep::Done;
            }
            if p.reading {
                if p.left == 0 || p.stats.total_records >= max_records {
                    p.run = p.run + 1;
                    p.reading = false;
                    assert(p@ =~= before.next_run());
                    continue ;
                }
                return ScanStep::Read;
            }
            if p.run >= self.data_runs.len() || p.stats.total_records >= max_records {
                p.over = true;
                return ScanStep::Done;
            }
            let run = self.data_runs[p.run];
            proof {
                data_runs::run_bounds(
                    self.data_runs@,
                    self.file_record_size,
                    self.cluster_size,
                    p.run as int,
                );
            }
            if run.is_sparse {
                let n: u64 = run.length * self.cluster_size / self.file_record_size;
                p.stats.total_records = p.stats.total_records.saturating_add(n);
                p.run = p.run + 1;
                assert(p@ =~= before.passed(n as int).next_run());
                continue ;
            }
            return ScanStep::Seek(run.lcn * self.cluster_size);
        }
    }

    /// Takes up whether the scan could go to the run that it is at.
    pub fn seek_done(&self, p: &mut ScanProgress, ok: bool)
        requires
            self.wf(),
            !old(p).reading,
            old(p).run < self.data_runs.len(),
        ensures
            final(p)@ == old(p)@.after_seek(
                self.data_runs@,
                self.cluster_size,
                self.file_record_size,
                ok,
            ),
            final(p).reading ==> final(p).run < self.data_runs.len(),
    {
        let run = self.data_runs[p.run];
        proof {
            data_runs::run_bounds(
                self.data_runs@,
                self.file_record_size,
                self.cluster_size,
                p.run as int,
            );
        }
        let n: u64 = run.length * self.cluster_size / self.file_record_size;
        if ok {
            p.reading = true;
            p.left = n;
            return;
        }
        p.errors = p.errors.saturating_add(1);
        if p.errors > MAX_ERRORS {
            p.over = true;
            return;
        }
        p.stats.total_records = p.stats.total_records.saturating_add(n);
        p.run = p.run + 1;
    }

    /// Takes up that a record could not be read.
    pub fn read_failed(&self, p: &mut ScanProgress)
        requires
            old(p).reading,
            old(p).left > 0,
            old(p).run < self.data_runs.len(),
        ensures
            final(p)@ == old(p)@.after_failed_read(),
            final(p).reading ==> final(p).run < self.data_runs.len(),
    {
        p.errors = p.errors.saturating_add(1);
        if p.errors > MAX_ERRORS {
            p.reading = false;
            p.run = p.run + 1;
            return;
        }
        p.stats.total_records = p.stats.total_records.saturating_add(1);
        p.left = p.left - 1;
    }

    /// Takes up a record that was read, and gives what it tells of its file, where it
    /// describes one. The sectors of the record are put together in place.
    pub fn take_record(&self, p: &mut ScanProgress, record: &mut Vec<u8>) -> (r: Option<ScanResult>)
        requires
            old(p).left > 0,
        ensures
            final(p)@ == old(p)@.after_read(old(record)@, self.file_record_size),
            match outcome(old(record)@, self.file_record_size, old(p).stats.total_records) {
                Outcome::File(m) => r matches Some(found) && found@ == m,
                _ => r is None,
            },
            final(p).run == old(p).run,
            final(p).reading == old(p).reading,
    {
        let ghost before = p@;
        let ghost bytes0 = record@;
        let number: u64 = p.stats.total_records;
        p.errors = 0;
        p.left = p.left - 1;
        p.stats.total_records = p.stats.total_records.saturating_add(1);
        if record.len() < 24 || record[0] != 0x46 || record[1] != 0x49 || record[2] != 0x4C
            || record[3] != 0x45 {
            p.stats.skip_no_signature = p.stats.skip_no_signature.saturating_add(1);
            return None;
        }
        if apply_fixup(record, number, self.file_record_size).is_err() {
            p.stats.skip_fixup_fail = p.stats.skip_fixup_fail.saturating_add(1);
            return None;
        }
        proof {
            fixup::fixup_keeps_len(bytes0, number, self.file_record_size);
        }
        let s = record.as_slice();
        let flags: u16 = read_u16(s, 22);
        if flags & 0x01 == 0 {
            p.stats.skip_inactive = p.stats.skip_inactive.saturating_add(1);
            return None;
        }
        let found = self.read_file(s, number);
        let size: usize = self.size_limit();
        if found.is_directory {
            p.stats.dirs = p.stats.dirs.saturating_add(1);
        } else {
            p.stats.files = p.stats.files.saturating_add(1);
        }
        proof {
            same_limit(s@, size as int, self.file_record_size);
        }
        if found.size == 0 && !found.is_directory {
            let others = extract_data_extension_records(s, size);
            if others.len() > 0 {
                let ghost pending = p.pending@;
                p.pending.push((number, others));
                assert(pending_model(p.pending@) =~= pending_model(pending).push(
                    (number, others@),
                ));
            }
        }
        if found.mtime.is_none() && found.ctime.is_none() && found.atime.is_none() {
            p.stats.no_timestamp = p.stats.no_timestamp.saturating_add(1);
        }
        p.stats.total_ads = p.stats.total_ads.saturating_add(count_ads(s, size));
        p.stats.total_hard_links = p.stats.total_hard_links.saturating_add(
            count_hard_links(s, size),
        );
        assert(p@ =~= before.after_read(bytes0, self.file_record_size));
        Some(found)
    }

    /// The size of records, up to what the machine can count.
    fn size_limit(&self) -> (r: usize)
        ensures
            r == self.file_record_size || (r == usize::MAX && self.file_record_size > usize::MAX),
    {
        if self.file_record_size > usize::MAX as u64 {
            usize::MAX
        } else {
            self.file_record_size as usize
        }
    }

    /// What record `number` tells of its file, once its sectors are put together.
    fn read_file(&self, s: &[u8], number: u64) -> (r: ScanResult)
        requires
            s.len() >= 24,
        ensures
            r@ == scanned(s@, self.file_record_size as int, number),
    {
        let size: usize = self.size_limit();
        proof {
            same_limit(s@, size as int, self.file_record_size);
        }
        let flags: u16 = read_u16(s, 22);
        let held = extract_name(s, size);
        let name = if same_text(held.as_str(), "<no name>") {
            match well_known_name(number) {
                Some(known) => known.to_string(),
                None => {
                    let mut made = "<Record#".to_string();
                    made.append(decimal_text(number).as_str());
                    made.append(">");
                    made
                },
            }
        } else {
            held
        };
        ScanResult {
            record_number: number,
            parent_record: extract_parent_record(s, size),
            is_directory: flags & 0x02 != 0,
            name,
            size: extract_data_size_from_bytes(s, size),
            mtime: extract_mtime(s, size),
            ctime: extract_ctime(s, size),
            atime: extract_atime(s, size),
            attributes: extract_attributes(s, size),
        }
    }

    /// Where the other records of the files stand on the disk, in the order of the places,
    /// with their numbers.
    pub fn extension_places(&self, pending: &Vec<(u64, Vec<u64>)>) -> (r: Vec<(u64, u64)>)
        requires
            self.wf(),
        ensures
            r@ == crate::sorting::in_order(
                PlaceOrder,
                places_of(
                    pending_model(pending@),
                    self.data_runs@,
                    self.file_record_size,
                    self.cluster_size,
                ),
            ),
    {
        let ghost model = pending_model(pending@);
        let mut places: Vec<(u64, u64)> = Vec::new();
        let mut i: usize = 0;
        assert(model.take(0) =~= seq![]);
        while i < pending.len()
            invariant
                i <= pending@.len(),
                self.wf(),
                model == pending_model(pending@),
                places@ == places_of(
                    model.take(i as int),
                    self.data_runs@,
                    self.file_record_size,
                    self.cluster_size,
                ),
            decreases pending@.len() - i,
        {
            let ghost before = places@;
            proof {
                let step = model.take(i + 1);
                assert(step.drop_last() =~= model.take(i as int));
                assert(step.last() == model[i as int]);
            }
            self.push_places(&pending[i].1, &mut places);
            i += 1;
        }
        assert(model.take(i as int) =~= model);
        merge_sort(&PlaceOrder, &places)
    }

    /// Adds where the records of `numbers` stand on the disk.
    fn push_places(&self, numbers: &Vec<u64>, places: &mut Vec<(u64, u64)>)
        requires
            self.wf(),
        ensures
            final(places)@ == old(places)@ + numbers@.filter_map(
                |n: u64|
                    place_of(self.data_runs@, self.file_record_size, self.cluster_size, n),
            ),
    {
        let ghost f = |n: u64|
            place_of(self.data_runs@, self.file_record_size, self.cluster_size, n);
        let mut k: usize = 0;
        proof {
            assert(numbers@.take(0) =~= seq![]);
            reveal(Seq::filter_map);
            assert(places@ =~= old(places)@ + numbers@.take(0).filter_map(f));
        }
        while k < numbers.len()
            invariant
                k <= numbers@.len(),
                self.wf(),
                f == (|n: u64|
                    place_of(self.data_runs@, self.file_record_size, self.cluster_size, n)),
                places@ =~= old(places)@ + numbers@.take(k as int).filter_map(f),
            decreases numbers@.len() - k,
        {
            proof {
                numbers@.lemma_filter_map_take_succ(f, k as int);
            }
            let n: u64 = numbers[k];
            if let Some(at) = record_disk_offset(
                &self.data_runs,
                self.file_record_size,
                self.cluster_size,
                n,
            ) {
                places.push((at, n));
            }
            k += 1;
        }
        assert(numbers@.take(k as int) =~= numbers@);
    }

    /// The size that another record gives, where its sectors can be put together and it is
    /// not 0.
    pub fn extension_size(&self, record: &mut Vec<u8>, number: u64) -> (r: Option<u64>)
        ensures
            r == size_given(old(record)@, number, self.file_record_size),
    {
        if apply_fixup(record, number, self.file_record_size).is_err() {
            return None;
        }
        let size: u64 = extract_data_size_from_bytes(record.as_slice(), record.len());
        if size > 0 {
            Some(size)
        } else {
            None
        }
    }
}

/// The size that another record gives, where its sectors can be put together and it is
/// not 0.
pub open spec fn size_given(s: Seq<u8>, number: u64, record_size: u64) -> Option<u64> {
    let (whole, error) = fixup::fixed_up(s, number, record_size);
    let size = attributes::size_in(whole, whole.len() as int);
    if error is None && size > 0 {
        Some(size)
    } else {
        None
    }
}

/// A size of records over what the machine can count limits nothing.
proof fn same_limit(s: Seq<u8>, size: int, record_size: u64)
    requires
        size == record_size || (size == usize::MAX && record_size > usize::MAX),
        s.len() <= usize::MAX,
    ensures
        attributes::limit_of(s, size) == attributes::limit_of(s, record_size as int),
        forall|head: int, least: int|
            #![trigger attributes::attributes_of(s, size, head, least)]
            attributes::attributes_of(s, size, head, least) == attributes::attributes_of(
                s,
                record_size as int,
                head,
                least,
            ),
{
}

/// Where record `n` stands on the disk, with its number.
pub open spec fn place_of(
    runs: Seq<DataRun>,
    record_size: u64,
    cluster_size: u64,
    n: u64,
) -> Option<(u64, u64)> {
    match data_runs::disk_offset(runs, record_size, cluster_size, n as int) {
        Some(at) => Some((at as u64, n)),
        None => None,
    }
}

/// Where the other records of the files stand on the disk.
pub open spec fn places_of(
    pending: Seq<(u64, Seq<u64>)>,
    runs: Seq<DataRun>,
    record_size: u64,
    cluster_size: u64,
) -> Seq<(u64, u64)>
    decreases pending.len(),
{
    if pending.len() == 0 {
        seq![]
    } else {
        places_of(pending.drop_last(), runs, record_size, cluster_size)
            + pending.last().1.filter_map(
            |n: u64| place_of(runs, record_size, cluster_size, n),
        )
    }
}

/// The order of places on the disk; of records at one place, that of their numbers.
pub struct PlaceOrder;

impl SortOrder<(u64, u64)> for PlaceOrder {
    open spec fn covers(&self, a: (u64, u64)) -> bool {
        true
    }

    open spec fn leq(&self, a: (u64, u64), b: (u64, u64)) -> bool {
        a.0 < b.0 || (a.0 == b.0 && a.1 <= b.1)
    }

    proof fn total(&self) {
        let leq = |a: (u64, u64), b: (u64, u64)| self.leq(a, b);
        assert(reflexive(leq));
        assert(antisymmetric(leq));
        assert(transitive(leq));
        assert(strongly_connected(leq));
    }

    fn le(&self, a: &(u64, u64), b: &(u64, u64)) -> (r: bool) {
        a.0 < b.0 || (a.0 == b.0 && a.1 <= b.1)
    }
}

/// The first size over 0 that is known of the records.
pub open spec fn first_size(numbers: Seq<u64>, sizes: Map<u64, u64>) -> Option<u64> {
    attributes::first_of(
        numbers.filter_map(
            |n: u64|
                if sizes.contains_key(n) && sizes[n] > 0 {
                    Some(sizes[n])
                } else {
                    None
                },
        ),
    )
}

/// The sizes of files by record: for each the first that its other records give. Of two
/// entries for a record the later counts, where it gives a size.
pub open spec fn sizes_of(pending: Seq<(u64, Seq<u64>)>, sizes: Map<u64, u64>) -> Map<u64, u64>
    decreases pending.len(),
{
    if pending.len() == 0 {
        Map::empty()
    } else {
        let before = sizes_of(pending.drop_last(), sizes);
        match first_size(pending.last().1, sizes) {
            Some(size) => before.insert(pending.last().0, size),
            None => before,
        }
    }
}

/// The first size over 0 that is known of the records.
fn find_size(numbers: &Vec<u64>, sizes: &HashMap<u64, u64>) -> (r: Option<u64>)
    ensures
        r == first_size(numbers@, sizes@),
{
    let ghost f = |n: u64|
        if sizes@.contains_key(n) && sizes@[n] > 0 {
            Some(sizes@[n])
        } else {
            None::<u64>
        };
    let mut i: usize = 0;
    assert(numbers@.skip(0) =~= numbers@);
    while i < numbers.len()
        invariant
            i <= numbers@.len(),
            f == (|n: u64|
                if sizes@.contains_key(n) && sizes@[n] > 0 {
                    Some(sizes@[n])
                } else {
                    None::<u64>
                }),
            numbers@.filter_map(f) == numbers@.skip(i as int).filter_map(f),
        decreases numbers@.len() - i,
    {
        let ghost rest = numbers@.skip(i as int);
        proof {
            seqs::filter_map_first(rest, f);
            assert(rest.drop_first() =~= numbers@.skip(i + 1));
        }
        if let Some(size) = sizes.get(&numbers[i]) {
            if *size > 0 {
                return Some(*size);
            }
        }
        i += 1;
    }
    proof {
        assert(numbers@.skip(i as int) =~= seq![]);
        reveal(Seq::filter_map);
    }
    None
}

/// The sizes of files by record, from the sizes that other records give.
pub fn real_sizes(pending: &Vec<(u64, Vec<u64>)>, sizes: &HashMap<u64, u64>) -> (r: HashMap<
    u64,
    u64,
>)
    ensures
        r@ == sizes_of(pending_model(pending@), sizes@),
{
    let ghost model = pending_model(pending@);
    let mut r: HashMap<u64, u64> = HashMap::new();
    let mut i: usize = 0;
    assert(model.take(0) =~= seq![]);
    while i < pending.len()
        invariant
            i <= pending@.len(),
            model == pending_model(pending@),
            r@ == sizes_of(model.take(i as int), sizes@),
        decreases pending@.len() - i,
    {
        proof {
            let step = model.take(i + 1);
            assert(step.drop_last() =~= model.take(i as int));
            assert(step.last() == model[i as int]);
        }
        if let Some(size) = find_size(&pending[i].1, sizes) {
            r.insert(pending[i].0, size);
        }
        i += 1;
    }
    assert(model.take(i as int) =~= model);
    r
}

/// A record with the size that is known for it.
pub open spec fn with_size(m: ScannedModel, sizes: Map<u64, u64>) -> ScannedModel {
    if sizes.contains_key(m.record_number) {
        ScannedModel { size: sizes[m.record_number], ..m }
    } else {
        m
    }
}

/// Gives the records of a scan the sizes that are known for them.
pub fn fill_sizes(records: &mut Vec<ScanResult>, sizes: &HashMap<u64, u64>)
    ensures
        final(records)@.len() == old(records)@.len(),
        forall|i: int|
            0 <= i < old(records)@.len() ==> (#[trigger] final(records)@[i])@ == with_size(
                old(records)@[i]@,
                sizes@,
            ),
{
    let ghost before = records@;
    let mut i: usize = 0;
    while i < records.len()
        invariant
            i <= before.len(),
            records@.len() == before.len(),
            before == old(records)@,
            forall|k: int|
                0 <= k < i ==> (#[trigger] records@[k])@ == with_size(before[k]@, sizes@),
            forall|k: int| i <= k < before.len() ==> #[trigger] records@[k] == before[k],
        decreases before.len() - i,
    {
        if let Some(size) = sizes.get(&records[i].record_number) {
            records[i].size = *size;
        }
        i += 1;
    }
}

/// The size of the first contents in the record, where there are any.
pub open spec fn own_size(s: Seq<u8>, record_size: int) -> Option<u64> {
    attributes::first_of(
        attributes::attributes_of(s, record_size, 8, 1).filter_map(
            |o: usize| attributes::size_at(s, o),
        ),
    )
}

/// The size of a file: of the contents in its record, else the first that its other
/// records give, where `sizes` has those that could be read; else 0.
pub fn extract_data_size(record: &[u8], record_size: usize, sizes: Option<&HashMap<u64, u64>>) -> (r:
    u64)
    ensures
        r == (match own_size(record@, record_size as int) {
            Some(size) => size,
            None => match sizes {
                Some(sizes) => match first_size(
                    record_details::distinct(
                        record_details::data_records(
                            record_details::list_in(record@, record_size as int),
                        ),
                    ),
                    sizes@,
                ) {
                    Some(size) => size,
                    None => 0,
                },
                None => 0,
            },
        }),
{
    let own: u64 = extract_data_size_from_bytes(record, record_size);
    if own > 0 {
        return own;
    }
    if attributes::has_data(record, record_size) {
        return own;
    }
    if let Some(sizes) = sizes {
        let numbers = extract_data_extension_records(record, record_size);
        if let Some(size) = find_size(&numbers, sizes) {
            return size;
        }
    }
    0
}

} // verus!
