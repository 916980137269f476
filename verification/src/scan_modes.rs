//! The two ways to scan the file table: collecting the records, and handing them out one by one
//! with the sizes that are known only afterwards. Both tell the same of the same disk.

use crate::data_runs;
use crate::data_runs::DataRun;
use crate::mft_scan;
use crate::mft_scan::{
    fill_sizes,
    Outcome,
    ProgressModel,
    ScanOutput,
    ScanResult,
    ScanStats,
    ScanStep,
    ScannedModel,
};
use crate::scan_counts;
use std::collections::HashMap;
use vstd::prelude::*;

verus! {

/// What came of a step of a scan.
pub enum ScanEvent {
    /// It went to a run, or failed to.
    Sought(bool),
    /// It read the bytes of a record.
    Got(Seq<u8>),
    /// It could not read a record.
    Failed,
}

/// How far a scan has come, and the records that it has found to describe files.
#[verifier::ext_equal]
pub struct ScanModel {
    pub progress: ProgressModel,
    pub records: Seq<ScannedModel>,
}

impl ScanModel {
    /// After one more step, of which `event` came; what does not answer the step changes
    /// nothing.
    pub open spec fn after(
        self,
        event: ScanEvent,
        runs: Seq<DataRun>,
        cluster_size: u64,
        record_size: u64,
        max: u64,
    ) -> ScanModel {
        let (m, step) = self.progress.next(runs, cluster_size, record_size, max);
        match (step, event) {
            (ScanStep::Seek(_), ScanEvent::Sought(ok)) => ScanModel {
                progress: m.after_seek(runs, cluster_size, record_size, ok),
                ..self
            },
            (ScanStep::Read, ScanEvent::Got(bytes)) => ScanModel {
                progress: m.after_read(bytes, record_size),
                records: match mft_scan::outcome(bytes, record_size, m.stats.total_records) {
                    Outcome::File(f) => self.records.push(f),
                    _ => self.records,
                },
            },
            (ScanStep::Read, ScanEvent::Failed) => ScanModel {
                progress: m.after_failed_read(),
                ..self
            },
            _ => self,
        }
    }
}

/// A scan after the steps of which the events came.
pub open spec fn scan_of(
    events: Seq<ScanEvent>,
    runs: Seq<DataRun>,
    cluster_size: u64,
    record_size: u64,
    max: u64,
) -> ScanModel
    decreases events.len(),
{
    if events.len() == 0 {
        ScanModel { progress: scan_counts::start(), records: seq![] }
    } else {
        scan_of(events.drop_last(), runs, cluster_size, record_size, max).after(
            events.last(),
            runs,
            cluster_size,
            record_size,
            max,
        )
    }
}

/// The records of a scan and what it counted, where `sizes` are those that are known only
/// afterwards.
pub fn collect_scan(records: Vec<ScanResult>, stats: ScanStats, sizes: &HashMap<u64, u64>) -> (r:
    ScanOutput)
    ensures
        r.all_records@.len() == records@.len(),
        forall|i: int|
            0 <= i < records@.len() ==> (#[trigger] r.all_records@[i])@ == mft_scan::with_size(
                records@[i]@,
                sizes@,
            ),
        counts_of(r) == stats,
{
    let mut all = records;
    fill_sizes(&mut all, sizes);
    ScanOutput::new(all, stats)
}

/// What a scan that collected its records counted.
pub open spec fn counts_of(r: ScanOutput) -> ScanStats {
    ScanStats {
        total_records: r.total_records,
        files: r.files,
        dirs: r.dirs,
        skip_no_signature: r.skip_no_signature,
        skip_fixup_fail: r.skip_fixup_fail,
        skip_inactive: r.skip_inactive,
        total_ads: r.total_ads,
        total_hard_links: r.total_hard_links,
        no_timestamp: r.no_timestamp,
    }
}

/// Whether a record is that of a file of size 0 with the number `n`.
pub open spec fn is_empty_file(m: ScannedModel, n: u64) -> bool {
    m.record_number == n && !m.is_directory && m.size == 0
}

/// What holds of a scan at every moment: the numbers of the records that it found ascend and
/// are below that of the next, and each file whose size stands in other records is one of
/// size 0 among them.
spec fn is_in_step(s: ScanModel) -> bool {
    &&& forall|i: int, j: int|
        0 <= i < j < s.records.len() ==> (#[trigger] s.records[i]).record_number < (
        #[trigger] s.records[j]).record_number
    &&& forall|i: int|
        0 <= i < s.records.len() ==> (#[trigger] s.records[i]).record_number
            < s.progress.stats.total_records
    &&& forall|q: int|
        0 <= q < s.progress.pending.len() ==> has_empty_file(
            s.records,
            (#[trigger] s.progress.pending[q]).0,
        )
}

/// Whether a file of size 0 with the number `n` is among the records.
pub open spec fn has_empty_file(records: Seq<ScannedModel>, n: u64) -> bool {
    exists|i: int| 0 <= i < records.len() && is_empty_file(#[trigger] records[i], n)
}

/// What a scan does next passes no record back, and a record is read only before the last that
/// is asked for.
proof fn next_goes_on(
    p: ProgressModel,
    runs: Seq<DataRun>,
    cluster_size: u64,
    record_size: u64,
    max: u64,
)
    requires
        record_size > 0,
    ensures
        ({
            let (m, step) = p.next(runs, cluster_size, record_size, max);
            &&& p.stats.total_records <= m.stats.total_records
            &&& m.pending == p.pending
            &&& step is Read ==> m.stats.total_records < max
        }),
    decreases runs.len() - p.run,
{
    if p.over {
    } else if p.reading {
        if p.left == 0 || p.stats.total_records >= max {
            if p.run < runs.len() {
                next_goes_on(p.next_run(), runs, cluster_size, record_size, max);
            }
        }
    } else if p.run >= runs.len() || p.stats.total_records >= max {
    } else if runs[p.run].is_sparse {
        let n = data_runs::records_in(runs[p.run], cluster_size, record_size);
        scan_counts::records_positive(runs[p.run], cluster_size, record_size);
        next_goes_on(p.passed(n).next_run(), runs, cluster_size, record_size, max);
    }
}

proof fn stays_in_step(
    s: ScanModel,
    event: ScanEvent,
    runs: Seq<DataRun>,
    cluster_size: u64,
    record_size: u64,
    max: u64,
)
    requires
        is_in_step(s),
        record_size > 0,
    ensures
        is_in_step(s.after(event, runs, cluster_size, record_size, max)),
{
    next_goes_on(s.progress, runs, cluster_size, record_size, max);
    let (m, step) = s.progress.next(runs, cluster_size, record_size, max);
    let t = s.after(event, runs, cluster_size, record_size, max);
    if step is Seek {
        scan_counts::records_positive(runs[m.run], cluster_size, record_size);
    }
    let k = s.records.len() as int;
    assert(s.progress.stats.total_records <= t.progress.stats.total_records);
    if let (ScanStep::Read, ScanEvent::Got(bytes)) = (step, event) {
        let n = m.stats.total_records;
        assert(t.progress.stats.total_records == n + 1);
        if let Outcome::File(f) = mft_scan::outcome(bytes, record_size, n) {
            assert(f.record_number == n);
            assert(t.records[k] == f);
        }
    }
    assert forall|i: int| 0 <= i < t.records.len() implies (#[trigger] t.records[i]).record_number
        < t.progress.stats.total_records by {
        if i < k {
            assert(t.records[i] == s.records[i]);
        }
    }
    assert forall|i: int, j: int| 0 <= i < j < t.records.len() implies (
    #[trigger] t.records[i]).record_number < (#[trigger] t.records[j]).record_number by {
        assert(t.records[i] == s.records[i]);
        if j < k {
            assert(t.records[j] == s.records[j]);
        }
    }
    assert forall|q: int| 0 <= q < t.progress.pending.len() implies has_empty_file(
        t.records,
        (#[trigger] t.progress.pending[q]).0,
    ) by {
        if q < s.progress.pending.len() {
            let n = s.progress.pending[q].0;
            assert(t.progress.pending[q].0 == n);
            assert(has_empty_file(s.records, n));
            let i = choose|i: int| 0 <= i < s.records.len() && is_empty_file(
                #[trigger] s.records[i],
                n,
            );
            assert(t.records[i] == s.records[i]);
        } else {
            assert(is_empty_file(t.records[k], t.progress.pending[q].0));
        }
    }
}

proof fn scan_is_in_step(
    events: Seq<ScanEvent>,
    runs: Seq<DataRun>,
    cluster_size: u64,
    record_size: u64,
    max: u64,
)
    requires
        record_size > 0,
    ensures
        is_in_step(scan_of(events, runs, cluster_size, record_size, max)),
    decreases events.len(),
{
    if events.len() > 0 {
        scan_is_in_step(events.drop_last(), runs, cluster_size, record_size, max);
        stays_in_step(
            scan_of(events.drop_last(), runs, cluster_size, record_size, max),
            events.last(),
            runs,
            cluster_size,
            record_size,
            max,
        );
    }
}

/// A size that is known afterwards is over 0, and is that of a file that waited for it.
proof fn size_has_file(pending: Seq<(u64, Seq<u64>)>, given: Map<u64, u64>, n: u64) -> (q: int)
    requires
        mft_scan::sizes_of(pending, given).contains_key(n),
    ensures
        0 <= q < pending.len(),
        pending[q].0 == n,
        mft_scan::sizes_of(pending, given)[n] > 0,
    decreases pending.len(),
{
    let last = pending.len() - 1;
    let size = mft_scan::first_size(pending.last().1, given);
    if size is Some && pending.last().0 == n {
        let known = |r: u64|
            if given.contains_key(r) && given[r] > 0 {
                Some(given[r])
            } else {
                None::<u64>
            };
        let all = pending.last().1.filter_map(known);
        assert(all.contains(all[0]));
        pending.last().1.lemma_filter_map_contains(known, all[0]);
        last
    } else {
        let q = size_has_file(pending.drop_last(), given, n);
        assert(pending.drop_last()[q] == pending[q]);
        q
    }
}

/// What a scan gives that hands its records out: the records, what it counted, and the sizes
/// that are known only afterwards, where other records gave the sizes `given`.
pub open spec fn streamed(
    events: Seq<ScanEvent>,
    runs: Seq<DataRun>,
    cluster_size: u64,
    record_size: u64,
    max: u64,
    given: Map<u64, u64>,
) -> (Seq<ScannedModel>, ScanStats, Map<u64, u64>) {
    let s = scan_of(events, runs, cluster_size, record_size, max);
    let end = s.progress.next(runs, cluster_size, record_size, max).0;
    (s.records, end.stats, mft_scan::sizes_of(end.pending, given))
}

/// What a scan gives that collects its records: these, with the sizes that are known
/// afterwards, and what it counted.
pub open spec fn collected(
    events: Seq<ScanEvent>,
    runs: Seq<DataRun>,
    cluster_size: u64,
    record_size: u64,
    max: u64,
    given: Map<u64, u64>,
) -> (Seq<ScannedModel>, ScanStats) {
    let s = scan_of(events, runs, cluster_size, record_size, max);
    let end = s.progress.next(runs, cluster_size, record_size, max).0;
    (
        s.records.map_values(
            |m: ScannedModel|
                mft_scan::with_size(m, mft_scan::sizes_of(end.pending, given)),
        ),
        end.stats,
    )
}

/// Of the same disk, a scan that hands its records out and one that collects them tell the
/// same: as many records, which agree in all but the size; the size that is collected is that
/// which is known afterwards, or else that which was handed out. Each size that is known
/// afterwards is over 0, and is that of one record, of a file that was handed out with the size
/// 0. What they count is the same.
pub proof fn scans_agree(
    events: Seq<ScanEvent>,
    runs: Seq<DataRun>,
    cluster_size: u64,
    record_size: u64,
    max: u64,
    given: Map<u64, u64>,
)
    requires
        record_size > 0,
    ensures
        ({
            let (p, p_stats, sizes) = streamed(
                events,
                runs,
                cluster_size,
                record_size,
                max,
                given,
            );
            let (a, a_stats) = collected(events, runs, cluster_size, record_size, max, given);
            &&& a.len() == p.len()
            &&& a_stats == p_stats
            &&& forall|i: int|
                0 <= i < p.len() ==> #[trigger] a[i] == (ScannedModel {
                    size: if sizes.contains_key(p[i].record_number) {
                        sizes[p[i].record_number]
                    } else {
                        p[i].size
                    },
                    ..p[i]
                })
            &&& forall|n: u64| #[trigger]
                sizes.contains_key(n) ==> sizes[n] > 0 && has_empty_file(p, n)
            &&& forall|i: int, j: int|
                0 <= i < j < p.len() ==> (#[trigger] p[i]).record_number < (
                #[trigger] p[j]).record_number
        }),
{
    scan_is_in_step(events, runs, cluster_size, record_size, max);
    let s = scan_of(events, runs, cluster_size, record_size, max);
    next_goes_on(s.progress, runs, cluster_size, record_size, max);
    let sizes = mft_scan::sizes_of(s.progress.pending, given);
    assert forall|n: u64| #[trigger] sizes.contains_key(n) implies sizes[n] > 0 && has_empty_file(
        s.records,
        n,
    ) by {
        let q = size_has_file(s.progress.pending, given, n);
        assert(has_empty_file(s.records, s.progress.pending[q].0));
    }
}

} // verus!
