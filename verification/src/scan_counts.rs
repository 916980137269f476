//! What holds of the counts of a scan of the file table: every record that is read counts
//! once.

use crate::data_runs;
use crate::data_runs::DataRun;
use crate::mft_scan::{ProgressModel, ScanStats, ScanStep};
use vstd::prelude::*;

verus! {

/// How many records were found to be a file, a directory, or none of both.
pub open spec fn tally(s: ScanStats) -> int {
    s.files + s.dirs + s.skip_no_signature + s.skip_fixup_fail + s.skip_inactive
}

/// How many records the runs hold.
pub open spec fn records_of(runs: Seq<DataRun>, cluster_size: u64, record_size: u64) -> int
    decreases runs.len(),
{
    if runs.len() == 0 {
        0
    } else {
        records_of(runs.drop_last(), cluster_size, record_size) + data_runs::records_in(
            runs.last(),
            cluster_size,
            record_size,
        )
    }
}

/// Whether a scan came from `p` to `q` in one step in which nothing failed: it went to a
/// run, or read the record `bytes`.
pub open spec fn steps_to(
    p: ProgressModel,
    q: ProgressModel,
    bytes: Seq<u8>,
    runs: Seq<DataRun>,
    cluster_size: u64,
    record_size: u64,
    max: u64,
) -> bool {
    let (m, step) = p.next(runs, cluster_size, record_size, max);
    match step {
        ScanStep::Seek(_) => q == m.after_seek(runs, cluster_size, record_size, true),
        ScanStep::Read => q == m.after_read(bytes, record_size),
        ScanStep::Done => false,
    }
}

/// A scan that has not begun.
pub open spec fn start() -> ProgressModel {
    ProgressModel {
        run: 0,
        left: 0,
        reading: false,
        over: false,
        errors: 0,
        stats: ScanStats {
            total_records: 0,
            files: 0,
            dirs: 0,
            skip_no_signature: 0,
            skip_fixup_fail: 0,
            skip_inactive: 0,
            total_ads: 0,
            total_hard_links: 0,
            no_timestamp: 0,
        },
        pending: seq![],
    }
}

/// Whether `history` is the course of a scan in which nothing failed, which read the
/// records `bytes`.
pub open spec fn is_course(
    history: Seq<ProgressModel>,
    bytes: Seq<Seq<u8>>,
    runs: Seq<DataRun>,
    cluster_size: u64,
    record_size: u64,
    max: u64,
) -> bool {
    &&& history.len() > 0
    &&& history[0] == start()
    &&& bytes.len() == history.len()
    &&& forall|i: int|
        0 < i < history.len() ==> steps_to(
            history[i - 1],
            #[trigger] history[i],
            bytes[i],
            runs,
            cluster_size,
            record_size,
            max,
        )
}

/// What holds of every moment of such a scan.
spec fn adds_up(
    p: ProgressModel,
    runs: Seq<DataRun>,
    cluster_size: u64,
    record_size: u64,
    max: u64,
) -> bool {
    let before = records_of(runs.take(p.run), cluster_size, record_size);
    &&& tally(p.stats) == p.stats.total_records
    &&& p.stats.total_records <= max
    &&& 0 <= p.run <= runs.len()
    &&& !p.over
    &&& if p.reading {
        let n = data_runs::records_in(runs[p.run], cluster_size, record_size);
        &&& p.run < runs.len()
        &&& 0 <= p.left <= n
        &&& p.stats.total_records == before + n - p.left
    } else {
        p.stats.total_records == before || (p.stats.total_records == max && max <= before)
    }
}

/// The runs up to a place hold as many records as those before it and the one there.
proof fn one_run_more(runs: Seq<DataRun>, cluster_size: u64, record_size: u64, i: int)
    requires
        0 <= i < runs.len(),
    ensures
        records_of(runs.take(i + 1), cluster_size, record_size) == records_of(
            runs.take(i),
            cluster_size,
            record_size,
        ) + data_runs::records_in(runs[i], cluster_size, record_size),
{
    assert(runs.take(i + 1).drop_last() =~= runs.take(i));
}

/// No part of the runs holds more records than all.
proof fn part_holds_no_more(runs: Seq<DataRun>, cluster_size: u64, record_size: u64, i: int)
    requires
        0 <= i <= runs.len(),
        record_size > 0,
    ensures
        records_of(runs.take(i), cluster_size, record_size) <= records_of(
            runs,
            cluster_size,
            record_size,
        ),
    decreases runs.len() - i,
{
    if i < runs.len() {
        part_holds_no_more(runs, cluster_size, record_size, i + 1);
        one_run_more(runs, cluster_size, record_size, i);
        records_positive(runs[i], cluster_size, record_size);
    } else {
        assert(runs.take(i) =~= runs);
    }
}

pub proof fn records_positive(run: DataRun, cluster_size: u64, record_size: u64)
    requires
        record_size > 0,
    ensures
        data_runs::records_in(run, cluster_size, record_size) >= 0,
{
    assert((run.length * cluster_size) / (record_size as int) >= 0) by (nonlinear_arith)
        requires
            record_size > 0,
    ;
}

/// What the scan does next leaves the counts as they are.
proof fn next_adds_up(
    p: ProgressModel,
    runs: Seq<DataRun>,
    cluster_size: u64,
    record_size: u64,
    max: u64,
)
    requires
        adds_up(p, runs, cluster_size, record_size, max),
        record_size > 0,
        forall|i: int| 0 <= i < runs.len() ==> !(#[trigger] runs[i]).is_sparse,
    ensures
        ({
            let (m, step) = p.next(runs, cluster_size, record_size, max);
            &&& m.stats == p.stats
            &&& step is Done ==> m.stats.total_records == (if max
                < records_of(runs, cluster_size, record_size) {
                max as int
            } else {
                records_of(runs, cluster_size, record_size)
            })
            &&& step is Seek ==> !m.reading && m.run < runs.len() && adds_up(
                m,
                runs,
                cluster_size,
                record_size,
                max,
            ) && m.stats.total_records == records_of(runs.take(m.run), cluster_size, record_size)
            &&& step is Read ==> m.reading && m.left > 0 && m.stats.total_records < max && adds_up(
                m,
                runs,
                cluster_size,
                record_size,
                max,
            )
        }),
{
    reveal_with_fuel(ProgressModel::next, 3);
    part_holds_no_more(runs, cluster_size, record_size, p.run);
    assert(runs.take(runs.len() as int) =~= runs);
    if p.reading {
        one_run_more(runs, cluster_size, record_size, p.run);
        part_holds_no_more(runs, cluster_size, record_size, p.run + 1);
        let q = p.next_run();
        if q.run < runs.len() {
            assert(!runs[q.run].is_sparse);
        }
        if p.left == 0 || p.stats.total_records >= max {
            assert(adds_up(q, runs, cluster_size, record_size, max));
        }
    } else if p.run < runs.len() {
        assert(!runs[p.run].is_sparse);
    }
}

/// Reading a record counts it once.
proof fn read_counts_once(p: ProgressModel, bytes: Seq<u8>, record_size: u64)
    requires
        tally(p.stats) == p.stats.total_records,
        p.stats.total_records < u64::MAX,
    ensures
        ({
            let q = p.after_read(bytes, record_size);
            &&& tally(q.stats) == q.stats.total_records
            &&& q.stats.total_records == p.stats.total_records + 1
        }),
{
}

/// Every moment of a scan in which nothing failed adds up.
proof fn course_adds_up(
    history: Seq<ProgressModel>,
    bytes: Seq<Seq<u8>>,
    runs: Seq<DataRun>,
    cluster_size: u64,
    record_size: u64,
    max: u64,
    i: int,
)
    requires
        is_course(history, bytes, runs, cluster_size, record_size, max),
        record_size > 0,
        forall|i: int| 0 <= i < runs.len() ==> !(#[trigger] runs[i]).is_sparse,
        0 <= i < history.len(),
    ensures
        adds_up(history[i], runs, cluster_size, record_size, max),
    decreases i,
{
    if i == 0 {
        assert(runs.take(0) =~= seq![]);
    } else {
        course_adds_up(history, bytes, runs, cluster_size, record_size, max, i - 1);
        let p = history[i - 1];
        next_adds_up(p, runs, cluster_size, record_size, max);
        let (m, step) = p.next(runs, cluster_size, record_size, max);
        assert(steps_to(p, history[i], bytes[i], runs, cluster_size, record_size, max));
        match step {
            ScanStep::Seek(_) => records_positive(runs[m.run], cluster_size, record_size),
            _ => read_counts_once(m, bytes[i], record_size),
        }
    }
}

/// Where nothing fails and no run is sparse, a scan that is over has counted every record
/// that it was asked for, as far as there are so many, and each of them once: as a file, as
/// a directory, or as one that is neither.
pub proof fn counters_sum_up(
    history: Seq<ProgressModel>,
    bytes: Seq<Seq<u8>>,
    runs: Seq<DataRun>,
    cluster_size: u64,
    record_size: u64,
    max: u64,
)
    requires
        is_course(history, bytes, runs, cluster_size, record_size, max),
        record_size > 0,
        forall|i: int| 0 <= i < runs.len() ==> !(#[trigger] runs[i]).is_sparse,
        history.last().next(runs, cluster_size, record_size, max).1 is Done,
    ensures
        ({
            let s = history.last().next(runs, cluster_size, record_size, max).0.stats;
            &&& tally(s) == s.total_records
            &&& s.total_records == (if max < records_of(runs, cluster_size, record_size) {
                max as int
            } else {
                records_of(runs, cluster_size, record_size)
            })
        }),
{
    let n = history.len() - 1;
    course_adds_up(history, bytes, runs, cluster_size, record_size, max, n);
    next_adds_up(history[n], runs, cluster_size, record_size, max);
}

} // verus!
