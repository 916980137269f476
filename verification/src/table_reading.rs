//! A scan of the file table takes each record from where the record of its number stands, and gives
//! files the sizes that their other records tell.

use crate::data_runs;
use crate::data_runs::DataRun;
use crate::mft_scan;
use crate::mft_scan::{ProgressModel, ScanStep};
use crate::run_layout;
use crate::run_layout::records_before;
use crate::scan_counts;
use crate::seqs;
use crate::sorting;
use vstd::prelude::*;

verus! {

/// Whether a scan that has come so far stands at byte `head` of the disk, where it should: in a run
/// behind as many records of it as were counted, or between two runs.
pub open spec fn is_placed(
    p: ProgressModel,
    head: int,
    runs: Seq<DataRun>,
    cluster_size: u64,
    record_size: u64,
    max: u64,
) -> bool {
    let before = records_before(runs, cluster_size, record_size, p.run);
    &&& 0 <= p.run <= runs.len()
    &&& if p.reading {
        let n = data_runs::records_in(runs[p.run], cluster_size, record_size);
        &&& p.run < runs.len()
        &&& !runs[p.run].is_sparse
        &&& 0 <= p.left <= n
        &&& p.stats.total_records == before + n - p.left
        &&& head == runs[p.run].lcn * cluster_size + (n - p.left) * record_size
    } else {
        p.stats.total_records == before || p.stats.total_records >= max
    }
}

/// A scan that has not begun stands where it should.
pub proof fn start_is_placed(runs: Seq<DataRun>, cluster_size: u64, record_size: u64, max: u64)
    ensures
        is_placed(scan_counts::start(), 0, runs, cluster_size, record_size, max),
{
}

proof fn before_grows(runs: Seq<DataRun>, cluster_size: u64, record_size: u64, k: int)
    requires
        0 <= k <= runs.len(),
        record_size > 0,
    ensures
        records_before(runs, cluster_size, record_size, k) <= records_before(
            runs,
            cluster_size,
            record_size,
            runs.len() as int,
        ),
    decreases runs.len() - k,
{
    if k < runs.len() {
        before_grows(runs, cluster_size, record_size, k + 1);
        scan_counts::records_positive(runs[k], cluster_size, record_size);
    }
}

proof fn next_is_placed(
    p: ProgressModel,
    head: int,
    runs: Seq<DataRun>,
    cluster_size: u64,
    record_size: u64,
    max: u64,
)
    requires
        is_placed(p, head, runs, cluster_size, record_size, max),
        record_size > 0,
        records_before(runs, cluster_size, record_size, runs.len() as int) <= u64::MAX,
    ensures
        ({
            let (m, step) = p.next(runs, cluster_size, record_size, max);
            &&& m.errors == p.errors
            &&& step is Read ==> m == p && p.reading && p.left > 0 && p.stats.total_records < max
            &&& step matches ScanStep::Seek(o) ==> {
                &&& !m.reading
                &&& m.run < runs.len()
                &&& !runs[m.run].is_sparse
                &&& m.stats.total_records < max
                &&& is_placed(m, head, runs, cluster_size, record_size, max)
                &&& o == (runs[m.run].lcn * cluster_size) as u64
            }
        }),
    decreases runs.len() - p.run,
{
    if p.over {
    } else if p.reading {
        if p.left == 0 || p.stats.total_records >= max {
            next_is_placed(p.next_run(), head, runs, cluster_size, record_size, max);
        }
    } else if p.run >= runs.len() || p.stats.total_records >= max {
    } else if runs[p.run].is_sparse {
        let n = data_runs::records_in(runs[p.run], cluster_size, record_size);
        before_grows(runs, cluster_size, record_size, p.run + 1);
        scan_counts::records_positive(runs[p.run], cluster_size, record_size);
        let q = p.passed(n).next_run();
        next_is_placed(q, head, runs, cluster_size, record_size, max);
    }
}

/// A scan reads each record at the place where the record of the number that it gives it stands, and
/// goes to a run where the next record stands. Whatever comes of a step, the scan stands where it
/// should after it, so that the same holds of the next.
pub proof fn record_is_read_at_its_place(
    p: ProgressModel,
    head: int,
    runs: Seq<DataRun>,
    cluster_size: u64,
    record_size: u64,
    max: u64,
    s: Seq<u8>,
)
    requires
        is_placed(p, head, runs, cluster_size, record_size, max),
        data_runs::runs_fit(runs, record_size, cluster_size),
        records_before(runs, cluster_size, record_size, runs.len() as int) <= u64::MAX,
    ensures
        ({
            let (m, step) = p.next(runs, cluster_size, record_size, max);
            let at = data_runs::disk_offset(
                runs,
                record_size,
                cluster_size,
                m.stats.total_records as int,
            );
            match step {
                ScanStep::Read => {
                    &&& m.stats.total_records < max
                    &&& at == Some(head)
                    &&& is_placed(
                        m.after_read(s, record_size),
                        head + record_size,
                        runs,
                        cluster_size,
                        record_size,
                        max,
                    )
                    &&& 0 <= m.errors < 100 ==> is_placed(
                        m.after_failed_read(),
                        head + record_size,
                        runs,
                        cluster_size,
                        record_size,
                        max,
                    )
                },
                ScanStep::Seek(o) => {
                    &&& m.stats.total_records < max
                    &&& runs[m.run].length * cluster_size >= record_size ==> at == Some(o as int)
                    &&& is_placed(
                        m.after_seek(runs, cluster_size, record_size, true),
                        o as int,
                        runs,
                        cluster_size,
                        record_size,
                        max,
                    )
                    &&& 0 <= m.errors < 100 ==> is_placed(
                        m.after_seek(runs, cluster_size, record_size, false),
                        head,
                        runs,
                        cluster_size,
                        record_size,
                        max,
                    )
                },
                ScanStep::Done => true,
            }
        }),
{
    next_is_placed(p, head, runs, cluster_size, record_size, max);
    let (m, step) = p.next(runs, cluster_size, record_size, max);
    if !(step is Done) {
        let n = data_runs::records_in(runs[m.run], cluster_size, record_size);
        let run = runs[m.run];
        scan_counts::records_positive(run, cluster_size, record_size);
        before_grows(runs, cluster_size, record_size, m.run + 1);
        assert(run.length * cluster_size >= 0 && run.lcn * cluster_size >= 0) by (nonlinear_arith);
        if step is Read {
            run_layout::record_stands_in_run(runs, cluster_size, record_size, m.run, n - m.left);
            assert((n - m.left + 1) * record_size == (n - m.left) * record_size + record_size)
                by (nonlinear_arith);
        } else {
            if run.length * cluster_size >= record_size {
                assert(n >= 1) by (nonlinear_arith)
                    requires
                        run.length * cluster_size >= record_size,
                        n == (run.length * cluster_size) / (record_size as int),
                        record_size > 0,
                ;
                run_layout::record_stands_in_run(runs, cluster_size, record_size, m.run, 0);
            }
            assert(0 * record_size == 0);
        }
    }
}

/// The other records of files are visited in the order of the disk, each where it stands, and none
/// that stands somewhere is passed by.
pub proof fn other_records_are_visited(
    pending: Seq<(u64, Seq<u64>)>,
    runs: Seq<DataRun>,
    cluster_size: u64,
    record_size: u64,
)
    ensures
        ({
            let found = sorting::in_order(
                mft_scan::PlaceOrder,
                mft_scan::places_of(pending, runs, record_size, cluster_size),
            );
            &&& forall|i: int, j: int|
                0 <= i < j < found.len() ==> (#[trigger] found[i]).0 <= (#[trigger] found[j]).0
            &&& forall|at: u64, n: u64| #[trigger]
                found.contains((at, n)) <==> is_asked(pending, n) && (data_runs::disk_offset(
                    runs,
                    record_size,
                    cluster_size,
                    n as int,
                ) matches Some(o) && o as u64 == at)
        }),
{
    let places = mft_scan::places_of(pending, runs, record_size, cluster_size);
    let found = sorting::in_order(mft_scan::PlaceOrder, places);
    sorting::in_order_sorts(mft_scan::PlaceOrder, places);
    assert forall|at: u64, n: u64| #[trigger] found.contains((at, n)) <==> is_asked(pending, n) && (
    data_runs::disk_offset(runs, record_size, cluster_size, n as int) matches Some(o) && o as u64
        == at) by {
        places_are_asked(pending, runs, cluster_size, record_size, at, n);
        vstd::seq_lib::to_multiset_contains(found, (at, n));
        vstd::seq_lib::to_multiset_contains(places, (at, n));
    }
}

/// Whether a record is among the other records of a file.
pub open spec fn is_asked(pending: Seq<(u64, Seq<u64>)>, n: u64) -> bool {
    exists|i: int| 0 <= i < pending.len() && (#[trigger] pending[i]).1.contains(n)
}

proof fn places_are_asked(
    pending: Seq<(u64, Seq<u64>)>,
    runs: Seq<DataRun>,
    cluster_size: u64,
    record_size: u64,
    at: u64,
    n: u64,
)
    ensures
        mft_scan::places_of(pending, runs, record_size, cluster_size).contains((at, n)) <==> (
        is_asked(pending, n) && (data_runs::disk_offset(
            runs,
            record_size,
            cluster_size,
            n as int,
        ) matches Some(o) && o as u64 == at)),
    decreases pending.len(),
{
    let all = mft_scan::places_of(pending, runs, record_size, cluster_size);
    if pending.len() > 0 {
        let f = |n: u64| mft_scan::place_of(runs, record_size, cluster_size, n);
        let (init, last) = (pending.drop_last(), pending.last());
        let before = mft_scan::places_of(init, runs, record_size, cluster_size);
        let added = last.1.filter_map(f);
        places_are_asked(init, runs, cluster_size, record_size, at, n);
        assert(all == before + added);
        assert(all.contains((at, n)) <==> before.contains((at, n)) || added.contains((at, n))) by {
            if before.contains((at, n)) {
                let k = choose|k: int| 0 <= k < before.len() && before[k] == (at, n);
                assert(all[k] == (at, n));
            }
            if added.contains((at, n)) {
                let k = choose|k: int| 0 <= k < added.len() && added[k] == (at, n);
                assert(all[before.len() + k] == (at, n));
            }
            if all.contains((at, n)) {
                let k = choose|k: int| 0 <= k < all.len() && all[k] == (at, n);
                if k < before.len() {
                    assert(before[k] == (at, n));
                } else {
                    assert(added[k - before.len()] == (at, n));
                }
            }
        }
        if added.contains((at, n)) {
            last.1.lemma_filter_map_contains(f, (at, n));
            let x = choose|x: u64| #[trigger] last.1.contains(x) && f(x) == Some((at, n));
            assert(x == n);
            assert(pending[pending.len() - 1].1.contains(n));
        }
        if is_asked(init, n) {
            let i = choose|i: int| 0 <= i < init.len() && (#[trigger] init[i]).1.contains(n);
            assert(pending[i].1.contains(n));
        }
        if is_asked(pending, n) && f(n) == Some((at, n)) {
            let i = choose|i: int| 0 <= i < pending.len() && (#[trigger] pending[i]).1.contains(n);
            if i < init.len() {
                assert(init[i].1.contains(n));
            } else {
                let k = choose|k: int| 0 <= k < last.1.len() && last.1[k] == n;
                seqs::filter_map_has(last.1, f, k);
            }
        }
    }
}

/// A file whose size stands in other records gets the size that the first of them gives for which
/// one over 0 is known. `k` is the place of that record among them.
pub proof fn size_is_of_other_record(
    pending: Seq<(u64, Seq<u64>)>,
    sizes: Map<u64, u64>,
    i: int,
    k: int,
)
    requires
        0 <= i < pending.len(),
        forall|j: int| i < j < pending.len() ==> (#[trigger] pending[j]).0 != pending[i].0,
        0 <= k < pending[i].1.len(),
        sizes.contains_key(pending[i].1[k]),
        sizes[pending[i].1[k]] > 0,
        forall|j: int|
            0 <= j < k ==> !(sizes.contains_key(#[trigger] pending[i].1[j])
                && sizes[pending[i].1[j]] > 0),
    ensures
        mft_scan::sizes_of(pending, sizes).contains_key(pending[i].0),
        mft_scan::sizes_of(pending, sizes)[pending[i].0] == sizes[pending[i].1[k]],
    decreases pending.len(),
{
    let init = pending.drop_last();
    if i < pending.len() - 1 {
        assert(pending[pending.len() - 1].0 != pending[i].0);
        assert forall|j: int| i < j < init.len() implies (#[trigger] init[j]).0 != init[i].0 by {
            assert(init[j] == pending[j]);
        }
        size_is_of_other_record(init, sizes, i, k);
    } else {
        first_size_is(pending[i].1, sizes, k);
    }
}

proof fn first_size_is(numbers: Seq<u64>, sizes: Map<u64, u64>, k: int)
    requires
        0 <= k < numbers.len(),
        sizes.contains_key(numbers[k]),
        sizes[numbers[k]] > 0,
        forall|j: int|
            0 <= j < k ==> !(sizes.contains_key(#[trigger] numbers[j]) && sizes[numbers[j]] > 0),
    ensures
        mft_scan::first_size(numbers, sizes) == Some(sizes[numbers[k]]),
    decreases k,
{
    let f = |n: u64|
        if sizes.contains_key(n) && sizes[n] > 0 {
            Some(sizes[n])
        } else {
            None::<u64>
        };
    seqs::filter_map_first(numbers, f);
    if k > 0 {
        let rest = numbers.drop_first();
        assert(f(numbers[0]) is None);
        assert forall|j: int| 0 <= j < k - 1 implies !(sizes.contains_key(#[trigger] rest[j])
            && sizes[rest[j]] > 0) by {
            assert(rest[j] == numbers[j + 1]);
        }
        first_size_is(rest, sizes, k - 1);
    }
}

/// A file whose other records give no size over 0 gets none.
pub proof fn size_is_left(pending: Seq<(u64, Seq<u64>)>, sizes: Map<u64, u64>, number: u64)
    requires
        forall|i: int, k: int|
            0 <= i < pending.len() && pending[i].0 == number && 0 <= k < pending[i].1.len() ==> !(
            sizes.contains_key(#[trigger] pending[i].1[k]) && sizes[pending[i].1[k]] > 0),
    ensures
        !mft_scan::sizes_of(pending, sizes).contains_key(number),
    decreases pending.len(),
{
    if pending.len() > 0 {
        let (init, last) = (pending.drop_last(), pending.last());
        assert forall|i: int, k: int|
            0 <= i < init.len() && init[i].0 == number && 0 <= k < init[i].1.len() implies !(
        sizes.contains_key(#[trigger] init[i].1[k]) && sizes[init[i].1[k]] > 0) by {
            assert(init[i] == pending[i]);
            let n = pending[i].1[k];
        }
        size_is_left(init, sizes, number);
        if last.0 == number {
            let f = |n: u64|
                if sizes.contains_key(n) && sizes[n] > 0 {
                    Some(sizes[n])
                } else {
                    None::<u64>
                };
            let found = last.1.filter_map(f);
            if found.len() > 0 {
                assert(found.contains(found[0]));
                last.1.lemma_filter_map_contains(f, found[0]);
                let x = choose|x: u64| #[trigger] last.1.contains(x) && f(x) == Some(found[0]);
                let k = choose|k: int| 0 <= k < last.1.len() && last.1[k] == x;
                assert(pending[pending.len() - 1].1[k] == x);
            }
        }
    }
}

} // verus!
