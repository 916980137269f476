//! The runs of clusters that hold a stream, and where the records of the file table
//! stand in them.

use crate::bytes;
use crate::bytes::{read_signed_le, read_unsigned_le};
use vstd::prelude::*;
use vstd::slice::slice_subrange;

verus! {

/// A run of clusters. A sparse run stands nowhere on the disk.
#[derive(Clone, Copy, Debug, PartialEq, Eq, Structural)]
pub struct DataRun {
    pub lcn: u64,
    pub length: u64,
    pub is_sparse: bool,
}

/// What stands at the beginning of a list of runs.
pub enum RunEntry {
    /// The list ends: at a zero byte, at an entry that is cut short, or at one of numbers
    /// over eight bytes.
    End,
    /// An entry without a length, of so many bytes.
    Empty(usize),
    /// An entry of so many clusters, so far behind the run before, of so many bytes.
    Run(u64, i64, usize),
}

/// What stands at the beginning of `data`. A first byte gives in its low half the size of
/// the length and in its high half the size of the distance from the run before; both
/// follow.
pub open spec fn first_entry(data: Seq<u8>) -> RunEntry {
    let len_size = (data[0] % 16) as int;
    let off_size = (data[0] / 16) as int;
    if data.len() == 0 || len_size == 0 || len_size > 8 || 1 + len_size > data.len() {
        RunEntry::End
    } else {
        let length = bytes::le_value(data.subrange(1, 1 + len_size)) as u64;
        if length == 0 {
            RunEntry::Empty((1 + len_size) as usize)
        } else if off_size > 8 || 1 + len_size + off_size > data.len() {
            RunEntry::End
        } else {
            RunEntry::Run(
                length,
                bytes::signed_value(
                    data.subrange(1 + len_size, 1 + len_size + off_size),
                ) as i64,
                (1 + len_size + off_size) as usize,
            )
        }
    }
}

/// The runs that the bytes list, where the run before them began at cluster `prev`. One
/// without a distance is sparse.
pub open spec fn runs_in(data: Seq<u8>, prev: i64) -> Seq<DataRun>
    decreases data.len(),
{
    match first_entry(data) {
        RunEntry::End => seq![],
        RunEntry::Empty(used) => if 0 < used <= data.len() {
            runs_in(data.skip(used as int), prev)
        } else {
            seq![]
        },
        RunEntry::Run(length, distance, used) => if 0 < used <= data.len() {
            let lcn = prev.wrapping_add(distance);
            if distance == 0 {
                seq![DataRun { lcn: 0, length, is_sparse: true }] + runs_in(
                    data.skip(used as int),
                    prev,
                )
            } else {
                seq![DataRun { lcn: lcn as u64, length, is_sparse: false }] + runs_in(
                    data.skip(used as int),
                    lcn,
                )
            }
        } else {
            seq![]
        },
    }
}

/// What stands at `offset` of a list of runs.
fn read_entry(data: &[u8], offset: usize) -> (r: RunEntry)
    requires
        offset < data.len(),
    ensures
        r == first_entry(data@.skip(offset as int)),
        r matches RunEntry::Empty(used) ==> 0 < used <= data.len() - offset,
        r matches RunEntry::Run(l, d, used) ==> 0 < used <= data.len() - offset,
{
    let ghost rest = data@.skip(offset as int);
    let header: u8 = data[offset];
    assert(header == rest[0]);
    let len_size: usize = (header % 16) as usize;
    let off_size: usize = (header / 16) as usize;
    let from: usize = offset + 1;
    if len_size == 0 || len_size > 8 || len_size > data.len() - from {
        return RunEntry::End;
    }
    let mid: usize = from + len_size;
    let length: u64 = read_unsigned_le(slice_subrange(data, from, mid));
    assert(data@.subrange(from as int, mid as int) =~= rest.subrange(1, 1 + len_size));
    if length == 0 {
        return RunEntry::Empty(1 + len_size);
    }
    if off_size > 8 || off_size > data.len() - mid {
        return RunEntry::End;
    }
    let end: usize = mid + off_size;
    let distance: i64 = read_signed_le(slice_subrange(data, mid, end));
    assert(data@.subrange(mid as int, end as int) =~= rest.subrange(
        1 + len_size,
        1 + len_size + off_size,
    ));
    RunEntry::Run(length, distance, 1 + len_size + off_size)
}

/// The runs that the bytes list.
pub fn parse_data_runs(data: &[u8]) -> (r: Vec<DataRun>)
    ensures
        r@ == runs_in(data@, 0),
{
    let mut runs: Vec<DataRun> = Vec::new();
    let mut offset: usize = 0;
    let mut prev: i64 = 0;
    assert(data@.skip(0) =~= data@);
    assert(runs@ + runs_in(data@, 0) =~= runs_in(data@, 0));
    while offset < data.len()
        invariant_except_break
            offset <= data@.len(),
            runs@ + runs_in(data@.skip(offset as int), prev) == runs_in(data@, 0),
        ensures
            runs@ == runs_in(data@, 0),
        decreases data@.len() - offset,
    {
        let ghost rest = data@.skip(offset as int);
        match read_entry(data, offset) {
            RunEntry::End => {
                assert(runs@ + runs_in(rest, prev) =~= runs@);
                break ;
            },
            RunEntry::Empty(used) => {
                assert(rest.skip(used as int) =~= data@.skip(offset + used));
                offset = offset + used;
            },
            RunEntry::Run(length, distance, used) => {
                assert(rest.skip(used as int) =~= data@.skip(offset + used));
                let ghost before = runs@;
                let ghost old_prev = prev;
                if distance == 0 {
                    runs.push(DataRun { lcn: 0, length, is_sparse: true });
                } else {
                    prev = prev.wrapping_add(distance);
                    runs.push(
                        DataRun {
                            lcn: #[verifier::truncate] (prev as u64),
                            length,
                            is_sparse: false,
                        },
                    );
                }
                assert(before + runs_in(rest, old_prev) =~= runs@ + runs_in(
                    data@.skip(offset + used),
                    prev,
                ));
                offset = offset + used;
            },
        }
    }
    proof {
        if offset >= data@.len() {
            assert(data@.skip(data@.len() as int) =~= seq![]);
        }
    }
    runs
}

/// How many records a run holds.
pub open spec fn records_in(run: DataRun, cluster_size: u64, record_size: u64) -> int {
    (run.length * cluster_size) / (record_size as int)
}

/// Where on the disk record `target` of the runs stands; nowhere where it is in a sparse
/// run or behind the last one.
pub open spec fn disk_offset(
    runs: Seq<DataRun>,
    record_size: u64,
    cluster_size: u64,
    target: int,
) -> Option<int>
    decreases runs.len(),
{
    if runs.len() == 0 {
        None
    } else {
        let n = records_in(runs[0], cluster_size, record_size);
        if target >= n {
            disk_offset(runs.drop_first(), record_size, cluster_size, target - n)
        } else if runs[0].is_sparse {
            None
        } else {
            Some(runs[0].lcn * cluster_size + target * record_size)
        }
    }
}

/// Whether the bytes of the runs can be counted, and where they end on the disk.
pub open spec fn runs_fit(runs: Seq<DataRun>, record_size: u64, cluster_size: u64) -> bool {
    &&& record_size > 0
    &&& forall|i: int|
        0 <= i < runs.len() ==> {
            let run = #[trigger] runs[i];
            run.length * cluster_size + run.lcn * cluster_size <= u64::MAX
        }
}

/// The runs behind the first fit where all do.
proof fn rest_fits(runs: Seq<DataRun>, record_size: u64, cluster_size: u64)
    requires
        runs.len() > 0,
        runs_fit(runs, record_size, cluster_size),
    ensures
        runs_fit(runs.drop_first(), record_size, cluster_size),
        0 <= records_in(runs[0], cluster_size, record_size),
        records_in(runs[0], cluster_size, record_size) * record_size <= runs[0].length
            * cluster_size,
{
    let rest = runs.drop_first();
    assert forall|i: int| 0 <= i < rest.len() implies {
        let run = #[trigger] rest[i];
        run.length * cluster_size + run.lcn * cluster_size <= u64::MAX
    } by {
        assert(rest[i] == runs[i + 1]);
    }
    let bytes = runs[0].length * cluster_size;
    assert(bytes >= 0) by (nonlinear_arith)
        requires
            bytes == runs[0].length * cluster_size,
    ;
    vstd::arithmetic::div_mod::lemma_div_pos_is_pos(bytes, record_size as int);
    vstd::arithmetic::div_mod::lemma_fundamental_div_mod(bytes, record_size as int);
    assert(bytes / (record_size as int) * record_size <= bytes) by (nonlinear_arith)
        requires
            bytes == record_size * (bytes / (record_size as int)) + bytes % (record_size as int),
            bytes % (record_size as int) >= 0,
    ;
}

/// The bytes of each run can be counted where all fit.
pub proof fn run_bounds(runs: Seq<DataRun>, record_size: u64, cluster_size: u64, i: int)
    requires
        runs_fit(runs, record_size, cluster_size),
        0 <= i < runs.len(),
    ensures
        0 <= runs[i].length * cluster_size <= u64::MAX,
        0 <= runs[i].lcn * cluster_size <= u64::MAX,
        record_size > 0,
{
    let run = runs[i];
    assert(run.length * cluster_size >= 0 && run.lcn * cluster_size >= 0) by (nonlinear_arith);
}

/// Whether the bytes of the runs can be counted, and where they end on the disk.
pub fn check_runs(data_runs: &Vec<DataRun>, file_record_size: u64, cluster_size: u64) -> (r: bool)
    ensures
        r == runs_fit(data_runs@, file_record_size, cluster_size),
{
    if file_record_size == 0 {
        return false;
    }
    let mut i: usize = 0;
    while i < data_runs.len()
        invariant
            i <= data_runs@.len(),
            file_record_size > 0,
            forall|k: int|
                0 <= k < i ==> {
                    let run = #[trigger] data_runs@[k];
                    run.length * cluster_size + run.lcn * cluster_size <= u64::MAX
                },
        decreases data_runs@.len() - i,
    {
        let run = data_runs[i];
        proof {
            assert(run.length * cluster_size <= 0xffff_ffff_ffff_ffff * 0xffff_ffff_ffff_ffff)
                by (nonlinear_arith)
                requires
                    run.length <= 0xffff_ffff_ffff_ffff,
                    cluster_size <= 0xffff_ffff_ffff_ffff,
            ;
            assert(run.lcn * cluster_size <= 0xffff_ffff_ffff_ffff * 0xffff_ffff_ffff_ffff)
                by (nonlinear_arith)
                requires
                    run.lcn <= 0xffff_ffff_ffff_ffff,
                    cluster_size <= 0xffff_ffff_ffff_ffff,
            ;
        }
        let size: u128 = (run.length as u128) * (cluster_size as u128);
        let start: u128 = (run.lcn as u128) * (cluster_size as u128);
        let limit: u128 = 0xffff_ffff_ffff_ffff;
        if size > limit || start > limit || size + start > limit {
            assert({
                let bad = data_runs@[i as int];
                bad.length * cluster_size + bad.lcn * cluster_size > u64::MAX
            }) by {
                assert(run.length * cluster_size >= 0 && run.lcn * cluster_size >= 0)
                    by (nonlinear_arith);
            }
            return false;
        }
        i += 1;
    }
    true
}

/// Where on the disk a record of the runs stands.
pub fn record_disk_offset(
    data_runs: &Vec<DataRun>,
    file_record_size: u64,
    cluster_size: u64,
    target_record: u64,
) -> (r: Option<u64>)
    requires
        runs_fit(data_runs@, file_record_size, cluster_size),
    ensures
        match disk_offset(data_runs@, file_record_size, cluster_size, target_record as int) {
            Some(at) => r == Some(at as u64) && at <= u64::MAX,
            None => r is None,
        },
{
    let mut left: u64 = target_record;
    let mut i: usize = 0;
    assert(data_runs@.skip(0) =~= data_runs@);
    while i < data_runs.len()
        invariant
            i <= data_runs@.len(),
            runs_fit(data_runs@.skip(i as int), file_record_size, cluster_size),
            disk_offset(data_runs@, file_record_size, cluster_size, target_record as int)
                == disk_offset(
                data_runs@.skip(i as int),
                file_record_size,
                cluster_size,
                left as int,
            ),
        decreases data_runs@.len() - i,
    {
        let run = data_runs[i];
        let ghost rest = data_runs@.skip(i as int);
        proof {
            assert(rest[0] == run);
            assert(rest.drop_first() =~= data_runs@.skip(i + 1));
            rest_fits(rest, file_record_size, cluster_size);
            assert(run.lcn * cluster_size >= 0 && run.length * cluster_size >= 0)
                by (nonlinear_arith);
        }
        let n: u64 = run.length * cluster_size / file_record_size;
        if left < n {
            if run.is_sparse {
                return None;
            }
            proof {
                assert(left * file_record_size <= n * file_record_size) by (nonlinear_arith)
                    requires
                        left < n,
                ;
                assert(left * file_record_size >= 0) by (nonlinear_arith);
            }
            return Some(run.lcn * cluster_size + left * file_record_size);
        }
        left = left - n;
        i += 1;
    }
    assert(data_runs@.skip(i as int) =~= seq![]);
    None
}

} // verus!
