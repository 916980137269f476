//! How lists of runs are laid out, and that they read back; and where the records of the runs
//! stand on the disk.

use crate::attributes;
use crate::bytes;
use crate::data_runs;
use crate::data_runs::{DataRun, RunEntry};
use crate::little_endian;
use crate::little_endian::{holds, le, le_len};
use crate::mft_scan;
use crate::record_layout;
use crate::record_layout::{Attr, Record};
use vstd::prelude::*;

verus! {

/// A run, and how many bytes its length and its distance from the run before are written in.
pub struct Piece {
    pub run: DataRun,
    pub length_bytes: nat,
    pub distance_bytes: nat,
}

/// The number whose `n` bytes write `d`, where a negative one counts down from the highest.
pub open spec fn wrapped(d: int, n: nat) -> nat {
    if d >= 0 {
        d as nat
    } else {
        (d + bytes::byte_power(n)) as nat
    }
}

impl Piece {
    /// The bytes of the run, where the run before began at cluster `prev`: one that gives the
    /// numbers of bytes, then the length, then the distance, which a sparse run does not have.
    pub open spec fn encoded(self, prev: int) -> Seq<u8> {
        if self.run.is_sparse {
            seq![self.length_bytes as u8] + le(self.run.length as nat, self.length_bytes)
        } else {
            seq![(self.length_bytes + 16 * self.distance_bytes) as u8] + le(
                self.run.length as nat,
                self.length_bytes,
            ) + le(wrapped(self.run.lcn - prev, self.distance_bytes), self.distance_bytes)
        }
    }

    /// Whether the numbers can be written in so many bytes.
    pub open spec fn fits(self, prev: int) -> bool {
        let d = self.run.lcn - prev;
        let half = bytes::byte_power(self.distance_bytes) / 2;
        &&& 1 <= self.length_bytes <= 8
        &&& 0 < self.run.length < bytes::byte_power(self.length_bytes)
        &&& self.run.is_sparse ==> self.run.lcn == 0
        &&& !self.run.is_sparse ==> {
            &&& 1 <= self.distance_bytes <= 8
            &&& d != 0
            &&& -half <= d < half
            &&& self.run.lcn <= i64::MAX
        }
    }

    /// Where the next run counts from.
    pub open spec fn next_prev(self, prev: int) -> int {
        if self.run.is_sparse {
            prev
        } else {
            self.run.lcn as int
        }
    }
}

/// The bytes of a list of runs.
pub open spec fn encoded_runs(pieces: Seq<Piece>, prev: int) -> Seq<u8>
    decreases pieces.len(),
{
    if pieces.len() == 0 {
        seq![0u8]
    } else {
        pieces[0].encoded(prev) + encoded_runs(pieces.drop_first(), pieces[0].next_prev(prev))
    }
}

/// Whether all runs of a list can be written.
pub open spec fn all_fit(pieces: Seq<Piece>, prev: int) -> bool
    decreases pieces.len(),
{
    pieces.len() > 0 ==> pieces[0].fits(prev) && all_fit(
        pieces.drop_first(),
        pieces[0].next_prev(prev),
    )
}

/// The runs of a list.
pub open spec fn runs_of(pieces: Seq<Piece>) -> Seq<DataRun> {
    pieces.map_values(|p: Piece| p.run)
}

/// The powers of a byte are even, from the first on.
proof fn power_halves(n: nat)
    requires
        n >= 1,
    ensures
        bytes::byte_power(n) == 256 * bytes::byte_power((n - 1) as nat),
        bytes::byte_power(n) / 2 == 128 * bytes::byte_power((n - 1) as nat),
        bytes::byte_power((n - 1) as nat) >= 1,
    decreases n,
{
    if n > 1 {
        power_halves((n - 1) as nat);
    }
}

/// A distance reads back.
proof fn distance_reads_back(d: int, n: nat)
    requires
        1 <= n <= 8,
        -(bytes::byte_power(n) / 2) <= d < bytes::byte_power(n) / 2,
    ensures
        bytes::signed_value(le(wrapped(d, n), n)) == d,
        i64::MIN <= d <= i64::MAX,
{
    broadcast use le_len;

    let w = wrapped(d, n);
    let b = le(w, n);
    power_halves(n);
    little_endian::value_reads_back(w, n);
    let init = b.drop_last();
    let p = bytes::byte_power((n - 1) as nat) as int;
    assert(init.push(b.last()) =~= b);
    bytes::le_value_push(init, b.last());
    bytes::le_value_bounded(init);
    let last = b.last() as int;
    if last >= 0x80 {
        assert(last * p >= 0x80 * p) by (nonlinear_arith)
            requires
                last >= 0x80,
                p >= 1,
        ;
    } else {
        assert(last * p <= 0x7f * p) by (nonlinear_arith)
            requires
                last <= 0x7f,
                p >= 1,
        ;
    }
    powers_fit(n);
}

/// Eight bytes write what 64 bits count.
proof fn powers_fit(n: nat)
    requires
        n <= 8,
    ensures
        bytes::byte_power(n) <= 0x1_0000_0000_0000_0000,
{
    reveal_with_fuel(bytes::byte_power, 9);
    if n == 0 {
    } else if n == 1 {
    } else if n == 2 {
    } else if n == 3 {
    } else if n == 4 {
    } else if n == 5 {
    } else if n == 6 {
    } else if n == 7 {
    } else {
    }
}

/// The first run of a list is found at its beginning.
proof fn piece_reads_back(p: Piece, prev: int, rest: Seq<u8>)
    requires
        p.fits(prev),
    ensures
        ({
            let data = p.encoded(prev) + rest;
            let used = p.encoded(prev).len();
            &&& 0 < used <= 17
            &&& data.skip(used as int) == rest
            &&& data_runs::first_entry(data) == RunEntry::Run(
                p.run.length,
                if p.run.is_sparse {
                    0
                } else {
                    (p.run.lcn - prev) as i64
                },
                used as usize,
            )
        }),
{
    broadcast use le_len;

    let e = p.encoded(prev);
    let data = e + rest;
    let (n, m) = (
        p.length_bytes,
        if p.run.is_sparse {
            0
        } else {
            p.distance_bytes
        },
    );
    assert(e.len() == 1 + n + m);
    assert(data.skip(e.len() as int) =~= rest);
    assert(data[0] == e[0]);
    assert(data[0] % 16 == n && data[0] / 16 == m);
    assert(data.subrange(1, 1 + n as int) =~= le(p.run.length as nat, n));
    little_endian::value_reads_back(p.run.length as nat, n);
    if p.run.is_sparse {
        assert(data.subrange(1 + n as int, 1 + n as int + 0) =~= Seq::<u8>::empty());
    } else {
        assert(data.subrange(1 + n as int, 1 + n as int + m) =~= le(
            wrapped(p.run.lcn - prev, m),
            m,
        ));
        distance_reads_back(p.run.lcn - prev, m);
    }
}

/// A list of runs reads back: each run with its length and where it begins on the disk, which is
/// written as the distance from where the run before begins, and without one where it is sparse.
pub proof fn runs_read_back(pieces: Seq<Piece>, prev: i64, rest: Seq<u8>)
    requires
        all_fit(pieces, prev as int),
        prev >= 0,
    ensures
        data_runs::runs_in(encoded_runs(pieces, prev as int) + rest, prev) == runs_of(pieces),
    decreases pieces.len(),
{
    let data = encoded_runs(pieces, prev as int) + rest;
    if pieces.len() == 0 {
        assert(data[0] == 0);
        assert(data_runs::runs_in(data, prev) =~= runs_of(pieces));
    } else {
        let (p, tail) = (pieces[0], pieces.drop_first());
        let next = p.next_prev(prev as int) as i64;
        let after = encoded_runs(tail, next as int) + rest;
        assert(data =~= p.encoded(prev as int) + after);
        piece_reads_back(p, prev as int, after);
        runs_read_back(tail, next, rest);
        if !p.run.is_sparse {
            distance_reads_back(p.run.lcn - prev, p.distance_bytes);
            let d = (p.run.lcn - prev) as i64;
            assert(prev.wrapping_add(d) == p.run.lcn);
        }
        assert(data_runs::runs_in(data, prev) =~= runs_of(pieces));
    }
}

/// How many records the first `k` runs hold.
pub open spec fn records_before(
    runs: Seq<DataRun>,
    cluster_size: u64,
    record_size: u64,
    k: int,
) -> int
    decreases k,
{
    if k <= 0 {
        0
    } else {
        records_before(runs, cluster_size, record_size, k - 1) + (runs[k - 1].length * cluster_size)
            / (record_size as int)
    }
}

proof fn records_before_rest(runs: Seq<DataRun>, cluster_size: u64, record_size: u64, k: int)
    requires
        1 <= k <= runs.len(),
    ensures
        records_before(runs, cluster_size, record_size, k) == (runs[0].length * cluster_size) / (
        record_size as int) + records_before(runs.drop_first(), cluster_size, record_size, k - 1),
    decreases k,
{
    reveal_with_fuel(records_before, 2);
    if k > 1 {
        records_before_rest(runs, cluster_size, record_size, k - 1);
        assert(runs.drop_first()[k - 2] == runs[k - 1]);
    }
}

/// The records of a run stand on the disk one behind the other from where the run begins; those of
/// a sparse run stand nowhere. Records are counted through the runs in turn.
pub proof fn record_stands_in_run(
    runs: Seq<DataRun>,
    cluster_size: u64,
    record_size: u64,
    k: int,
    n: int,
)
    requires
        data_runs::runs_fit(runs, record_size, cluster_size),
        0 <= k < runs.len(),
        0 <= n < (runs[k].length * cluster_size) / (record_size as int),
    ensures
        data_runs::disk_offset(
            runs,
            record_size,
            cluster_size,
            records_before(runs, cluster_size, record_size, k) + n,
        ) == (if runs[k].is_sparse {
            None::<int>
        } else {
            Some(runs[k].lcn * cluster_size + n * record_size)
        }),
    decreases runs.len(),
{
    if k > 0 {
        let rest = runs.drop_first();
        assert forall|i: int| 0 <= i < rest.len() implies {
            let run = #[trigger] rest[i];
            run.length * cluster_size + run.lcn * cluster_size <= u64::MAX
        } by {
            assert(rest[i] == runs[i + 1]);
        }
        records_before_rest(runs, cluster_size, record_size, k);
        before_is_positive(rest, cluster_size, record_size, k - 1);
        record_stands_in_run(rest, cluster_size, record_size, k - 1, n);
    }
}

proof fn before_is_positive(runs: Seq<DataRun>, cluster_size: u64, record_size: u64, k: int)
    requires
        record_size > 0,
        k <= runs.len(),
    ensures
        records_before(runs, cluster_size, record_size, k) >= 0,
    decreases k,
{
    if k > 0 {
        before_is_positive(runs, cluster_size, record_size, k - 1);
        let b = runs[k - 1].length * cluster_size;
        assert(b >= 0) by (nonlinear_arith)
            requires
                b == runs[k - 1].length * cluster_size,
        ;
        vstd::arithmetic::div_mod::lemma_div_pos_is_pos(b, record_size as int);
    }
}

/// Whether an attribute stands for contents elsewhere, and lists their runs.
pub open spec fn lists_runs(a: Attr, pieces: Seq<Piece>) -> bool {
    a matches Attr::FarContents(_, middle, _, rest) && exists|from: nat|
        56 <= from <= u16::MAX && from - 56 <= rest.len() && #[trigger] holds(middle, 22, le(from, 2))
            && exists|tail: Seq<u8>| rest.skip(from - 56) == #[trigger] (encoded_runs(pieces, 0)
            + tail)
}

/// The runs of the file table are found in its first record: those that the first contents that
/// stand elsewhere list.
pub proof fn table_is_found(r: Record, i: int, pieces: Seq<Piece>)
    requires
        r.fits(r.encoded().len() as int),
        r.rest.len() >= 64,
        record_layout::is_first(r.attrs, i, |a: Attr| a is FarContents),
        lists_runs(r.attrs[i], pieces),
        all_fit(pieces, 0),
    ensures
        mft_scan::runs_of(r.encoded()) == Some(runs_of(pieces)),
{
    let s = r.encoded();
    let at = 24 + r.gap.len() as int;
    record_layout::head_stands(r, s.len() as int);
    record_layout::attributes_are_found(s, s.len() as int, 64, 1, at, r.attrs);
    first_runs_found(s, at, r.attrs, i, pieces);
}

/// The runs that are found first are those of the first contents that stand elsewhere.
proof fn first_runs_found(s: Seq<u8>, o: int, attrs: Seq<Attr>, i: int, pieces: Seq<Piece>)
    requires
        record_layout::stand_from(s, o, attrs),
        record_layout::is_first(attrs, i, |a: Attr| a is FarContents),
        lists_runs(attrs[i], pieces),
        all_fit(pieces, 0),
    ensures
        attributes::first_of(
            record_layout::places(attrs, o).filter_map(|p: usize| mft_scan::runs_at(s, p)),
        ) == Some(runs_of(pieces)),
    decreases attrs.len(),
{
    broadcast use le_len;

    let f = |p: usize| mft_scan::runs_at(s, p);
    let far = |a: Attr| a is FarContents;
    let rest = attrs.drop_first();
    record_layout::stand_apart(s, o, attrs);
    record_layout::attr_reads_back(s, o, attrs[0]);
    crate::seqs::filter_map_first(record_layout::places(attrs, o), f);
    assert(record_layout::places(attrs, o).drop_first() =~= record_layout::places(
        rest,
        o + attrs[0].size(),
    ));
    if i == 0 {
        match attrs[0] {
            Attr::FarContents(units, middle, size, more) => {
                let e = attrs[0].encoded();
                record_layout::far_reads_back(s, o, units, middle, size, more);
                let from = choose|from: nat|
                    56 <= from <= u16::MAX && from - 56 <= more.len() && #[trigger] holds(
                        middle,
                        22,
                        le(from, 2),
                    ) && exists|tail: Seq<u8>|
                        more.skip(from - 56) == #[trigger] (encoded_runs(pieces, 0) + tail);
                let tail = choose|tail: Seq<u8>|
                    more.skip(from - 56) == #[trigger] (encoded_runs(pieces, 0) + tail);
                assert(e.subrange(10, 48) =~= middle);
                little_endian::inner_holds(e, 10, middle, 22, le(from, 2));
                little_endian::inner_holds(s, o, e, 32, le(from, 2));
                little_endian::u16_reads_back(s, o + 32, from as u16);
                let len = 56 + more.len();
                assert(s.subrange(o + from, o + len) =~= more.skip(from - 56)) by {
                    assert(e.subrange(56, len as int) =~= more);
                    little_endian::inner_holds(s, o, e, 56, more);
                    assert forall|j: int| 0 <= j < len - from implies s[o + from + j]
                        == #[trigger] more.skip(from - 56)[j] by {
                        little_endian::part_holds(s, o + 56, more, from - 56 + j);
                    }
                }
                runs_read_back(pieces, 0, tail);
            },
            _ => {
                assert(far(attrs[0]));
            },
        }
    } else {
        assert(!far(attrs[0]));
        assert(f(o as usize) is None) by {
            match attrs[0] {
                Attr::Info(fr, v) => {
                    record_layout::frame_reads_back(s, o, fr, 0x10, v.value());
                },
                Attr::Name(fr, v) => {
                    record_layout::frame_reads_back(s, o, fr, 0x30, v.value());
                },
                Attr::Contents(fr, v) => {
                    record_layout::frame_reads_back(s, o, fr, 0x80, v);
                },
                Attr::FarContents(..) => {},
                Attr::Other(fr, kind, v) => {
                    record_layout::frame_reads_back(s, o, fr, kind, v);
                },
            }
        }
        assert(record_layout::is_first(rest, i - 1, far)) by {
            assert forall|j: int| 0 <= j < i - 1 implies !far(#[trigger] rest[j]) by {
                assert(rest[j] == attrs[j + 1]);
            }
        }
        first_runs_found(s, o + attrs[0].size(), rest, i - 1, pieces);
    }
}

} // verus!
