//! How numbers are written in bytes, the lowest byte first, and that they read back.

use crate::bytes;
use vstd::prelude::*;

verus! {

/// The `n` bytes that write `v`, the lowest first.
pub open spec fn le(v: nat, n: nat) -> Seq<u8>
    decreases n,
{
    if n == 0 {
        seq![]
    } else {
        seq![(v % 256) as u8] + le(v / 256, (n - 1) as nat)
    }
}

/// The number whose eight bytes write `x`, where a negative one counts down from the highest.
pub open spec fn twos(x: i64) -> nat {
    if x >= 0 {
        x as nat
    } else {
        (x + 0x1_0000_0000_0000_0000) as nat
    }
}

/// The bytes of 16-bit units, one behind the other.
pub open spec fn unit_bytes(units: Seq<u16>) -> Seq<u8>
    decreases units.len(),
{
    if units.len() == 0 {
        seq![]
    } else {
        unit_bytes(units.drop_last()) + le(units.last() as nat, 2)
    }
}

/// Whether `part` stands in `s` at `at`.
pub open spec fn holds(s: Seq<u8>, at: int, part: Seq<u8>) -> bool {
    0 <= at && at + part.len() <= s.len() && s.subrange(at, at + part.len()) == part
}

/// `n` bytes write a number.
pub broadcast proof fn le_len(v: nat, n: nat)
    ensures
        #[trigger] le(v, n).len() == n,
    decreases n,
{
    if n > 0 {
        le_len(v / 256, (n - 1) as nat);
    }
}

/// Units have two bytes each.
pub broadcast proof fn unit_bytes_len(units: Seq<u16>)
    ensures
        #[trigger] unit_bytes(units).len() == 2 * units.len(),
    decreases units.len(),
{
    broadcast use le_len;

    if units.len() > 0 {
        unit_bytes_len(units.drop_last());
    }
}

/// What stands in a part stands in the whole.
pub proof fn part_holds(s: Seq<u8>, at: int, part: Seq<u8>, i: int)
    requires
        holds(s, at, part),
        0 <= i < part.len(),
    ensures
        s[at + i] == part[i],
{
    assert(s.subrange(at, at + part.len())[i] == part[i]);
}

/// A part of a part stands in the whole.
pub proof fn inner_holds(s: Seq<u8>, at: int, part: Seq<u8>, from: int, inner: Seq<u8>)
    requires
        holds(s, at, part),
        holds(part, from, inner),
    ensures
        holds(s, at + from, inner),
{
    assert(s.subrange(at + from, at + from + inner.len()) =~= inner) by {
        assert forall|i: int| 0 <= i < inner.len() implies s[at + from + i] == inner[i] by {
            part_holds(part, from, inner, i);
            part_holds(s, at, part, from + i);
        }
    }
}

/// What is put in the middle stands there.
pub proof fn middle_holds(before: Seq<u8>, part: Seq<u8>, after: Seq<u8>)
    ensures
        holds(before + part + after, before.len() as int, part),
{
    let s = before + part + after;
    assert(s.subrange(before.len() as int, (before.len() + part.len()) as int) =~= part);
}

/// A number in two bytes reads back.
pub proof fn u16_reads_back(s: Seq<u8>, at: int, v: u16)
    requires
        holds(s, at, le(v as nat, 2)),
    ensures
        bytes::u16_at(s, at) == v,
{
    broadcast use le_len;

    let b = le(v as nat, 2);
    reveal_with_fuel(le, 3);
    part_holds(s, at, b, 0);
    part_holds(s, at, b, 1);
}

/// A number in four bytes reads back.
pub proof fn u32_reads_back(s: Seq<u8>, at: int, v: u32)
    requires
        holds(s, at, le(v as nat, 4)),
    ensures
        bytes::u32_at(s, at) == v,
{
    broadcast use le_len;

    let b = le(v as nat, 4);
    reveal_with_fuel(le, 5);
    part_holds(s, at, b, 0);
    part_holds(s, at, b, 1);
    part_holds(s, at, b, 2);
    part_holds(s, at, b, 3);
}

/// Eight bytes are twice four.
proof fn le_halves(v: nat)
    ensures
        le(v, 8) == le(v % 0x1_0000_0000, 4) + le(v / 0x1_0000_0000, 4),
{
    broadcast use le_len;

    reveal_with_fuel(le, 9);
    let (low, high) = (v % 0x1_0000_0000, v / 0x1_0000_0000);
    let (v1, v2, v3) = (v / 256, v / 256 / 256, v / 256 / 256 / 256);
    let (l1, l2, l3) = (low / 256, low / 256 / 256, low / 256 / 256 / 256);
    assert(v3 / 256 == high);
    assert(l1 == v1 - 0x100_0000 * high);
    assert(l2 == v2 - 0x1_0000 * high);
    assert(l3 == v3 - 0x100 * high);
    assert(le(v, 8) =~= le(low, 4) + le(high, 4));
}

/// A number in eight bytes reads back.
pub proof fn u64_reads_back(s: Seq<u8>, at: int, v: u64)
    requires
        holds(s, at, le(v as nat, 8)),
    ensures
        bytes::u64_at(s, at) == v,
{
    broadcast use le_len;

    let (low, high) = (v as nat % 0x1_0000_0000, v as nat / 0x1_0000_0000);
    le_halves(v as nat);
    let b = le(v as nat, 8);
    middle_holds(seq![], le(low, 4), le(high, 4));
    assert(Seq::<u8>::empty() + le(low, 4) + le(high, 4) =~= b);
    middle_holds(le(low, 4), le(high, 4), seq![]);
    assert(le(low, 4) + le(high, 4) + Seq::<u8>::empty() =~= b);
    inner_holds(s, at, b, 0, le(low, 4));
    inner_holds(s, at, b, 4, le(high, 4));
    u32_reads_back(s, at, low as u32);
    u32_reads_back(s, at + 4, high as u32);
}

/// A number with a sign in eight bytes reads back.
pub proof fn i64_reads_back(s: Seq<u8>, at: int, v: i64)
    requires
        holds(s, at, le(twos(v), 8)),
    ensures
        bytes::u64_at(s, at) as i64 == v,
{
    let w = twos(v) as u64;
    u64_reads_back(s, at, w);
    if v >= 0 {
        assert(w as i64 == v);
    } else {
        assert(w as i64 == v) by (bit_vector)
            requires
                v < 0,
                w == v + 0x1_0000_0000_0000_0000,
        ;
    }
}

/// Units read back.
pub proof fn units_read_back(s: Seq<u8>, at: int, units: Seq<u16>)
    requires
        holds(s, at, unit_bytes(units)),
    ensures
        crate::record_details::units_at(s, at, units.len()) == units,
    decreases units.len(),
{
    broadcast use {le_len, unit_bytes_len};

    if units.len() > 0 {
        let (init, last) = (unit_bytes(units.drop_last()), le(units.last() as nat, 2));
        let all = unit_bytes(units);
        middle_holds(seq![], init, last);
        assert(Seq::<u8>::empty() + init + last =~= all);
        middle_holds(init, last, seq![]);
        assert(init + last + Seq::<u8>::empty() =~= all);
        inner_holds(s, at, all, 0, init);
        inner_holds(s, at, all, init.len() as int, last);
        units_read_back(s, at, units.drop_last());
        u16_reads_back(s, at + init.len(), units.last());
        let read = crate::record_details::units_at(s, at, units.len());
        let before = crate::record_details::units_at(s, at, units.drop_last().len());
        assert forall|i: int| 0 <= i < units.len() implies read[i] == units[i] by {
            if i < units.len() - 1 {
                assert(read[i] == before[i]);
            }
        }
    }
    assert(crate::record_details::units_at(s, at, units.len()) =~= units);
}

/// The number that the bytes of a number write is that number.
pub proof fn value_reads_back(v: nat, n: nat)
    requires
        v < bytes::byte_power(n),
    ensures
        bytes::le_value(le(v, n)) == v,
    decreases n,
{
    broadcast use le_len;

    if n > 0 {
        assert(v / 256 < bytes::byte_power((n - 1) as nat));
        value_reads_back(v / 256, (n - 1) as nat);
        assert(le(v, n).drop_first() =~= le(v / 256, (n - 1) as nat));
    } else {
        assert(bytes::byte_power(0) == 1);
    }
}

} // verus!
