//! Numbers in raw bytes, the lowest byte first.

use vstd::prelude::*;

verus! {

/// The number in two bytes at `at`.
pub open spec fn u16_at(s: Seq<u8>, at: int) -> u16 {
    (s[at] + 0x100 * s[at + 1]) as u16
}

/// The number in four bytes at `at`.
pub open spec fn u32_at(s: Seq<u8>, at: int) -> u32 {
    (s[at] + 0x100 * s[at + 1] + 0x1_0000 * s[at + 2] + 0x100_0000 * s[at + 3]) as u32
}

/// The number in eight bytes at `at`.
pub open spec fn u64_at(s: Seq<u8>, at: int) -> u64 {
    (u32_at(s, at) + 0x1_0000_0000 * u32_at(s, at + 4)) as u64
}

/// The number that the bytes write.
pub open spec fn le_value(s: Seq<u8>) -> nat
    decreases s.len(),
{
    if s.len() == 0 {
        0
    } else {
        s[0] as nat + 256 * le_value(s.drop_first())
    }
}

/// The number that the bytes write, where the highest bit is the sign.
pub open spec fn signed_value(s: Seq<u8>) -> int {
    if s.len() > 0 && s.last() >= 0x80 {
        le_value(s) - byte_power(s.len())
    } else {
        le_value(s) as int
    }
}

/// The count of values that `n` bytes can write.
pub open spec fn byte_power(n: nat) -> nat
    decreases n,
{
    if n == 0 {
        1
    } else {
        256 * byte_power((n - 1) as nat)
    }
}

/// The number in two bytes at `offset`.
pub fn read_u16(data: &[u8], offset: usize) -> (r: u16)
    requires
        offset + 2 <= data.len(),
    ensures
        r == u16_at(data@, offset as int),
{
    (data[offset] as u16) + 0x100 * (data[offset + 1] as u16)
}

/// The number in four bytes at `offset`.
pub fn read_u32(data: &[u8], offset: usize) -> (r: u32)
    requires
        offset + 4 <= data.len(),
    ensures
        r == u32_at(data@, offset as int),
{
    (data[offset] as u32) + 0x100 * (data[offset + 1] as u32) + 0x1_0000 * (data[offset
        + 2] as u32) + 0x100_0000 * (data[offset + 3] as u32)
}

/// The number in eight bytes at `offset`.
pub fn read_u64(data: &[u8], offset: usize) -> (r: u64)
    requires
        offset + 8 <= data.len(),
    ensures
        r == u64_at(data@, offset as int),
{
    (read_u32(data, offset) as u64) + 0x1_0000_0000 * (read_u32(data, offset + 4) as u64)
}

/// `n` bytes write less than `byte_power(n)`.
pub proof fn le_value_bounded(s: Seq<u8>)
    ensures
        le_value(s) < byte_power(s.len()),
    decreases s.len(),
{
    if s.len() > 0 {
        le_value_bounded(s.drop_first());
    }
}

/// A byte at the end counts for the power of the bytes before it.
pub proof fn le_value_push(s: Seq<u8>, b: u8)
    ensures
        le_value(s.push(b)) == le_value(s) + b * byte_power(s.len()),
    decreases s.len(),
{
    let t = s.push(b);
    if s.len() == 0 {
        assert(t.drop_first() =~= seq![]);
        assert(le_value(t.drop_first()) == 0);
        assert(byte_power(0) == 1);
    } else {
        assert(t.drop_first() =~= s.drop_first().push(b));
        le_value_push(s.drop_first(), b);
        let p = byte_power((s.len() - 1) as nat);
        assert(256 * (b * p) == b * (256 * p)) by (nonlinear_arith);
        assert(byte_power(s.len()) == 256 * p);
    }
}

/// The powers that fit.
proof fn byte_powers()
    ensures
        byte_power(0) == 1,
        byte_power(1) == 0x100,
        byte_power(2) == 0x1_0000,
        byte_power(3) == 0x100_0000,
        byte_power(4) == 0x1_0000_0000,
        byte_power(5) == 0x100_0000_0000,
        byte_power(6) == 0x1_0000_0000_0000,
        byte_power(7) == 0x100_0000_0000_0000,
        byte_power(8) == 0x1_0000_0000_0000_0000,
{
    reveal_with_fuel(byte_power, 9);
}

/// The number that at most eight bytes write.
pub fn read_unsigned_le(data: &[u8]) -> (r: u64)
    requires
        data@.len() <= 8,
    ensures
        r == le_value(data@),
{
    let mut value: u128 = 0;
    let mut scale: u128 = 1;
    let mut i: usize = 0;
    proof {
        byte_powers();
        assert(data@.take(0) =~= seq![]);
    }
    while i < data.len()
        invariant
            i <= data@.len() <= 8,
            value == le_value(data@.take(i as int)),
            scale == byte_power(i as nat),
            value < scale,
            scale <= 0x1_0000_0000_0000_0000,
        decreases data@.len() - i,
    {
        let b: u8 = data[i];
        proof {
            byte_powers();
            le_value_push(data@.take(i as int), b);
            assert(data@.take(i as int).push(b) =~= data@.take(i + 1));
            le_value_bounded(data@.take(i + 1));
            assert(b * scale <= 255 * scale) by (nonlinear_arith)
                requires
                    b <= 255,
            ;
        }
        value = value + (b as u128) * scale;
        scale = scale * 256;
        i += 1;
    }
    assert(data@.take(i as int) =~= data@);
    proof {
        byte_powers();
        le_value_bounded(data@);
    }
    value as u64
}

/// The number that at most eight bytes write, where the highest bit is the sign.
pub fn read_signed_le(data: &[u8]) -> (r: i64)
    requires
        data@.len() <= 8,
    ensures
        r == signed_value(data@),
{
    let value: u64 = read_unsigned_le(data);
    proof {
        byte_powers();
        le_value_bounded(data@);
    }
    if data.len() == 0 {
        return 0;
    }
    let n: usize = data.len();
    proof {
        let init = data@.drop_last();
        le_value_push(init, data@.last());
        assert(init.push(data@.last()) =~= data@);
        le_value_bounded(init);
        let p = byte_power(init.len());
        let b = data@.last() as int;
        assert(byte_power(data@.len()) == 256 * p);
        if b >= 0x80 {
            assert(b * p >= 0x80 * p) by (nonlinear_arith)
                requires
                    b >= 0x80,
                    p >= 0,
            ;
        } else {
            assert(b * p <= 0x7f * p) by (nonlinear_arith)
                requires
                    b <= 0x7f,
                    p >= 0,
            ;
        }
    }
    if data[n - 1] >= 0x80 {
        let power: i128 = match n {
            1 => 0x100,
            2 => 0x1_0000,
            3 => 0x100_0000,
            4 => 0x1_0000_0000,
            5 => 0x100_0000_0000,
            6 => 0x1_0000_0000_0000,
            7 => 0x100_0000_0000_0000,
            _ => 0x1_0000_0000_0000_0000,
        };
        ((value as i128) - power) as i64
    } else {
        value as i64
    }
}

} // verus!
