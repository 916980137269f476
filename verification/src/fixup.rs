//! The update sequence of a record: the last two bytes of each of its sectors are kept
//! aside when it is written, and put back when it is read.

use crate::bytes;
use crate::bytes::read_u16;
use crate::text;
use crate::text::decimal_text;
use vstd::prelude::*;

verus! {

/// The size of a sector.
pub const NTFS_BLOCK_SIZE: usize = 512;

/// Why the sectors of a record could not be put together.
#[derive(Clone, Copy, Debug, PartialEq, Eq, Structural)]
pub enum FixupError {
    /// The number of sectors is not that of the record's size.
    CountMismatch { record: u64, found: u64, expected: u64 },
    /// A sector does not end in the update sequence number.
    UsnMismatch { record: u64, sector: u64 },
}

/// The text that an error is shown with.
pub open spec fn fixup_error_text(e: FixupError) -> Seq<char> {
    match e {
        FixupError::CountMismatch { record, found, expected } => "Record "@ + text::decimal(
            record as nat,
        ) + ": fixup count "@ + text::decimal(found as nat) + " doesn't match expected sectors "@
            + text::decimal(expected as nat),
        FixupError::UsnMismatch { record, sector } => "Record "@ + text::decimal(record as nat)
            + ": USN mismatch at sector "@ + text::decimal(sector as nat),
    }
}

impl FixupError {
    /// The text that the error is shown with.
    pub fn message(&self) -> (r: String)
        ensures
            r@ == fixup_error_text(*self),
    {
        let mut r = "Record ".to_string();
        match *self {
            FixupError::CountMismatch { record, found, expected } => {
                r.append(decimal_text(record).as_str());
                r.append(": fixup count ");
                r.append(decimal_text(found).as_str());
                r.append(" doesn't match expected sectors ");
                r.append(decimal_text(expected).as_str());
            },
            FixupError::UsnMismatch { record, sector } => {
                r.append(decimal_text(record).as_str());
                r.append(": USN mismatch at sector ");
                r.append(decimal_text(sector).as_str());
            },
        }
        r
    }
}

/// Where the last two bytes of sector `i` stand.
pub open spec fn sector_end(i: int) -> int {
    (i + 1) * 512 - 2
}

/// Whether sector `i` lies in the record, and the bytes kept for it too.
pub open spec fn has_sector(len: int, array: int, i: int) -> bool {
    sector_end(i) + 2 <= len && array + i * 2 + 2 <= len
}

/// The record with the bytes kept for sector `i` put back.
pub open spec fn sector_restored(s: Seq<u8>, array: int, i: int) -> Seq<u8> {
    s.update(sector_end(i), s[array + i * 2]).update(
        sector_end(i) + 1,
        s[array + i * 2 + 1],
    )
}

/// The record with the bytes kept for the sectors from `i` to `count` put back, as far as
/// they lie in the record, where the number kept at `usn` stands at the end of each; else
/// the first sector where it does not, and the record so far.
pub open spec fn sectors_restored(s: Seq<u8>, usn: (u8, u8), array: int, i: int, count: int) -> (
    Seq<u8>,
    Option<int>,
)
    decreases count - i,
{
    if i >= count || !has_sector(s.len() as int, array, i) {
        (s, None)
    } else if s[sector_end(i)] != usn.0 || s[sector_end(i) + 1] != usn.1 {
        (s, Some(i))
    } else {
        sectors_restored(sector_restored(s, array, i), usn, array, i + 1, count)
    }
}

/// A record with its sectors put together, or why that failed and what was left. A record
/// that is shorter than a sector, or has no update sequence, is left as it is.
pub open spec fn fixed_up(s: Seq<u8>, record_number: u64, record_size: u64) -> (
    Seq<u8>,
    Option<FixupError>,
) {
    let usn_offset = bytes::u16_at(s, 4) as int;
    let us_count = bytes::u16_at(s, 6) as int;
    if s.len() < 512 || us_count <= 1 || usn_offset + 2 > s.len() {
        (s, None)
    } else if us_count - 1 != record_size / 512 {
        (
            s,
            Some(
                FixupError::CountMismatch {
                    record: record_number,
                    found: (us_count - 1) as u64,
                    expected: record_size / 512,
                },
            ),
        )
    } else {
        let (after, wrong) = sectors_restored(
            s,
            (s[usn_offset], s[usn_offset + 1]),
            usn_offset + 2,
            0,
            us_count - 1,
        );
        (
            after,
            match wrong {
                Some(i) => Some(
                    FixupError::UsnMismatch { record: record_number, sector: i as u64 },
                ),
                None => None,
            },
        )
    }
}

/// Putting sectors together keeps the length of the record.
proof fn sectors_keep_len(s: Seq<u8>, usn: (u8, u8), array: int, i: int, count: int)
    requires
        i >= 0,
    ensures
        sectors_restored(s, usn, array, i, count).0.len() == s.len(),
    decreases count - i,
{
    if i < count && has_sector(s.len() as int, array, i) {
        sectors_keep_len(sector_restored(s, array, i), usn, array, i + 1, count);
    }
}

/// Putting the sectors of a record together keeps its length.
pub proof fn fixup_keeps_len(s: Seq<u8>, record_number: u64, record_size: u64)
    ensures
        fixed_up(s, record_number, record_size).0.len() == s.len(),
{
    let usn_offset = bytes::u16_at(s, 4) as int;
    let us_count = bytes::u16_at(s, 6) as int;
    sectors_keep_len(
        s,
        (s[usn_offset], s[usn_offset + 1]),
        usn_offset + 2,
        0,
        us_count - 1,
    );
}

/// Puts the sectors of a record together.
pub fn apply_fixup(record: &mut Vec<u8>, record_number: u64, record_size: u64) -> (r: Result<
    (),
    FixupError,
>)
    ensures
        final(record)@ == fixed_up(old(record)@, record_number, record_size).0,
        match r {
            Ok(()) => fixed_up(old(record)@, record_number, record_size).1 is None,
            Err(e) => fixed_up(old(record)@, record_number, record_size).1 == Some(e),
        },
{
    let ghost before = record@;
    let len: usize = record.len();
    if len < NTFS_BLOCK_SIZE {
        return Ok(());
    }
    let usn_offset: usize = read_u16(record.as_slice(), 4) as usize;
    let us_count: usize = read_u16(record.as_slice(), 6) as usize;
    if us_count <= 1 || usn_offset + 2 > len {
        return Ok(());
    }
    let usn: (u8, u8) = (record[usn_offset], record[usn_offset + 1]);
    let array: usize = usn_offset + 2;
    let count: usize = us_count - 1;
    let expected: u64 = record_size / 512;
    if count as u64 != expected {
        return Err(
            FixupError::CountMismatch { record: record_number, found: count as u64, expected },
        );
    }
    let mut i: usize = 0;
    while i < count
        invariant_except_break
            i <= count < 0x1_0000,
            array < 0x1_0002,
            record@.len() == len,
            before == old(record)@,
            before.len() == len,
            sectors_restored(record@, usn, array as int, i as int, count as int)
                == sectors_restored(before, usn, array as int, 0, count as int),
            fixed_up(before, record_number, record_size).0 == sectors_restored(
                before,
                usn,
                array as int,
                0,
                count as int,
            ).0,
            fixed_up(before, record_number, record_size).1 == (match sectors_restored(
                before,
                usn,
                array as int,
                0,
                count as int,
            ).1 {
                Some(i) => Some(
                    FixupError::UsnMismatch { record: record_number, sector: i as u64 },
                ),
                None => None,
            }),
        ensures
            record@ == fixed_up(before, record_number, record_size).0,
            fixed_up(before, record_number, record_size).1 is None,
        decreases count - i,
    {
        let end: usize = (i + 1) * 512 - 2;
        if end + 2 > len || array + i * 2 + 2 > len {
            break ;
        }
        if record[end] != usn.0 || record[end + 1] != usn.1 {
            return Err(FixupError::UsnMismatch { record: record_number, sector: i as u64 });
        }
        let low: u8 = record[array + i * 2];
        let high: u8 = record[array + i * 2 + 1];
        let ghost s = record@;
        record.set(end, low);
        record.set(end + 1, high);
        assert(record@ =~= sector_restored(s, array as int, i as int));
        i += 1;
    }
    Ok(())
}

/// Whether `s` is the record `whole` as it is written: the last two bytes of each of its
/// `count` sectors are kept in the array behind `usn_offset`, and the number `usn` stands
/// there instead. The array lies before the end of the first sector.
pub open spec fn is_protected(
    s: Seq<u8>,
    whole: Seq<u8>,
    usn_offset: int,
    usn: (u8, u8),
    count: int,
) -> bool {
    &&& s.len() == whole.len() == count * 512
    &&& 8 <= usn_offset
    &&& usn_offset + 2 + 2 * count <= 510
    &&& bytes::u16_at(s, 4) == usn_offset
    &&& bytes::u16_at(s, 6) == count + 1
    &&& s[usn_offset] == usn.0
    &&& s[usn_offset + 1] == usn.1
    &&& forall|i: int|
        0 <= i < count ==> {
            &&& #[trigger] s[sector_end(i)] == usn.0
            &&& s[sector_end(i) + 1] == usn.1
            &&& s[usn_offset + 2 + 2 * i] == whole[sector_end(i)]
            &&& s[usn_offset + 2 + 2 * i + 1] == whole[sector_end(i) + 1]
        }
    &&& forall|k: int| 0 <= k < s.len() && k % 512 < 510 ==> #[trigger] s[k] == whole[k]
}

/// Putting the sectors of a record together gives back the record that was written.
pub proof fn fixup_restores(
    s: Seq<u8>,
    whole: Seq<u8>,
    usn_offset: int,
    usn: (u8, u8),
    count: int,
    record_number: u64,
    record_size: u64,
)
    requires
        count >= 1,
        is_protected(s, whole, usn_offset, usn, count),
        record_size == count * 512,
    ensures
        fixed_up(s, record_number, record_size) == (whole, None::<FixupError>),
{
    restores_from(s, s, whole, usn_offset, usn, count, 0);
}

/// The sectors before `i` are those of the record, the others as they were written.
proof fn restores_from(
    t: Seq<u8>,
    s: Seq<u8>,
    whole: Seq<u8>,
    usn_offset: int,
    usn: (u8, u8),
    count: int,
    i: int,
)
    requires
        0 <= i <= count,
        is_protected(s, whole, usn_offset, usn, count),
        t.len() == s.len(),
        forall|k: int| 0 <= k < s.len() && k < i * 512 ==> #[trigger] t[k] == whole[k],
        forall|k: int| i * 512 <= k < s.len() ==> #[trigger] t[k] == s[k],
    ensures
        sectors_restored(t, usn, usn_offset + 2, i, count) == (whole, None::<int>),
    decreases count - i,
{
    let array = usn_offset + 2;
    if i >= count {
        assert(t =~= whole);
    } else {
        assert(s[sector_end(i)] == usn.0);
        assert(t[sector_end(i)] == s[sector_end(i)]);
        assert(t[sector_end(i) + 1] == s[sector_end(i) + 1]);
        assert(s[array + 2 * i] == whole[array + 2 * i]);
        assert(s[array + 2 * i + 1] == whole[array + 2 * i + 1]);
        let next = sector_restored(t, array, i);
        assert forall|k: int| 0 <= k < s.len() && k < (i + 1) * 512 implies #[trigger] next[k]
            == whole[k] by {
            if k == sector_end(i) || k == sector_end(i) + 1 {
            } else if k >= i * 512 {
                assert(k % 512 < 510);
                assert(t[k] == s[k]);
            }
        }
        assert forall|k: int| (i + 1) * 512 <= k < s.len() implies #[trigger] next[k] == s[k] by {
            assert(t[k] == s[k]);
        }
        restores_from(next, s, whole, usn_offset, usn, count, i + 1);
    }
}

/// A record that was torn is refused, with the number of its first sector that does not end in the
/// bytes that stand at the beginning of the update sequence.
pub proof fn torn_record_is_refused(
    s: Seq<u8>,
    usn_offset: int,
    count: int,
    torn: int,
    record_number: u64,
    record_size: u64,
)
    requires
        s.len() == count * 512,
        record_size == count * 512,
        bytes::u16_at(s, 4) == usn_offset,
        bytes::u16_at(s, 6) == count + 1,
        usn_offset + 2 + 2 * count <= 510,
        0 <= torn < count,
        s.subrange(torn * 512 + 510, torn * 512 + 512) != s.subrange(usn_offset, usn_offset + 2),
        forall|i: int|
            0 <= i < torn ==> #[trigger] s.subrange(i * 512 + 510, i * 512 + 512) == s.subrange(
                usn_offset,
                usn_offset + 2,
            ),
    ensures
        fixed_up(s, record_number, record_size).1 == Some(
            FixupError::UsnMismatch { record: record_number, sector: torn as u64 },
        ),
{
    torn_is_met(s, s, usn_offset, count, torn, 0);
}

proof fn torn_is_met(t: Seq<u8>, s: Seq<u8>, usn_offset: int, count: int, torn: int, i: int)
    requires
        s.len() == count * 512,
        0 <= usn_offset,
        usn_offset + 2 + 2 * count <= 510,
        0 <= i <= torn < count,
        t.len() == s.len(),
        forall|k: int| i * 512 <= k < s.len() ==> #[trigger] t[k] == s[k],
        s.subrange(torn * 512 + 510, torn * 512 + 512) != s.subrange(usn_offset, usn_offset + 2),
        forall|i: int|
            0 <= i < torn ==> #[trigger] s.subrange(i * 512 + 510, i * 512 + 512) == s.subrange(
                usn_offset,
                usn_offset + 2,
            ),
    ensures
        sectors_restored(t, (s[usn_offset], s[usn_offset + 1]), usn_offset + 2, i, count).1 == Some(
            torn,
        ),
    decreases torn - i,
{
    let (end, number) = (
        s.subrange(i * 512 + 510, i * 512 + 512),
        s.subrange(usn_offset, usn_offset + 2),
    );
    assert(t[sector_end(i)] == end[0] && t[sector_end(i) + 1] == end[1]);
    assert(s[usn_offset] == number[0] && s[usn_offset + 1] == number[1]);
    if i == torn {
        if end[0] == number[0] && end[1] == number[1] {
            assert(end =~= number);
        }
    } else {
        assert(end == number);
        torn_is_met(sector_restored(t, usn_offset + 2, i), s, usn_offset, count, torn, i + 1);
    }
}

/// A record whose update sequence is not for as many sectors as records have is refused.
pub proof fn other_count_is_refused(s: Seq<u8>, record_number: u64, sectors: u64, rest: u64)
    requires
        s.len() >= 512,
        bytes::u16_at(s, 4) + 2 <= s.len(),
        bytes::u16_at(s, 6) >= 2,
        bytes::u16_at(s, 6) != sectors + 1,
        rest < 512,
        sectors * 512 + rest <= u64::MAX,
    ensures
        fixed_up(s, record_number, (sectors * 512 + rest) as u64) == (
            s,
            Some(
                FixupError::CountMismatch {
                    record: record_number,
                    found: (bytes::u16_at(s, 6) - 1) as u64,
                    expected: sectors,
                },
            ),
        ),
{
}

} // verus!
