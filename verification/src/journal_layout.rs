//! How the system lays out journal records, version 2, and that what is written so reads back.

use crate::bytes;
use crate::little_endian;
use crate::little_endian::{holds, le, le_len, twos, unit_bytes, unit_bytes_len};
use crate::outside;
use crate::usn_records;
use crate::usn_records::{MftModel, UsnModel};
use vstd::prelude::*;

verus! {

/// What a journal record, version 2, holds. The name stands behind `gap`, and `tail` fills the
/// record up.
#[verifier::ext_equal]
pub struct JournalRecord {
    pub minor: u16,
    pub fid: u64,
    pub parent_fid: u64,
    pub usn: i64,
    pub time: i64,
    pub reason: u32,
    pub source: u32,
    pub security: u32,
    pub attributes: u32,
    pub name: Seq<u16>,
    pub gap: Seq<u8>,
    pub tail: Seq<u8>,
}

impl JournalRecord {
    /// Where the name begins.
    pub open spec fn name_from(self) -> nat {
        60 + self.gap.len()
    }

    /// How many bytes the record has.
    pub open spec fn size(self) -> nat {
        self.name_from() + 2 * self.name.len() + self.tail.len()
    }

    /// Whether the lengths can be written.
    pub open spec fn fits(self) -> bool {
        &&& self.name_from() <= u16::MAX
        &&& 2 * self.name.len() <= u16::MAX
        &&& self.size() <= u32::MAX
    }

    /// The bytes from the length to the reference of the directory.
    pub open spec fn first_bytes(self) -> Seq<u8> {
        le(self.size(), 4) + le(2, 2) + le(self.minor as nat, 2) + le(self.fid as nat, 8) + le(
            self.parent_fid as nat,
            8,
        )
    }

    /// The bytes from the number of the record to the place of the name.
    pub open spec fn next_bytes(self) -> Seq<u8> {
        le(twos(self.usn), 8) + le(twos(self.time), 8) + le(self.reason as nat, 4) + le(
            self.source as nat,
            4,
        ) + le(self.security as nat, 4) + le(self.attributes as nat, 4) + le(
            2 * self.name.len(),
            2,
        ) + le(self.name_from(), 2)
    }

    /// The bytes of the record.
    pub open spec fn encoded(self) -> Seq<u8> {
        self.first_bytes() + self.next_bytes() + self.gap + unit_bytes(self.name) + self.tail
    }

    /// The change that the record tells of.
    pub open spec fn change(self) -> UsnModel {
        UsnModel {
            usn: self.usn,
            fid: self.fid,
            parent_fid: self.parent_fid,
            reason: self.reason,
            file_name: outside::utf16_text(self.name),
            file_attributes: self.attributes,
        }
    }

    /// The file that the record tells of.
    pub open spec fn file(self) -> MftModel {
        MftModel {
            fid: self.fid,
            parent_fid: self.parent_fid,
            file_name: outside::utf16_text(self.name),
            file_attributes: self.attributes,
            timestamp: self.time,
        }
    }
}

/// The bytes of records, one behind the other.
pub open spec fn encoded_all(records: Seq<JournalRecord>) -> Seq<u8>
    decreases records.len(),
{
    if records.len() == 0 {
        seq![]
    } else {
        records[0].encoded() + encoded_all(records.drop_first())
    }
}

/// Whether the lengths of all records can be written.
pub open spec fn all_fit(records: Seq<JournalRecord>) -> bool {
    forall|i: int| 0 <= i < records.len() ==> (#[trigger] records[i]).fits()
}

/// Whether the first `returned` bytes of `s` are a number, `next`, and the bytes of records.
pub open spec fn is_laid_out(
    s: Seq<u8>,
    returned: int,
    next: nat,
    records: Seq<JournalRecord>,
) -> bool {
    &&& 0 <= returned <= s.len()
    &&& s.take(returned) == le(next, 8) + encoded_all(records)
    &&& all_fit(records)
}

/// The fields of a record stand at their places.
proof fn fields_stand(r: JournalRecord)
    ensures
        r.encoded().len() == r.size(),
        holds(r.encoded(), 0, le(r.size(), 4)),
        holds(r.encoded(), 4, le(2, 2)),
        holds(r.encoded(), 8, le(r.fid as nat, 8)),
        holds(r.encoded(), 16, le(r.parent_fid as nat, 8)),
        holds(r.encoded(), 24, le(twos(r.usn), 8)),
        holds(r.encoded(), 32, le(twos(r.time), 8)),
        holds(r.encoded(), 40, le(r.reason as nat, 4)),
        holds(r.encoded(), 52, le(r.attributes as nat, 4)),
        holds(r.encoded(), 56, le(2 * r.name.len(), 2)),
        holds(r.encoded(), 58, le(r.name_from(), 2)),
        holds(r.encoded(), r.name_from() as int, unit_bytes(r.name)),
{
    broadcast use {le_len, unit_bytes_len};

    let e = r.encoded();
    let (f, n) = (r.first_bytes(), r.next_bytes());
    assert(f.len() == 24 && n.len() == 36);
    assert(f.subrange(0, 4) =~= le(r.size(), 4));
    assert(f.subrange(4, 6) =~= le(2, 2));
    assert(f.subrange(8, 16) =~= le(r.fid as nat, 8));
    assert(f.subrange(16, 24) =~= le(r.parent_fid as nat, 8));
    assert(n.subrange(0, 8) =~= le(twos(r.usn), 8));
    assert(n.subrange(8, 16) =~= le(twos(r.time), 8));
    assert(n.subrange(16, 20) =~= le(r.reason as nat, 4));
    assert(n.subrange(28, 32) =~= le(r.attributes as nat, 4));
    assert(n.subrange(32, 34) =~= le(2 * r.name.len(), 2));
    assert(n.subrange(34, 36) =~= le(r.name_from(), 2));
    assert(e.subrange(0, 24) =~= f);
    assert(e.subrange(24, 60) =~= n);
    little_endian::inner_holds(e, 0, f, 0, le(r.size(), 4));
    little_endian::inner_holds(e, 0, f, 4, le(2, 2));
    little_endian::inner_holds(e, 0, f, 8, le(r.fid as nat, 8));
    little_endian::inner_holds(e, 0, f, 16, le(r.parent_fid as nat, 8));
    little_endian::inner_holds(e, 24, n, 0, le(twos(r.usn), 8));
    little_endian::inner_holds(e, 24, n, 8, le(twos(r.time), 8));
    little_endian::inner_holds(e, 24, n, 16, le(r.reason as nat, 4));
    little_endian::inner_holds(e, 24, n, 28, le(r.attributes as nat, 4));
    little_endian::inner_holds(e, 24, n, 32, le(2 * r.name.len(), 2));
    little_endian::inner_holds(e, 24, n, 34, le(r.name_from(), 2));
    little_endian::middle_holds(f + n + r.gap, unit_bytes(r.name), r.tail);
}

/// A record that stands at `o` is found there, with what it holds.
proof fn record_reads_back(s: Seq<u8>, returned: int, o: int, r: JournalRecord)
    requires
        r.fits(),
        0 <= o,
        o + r.size() <= returned <= s.len(),
        holds(s, o, r.encoded()),
    ensures
        usn_records::record_len(s, returned, 4, o) == Some(r.size() as int),
        usn_records::record_len(s, returned, 8, o) == Some(r.size() as int),
        usn_records::usn_at(s, returned, o) == Some(r.change()),
        usn_records::mft_at(s, returned, o) == Some(r.file()),
{
    broadcast use {le_len, unit_bytes_len};

    let e = r.encoded();
    fields_stand(r);
    little_endian::inner_holds(s, o, e, 0, le(r.size(), 4));
    little_endian::inner_holds(s, o, e, 4, le(2, 2));
    little_endian::inner_holds(s, o, e, 8, le(r.fid as nat, 8));
    little_endian::inner_holds(s, o, e, 16, le(r.parent_fid as nat, 8));
    little_endian::inner_holds(s, o, e, 24, le(twos(r.usn), 8));
    little_endian::inner_holds(s, o, e, 32, le(twos(r.time), 8));
    little_endian::inner_holds(s, o, e, 40, le(r.reason as nat, 4));
    little_endian::inner_holds(s, o, e, 52, le(r.attributes as nat, 4));
    little_endian::inner_holds(s, o, e, 56, le(2 * r.name.len(), 2));
    little_endian::inner_holds(s, o, e, 58, le(r.name_from(), 2));
    little_endian::inner_holds(s, o, e, r.name_from() as int, unit_bytes(r.name));
    little_endian::u32_reads_back(s, o, r.size() as u32);
    little_endian::u16_reads_back(s, o + 4, 2);
    little_endian::u64_reads_back(s, o + 8, r.fid);
    little_endian::u64_reads_back(s, o + 16, r.parent_fid);
    little_endian::i64_reads_back(s, o + 24, r.usn);
    little_endian::i64_reads_back(s, o + 32, r.time);
    little_endian::u32_reads_back(s, o + 40, r.reason);
    little_endian::u32_reads_back(s, o + 52, r.attributes);
    little_endian::u16_reads_back(s, o + 56, (2 * r.name.len()) as u16);
    little_endian::u16_reads_back(s, o + 58, r.name_from() as u16);
    little_endian::units_read_back(s, o + r.name_from(), r.name);
}

/// Records that stand from `o` on are read in turn.
proof fn records_read_back(s: Seq<u8>, returned: int, o: int, records: Seq<JournalRecord>)
    requires
        0 <= o <= returned <= s.len(),
        s.subrange(o, returned) == encoded_all(records),
        all_fit(records),
    ensures
        usn_records::usns_from(s, returned, o) == records.map_values(
            |r: JournalRecord| r.change(),
        ),
        usn_records::mfts_from(s, returned, o) == records.map_values(|r: JournalRecord| r.file()),
    decreases records.len(),
{
    let changes = records.map_values(|r: JournalRecord| r.change());
    let files = records.map_values(|r: JournalRecord| r.file());
    if records.len() == 0 {
        assert(o == returned);
        assert(usn_records::usns_from(s, returned, o) =~= changes);
        assert(usn_records::mfts_from(s, returned, o) =~= files);
    } else {
        let (r, rest) = (records[0], records.drop_first());
        let e = r.encoded();
        let part = s.subrange(o, returned);
        fields_stand(r);
        assert(part == e + encoded_all(rest));
        assert(s.subrange(o, o + e.len()) =~= e) by {
            assert(part.subrange(0, e.len() as int) =~= e);
            assert(s.subrange(o, o + e.len()) =~= part.subrange(0, e.len() as int));
        }
        assert(s.subrange(o + e.len(), returned) =~= encoded_all(rest)) by {
            assert(part.skip(e.len() as int) =~= encoded_all(rest));
            assert(s.subrange(o + e.len(), returned) =~= part.skip(e.len() as int));
        }
        assert(all_fit(rest)) by {
            assert forall|i: int| 0 <= i < rest.len() implies (#[trigger] rest[i]).fits() by {
                assert(rest[i] == records[i + 1]);
            }
        }
        record_reads_back(s, returned, o, r);
        records_read_back(s, returned, o + e.len(), rest);
        assert(usn_records::usns_from(s, returned, o) =~= changes);
        assert(usn_records::mfts_from(s, returned, o) =~= files);
    }
}

/// What journal records in their layout tell reads back: for each record its file, the
/// directory of the file, the number of the record, the reason, the flags and the name, in
/// turn, and the number to go on with.
pub proof fn journal_reads_back(s: Seq<u8>, returned: int, next: i64, records: Seq<JournalRecord>)
    requires
        is_laid_out(s, returned, twos(next), records),
    ensures
        returned >= 8,
        bytes::u64_at(s, 0) as i64 == next,
        usn_records::usns_from(s, returned, 8) == records.map_values(
            |r: JournalRecord| r.change(),
        ),
{
    broadcast use le_len;

    let (head, tail) = (le(twos(next), 8), encoded_all(records));
    let all = s.take(returned);
    assert(s.subrange(0, 8) =~= head) by {
        assert(all.subrange(0, 8) =~= head);
        assert(s.subrange(0, 8) =~= all.subrange(0, 8));
    }
    assert(s.subrange(8, returned) =~= tail) by {
        assert(all.skip(8) =~= tail);
        assert(s.subrange(8, returned) =~= all.skip(8));
    }
    little_endian::i64_reads_back(s, 0, next);
    records_read_back(s, returned, 8, records);
}

/// What an enumeration of the file table tells in the same layout reads back: for each record
/// its file, the directory of the file, the name, the flags and the time, in turn, and the
/// number to go on with.
pub proof fn enumeration_reads_back(
    s: Seq<u8>,
    returned: int,
    next: u64,
    records: Seq<JournalRecord>,
)
    requires
        is_laid_out(s, returned, next as nat, records),
    ensures
        returned >= 8,
        bytes::u64_at(s, 0) == next,
        usn_records::mfts_from(s, returned, 8) == records.map_values(|r: JournalRecord| r.file()),
{
    broadcast use le_len;

    let (head, tail) = (le(next as nat, 8), encoded_all(records));
    let all = s.take(returned);
    assert(s.subrange(0, 8) =~= head) by {
        assert(all.subrange(0, 8) =~= head);
        assert(s.subrange(0, 8) =~= all.subrange(0, 8));
    }
    assert(s.subrange(8, returned) =~= tail) by {
        assert(all.skip(8) =~= tail);
        assert(s.subrange(8, returned) =~= all.skip(8));
    }
    little_endian::u64_reads_back(s, 0, next);
    records_read_back(s, returned, 8, records);
}

/// Of the flags of a changed file, the fifth bit says that it is a directory, the second that it
/// is hidden and the third that it is one of the system.
pub proof fn flags_have_their_bits(m: UsnModel)
    ensures
        m.is_dir() <==> (m.file_attributes / 16) % 2 == 1,
        m.is_hidden() <==> (m.file_attributes / 2) % 2 == 1,
        m.is_system() <==> (m.file_attributes / 4) % 2 == 1,
{
    let a = m.file_attributes;
    assert((a & 0x10 != 0 <==> (a / 16) % 2 == 1) && (a & 0x02 != 0 <==> (a / 2) % 2 == 1) && (a
        & 0x04 != 0 <==> (a / 4) % 2 == 1)) by (bit_vector);
}

} // verus!
