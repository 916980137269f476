//! The records of the change journal and of an enumeration of the file table, as the
//! system hands them out: a number of eight bytes, then one record behind the other.

use crate::bytes;
use crate::bytes::{read_u16, read_u32, read_u64};
use crate::journal_layout;
use crate::journal_layout::JournalRecord;
use crate::little_endian::twos;
use crate::outside;
use crate::outside::from_utf16_lossy;
use crate::record_details;
use crate::record_details::read_units;
use vstd::prelude::*;

verus! {

broadcast use vstd::string::group_string_axioms;

/// The size of the buffer that journal records are read into.
pub const USN_BUFFER_SIZE: usize = 65536;

/// The error that says that there is no more to read.
pub const ERROR_HANDLE_EOF: u32 = 38;

/// A change of a file.
pub struct RawUsnRecord {
    pub usn: i64,
    pub fid: u64,
    pub parent_fid: u64,
    pub reason: u32,
    pub file_name: String,
    pub file_attributes: u32,
}

/// A change of a file.
#[verifier::ext_equal]
pub struct UsnModel {
    pub usn: i64,
    pub fid: u64,
    pub parent_fid: u64,
    pub reason: u32,
    pub file_name: Seq<char>,
    pub file_attributes: u32,
}

impl View for RawUsnRecord {
    type V = UsnModel;

    open spec fn view(&self) -> UsnModel {
        UsnModel {
            usn: self.usn,
            fid: self.fid,
            parent_fid: self.parent_fid,
            reason: self.reason,
            file_name: self.file_name@,
            file_attributes: self.file_attributes,
        }
    }
}

impl UsnModel {
    /// Whether the file is a directory.
    pub open spec fn is_dir(self) -> bool {
        self.file_attributes & 0x10 != 0
    }

    /// Whether the file is hidden.
    pub open spec fn is_hidden(self) -> bool {
        self.file_attributes & 0x02 != 0
    }

    /// Whether the file is one of the system.
    pub open spec fn is_system(self) -> bool {
        self.file_attributes & 0x04 != 0
    }
}

impl RawUsnRecord {
    /// Whether the file is a directory.
    pub fn is_dir(&self) -> (r: bool)
        ensures
            r == self@.is_dir(),
    {
        self.file_attributes & 0x10 != 0
    }

    /// Whether the file is hidden.
    pub fn is_hidden(&self) -> (r: bool)
        ensures
            r == self@.is_hidden(),
    {
        self.file_attributes & 0x02 != 0
    }

    /// Whether the file is one of the system.
    pub fn is_system(&self) -> (r: bool)
        ensures
            r == self@.is_system(),
    {
        self.file_attributes & 0x04 != 0
    }
}

/// A file of the table, with the time of its last change.
pub struct MftEntryWithTimestamp {
    pub fid: u64,
    pub parent_fid: u64,
    pub file_name: String,
    pub file_attributes: u32,
    /// When the record was written, in units of 100 ns since 1601.
    pub timestamp: i64,
}

/// A file of the table.
#[verifier::ext_equal]
pub struct MftModel {
    pub fid: u64,
    pub parent_fid: u64,
    pub file_name: Seq<char>,
    pub file_attributes: u32,
    pub timestamp: i64,
}

impl View for MftEntryWithTimestamp {
    type V = MftModel;

    open spec fn view(&self) -> MftModel {
        MftModel {
            fid: self.fid,
            parent_fid: self.parent_fid,
            file_name: self.file_name@,
            file_attributes: self.file_attributes,
            timestamp: self.timestamp,
        }
    }
}

/// The length of the record at `o`, where one begins there: it has a length, lies in what
/// was returned, and its fields lie in the buffer.
pub open spec fn record_len(s: Seq<u8>, returned: int, head: int, o: int) -> Option<int> {
    let len = bytes::u32_at(s, o) as int;
    if o + head <= returned && len > 0 && o + len <= returned && o + 60 <= s.len() {
        Some(len)
    } else {
        None
    }
}

/// The name of the record at `o`, where it lies in what was returned and has whole units.
pub open spec fn name_at(s: Seq<u8>, returned: int, o: int) -> Option<Seq<char>> {
    let len = bytes::u16_at(s, o + 56) as int;
    let start = o + bytes::u16_at(s, o + 58);
    if start + len <= returned && len % 2 == 0 {
        Some(outside::utf16_text(record_details::units_at(s, start, (len / 2) as nat)))
    } else {
        None
    }
}

/// The change that the record at `o` tells of.
pub open spec fn usn_at(s: Seq<u8>, returned: int, o: int) -> Option<UsnModel> {
    match name_at(s, returned, o) {
        Some(file_name) => Some(
            UsnModel {
                usn: bytes::u64_at(s, o + 24) as i64,
                fid: bytes::u64_at(s, o + 8),
                parent_fid: bytes::u64_at(s, o + 16),
                reason: bytes::u32_at(s, o + 40),
                file_name,
                file_attributes: bytes::u32_at(s, o + 52),
            },
        ),
        None => None,
    }
}

/// What an optional finding adds to a list.
pub open spec fn optional<A>(a: Option<A>) -> Seq<A> {
    match a {
        Some(a) => seq![a],
        None => seq![],
    }
}

/// The changes that the records from `o` on tell of.
pub open spec fn usns_from(s: Seq<u8>, returned: int, o: int) -> Seq<UsnModel>
    decreases returned - o,
{
    match record_len(s, returned, 4, o) {
        Some(len) => optional(usn_at(s, returned, o)) + usns_from(s, returned, o + len),
        None => seq![],
    }
}

/// The models of changes.
pub open spec fn usn_models(v: Seq<RawUsnRecord>) -> Seq<UsnModel> {
    v.map_values(|r: RawUsnRecord| r@)
}

/// The file that the record at `o` tells of, where the record is of version 2.
pub open spec fn mft_at(s: Seq<u8>, returned: int, o: int) -> Option<MftModel> {
    match name_at(s, returned, o) {
        Some(file_name) => if bytes::u16_at(s, o + 4) == 2 {
            Some(
                MftModel {
                    fid: bytes::u64_at(s, o + 8),
                    parent_fid: bytes::u64_at(s, o + 16),
                    file_name,
                    file_attributes: bytes::u32_at(s, o + 52),
                    timestamp: bytes::u64_at(s, o + 32) as i64,
                },
            )
        } else {
            None
        },
        None => None,
    }
}

/// The files that the records from `o` on tell of.
pub open spec fn mfts_from(s: Seq<u8>, returned: int, o: int) -> Seq<MftModel>
    decreases returned - o,
{
    match record_len(s, returned, 8, o) {
        Some(len) => optional(mft_at(s, returned, o)) + mfts_from(s, returned, o + len),
        None => seq![],
    }
}

/// The models of files.
pub open spec fn mft_models(v: Seq<MftEntryWithTimestamp>) -> Seq<MftModel> {
    v.map_values(|r: MftEntryWithTimestamp| r@)
}

/// The length of the record at `o`, where one begins there.
fn find_record(buffer: &[u8], returned: usize, head: usize, o: usize) -> (r: Option<usize>)
    requires
        returned <= buffer.len(),
        4 <= head <= 8,
        o <= returned,
    ensures
        match record_len(buffer@, returned as int, head as int, o as int) {
            Some(len) => r == Some(len as usize) && 0 < len <= returned - o && o + 60
                <= buffer.len(),
            None => r is None,
        },
{
    if returned - o < head {
        return None;
    }
    let len: u32 = read_u32(buffer, o);
    if len == 0 || len as usize > returned - o || buffer.len() - o < 60 {
        return None;
    }
    Some(len as usize)
}

/// The name of the record at `o`.
fn read_name(buffer: &[u8], returned: usize, o: usize) -> (r: Option<String>)
    requires
        returned <= buffer.len(),
        o + 60 <= buffer.len(),
        o <= returned,
    ensures
        match name_at(buffer@, returned as int, o as int) {
            Some(name) => r matches Some(n) && n@ == name,
            None => r is None,
        },
{
    let len: usize = read_u16(buffer, o + 56) as usize;
    let at: usize = read_u16(buffer, o + 58) as usize;
    if len % 2 != 0 || at > returned - o || len > returned - o - at {
        return None;
    }
    let units = read_units(buffer, o + at, len / 2);
    Some(from_utf16_lossy(&units))
}

/// The changes that a buffer of journal records tells of, where `returned` bytes of it were
/// filled, and the number to go on with; nothing where not even that was returned.
pub fn parse_usn_buffer(buffer: &[u8], returned: usize) -> (r: Option<(Vec<RawUsnRecord>, i64)>)
    requires
        returned <= buffer.len(),
    ensures
        match r {
            Some((records, next)) => {
                &&& returned >= 8
                &&& usn_models(records@) == usns_from(buffer@, returned as int, 8)
                &&& next == bytes::u64_at(buffer@, 0) as i64
            },
            None => returned < 8,
        },
        forall|number: i64, laid: Seq<JournalRecord>| #[trigger]
            journal_layout::is_laid_out(buffer@, returned as int, twos(number), laid) ==> {
                &&& r matches Some((records, next))
                &&& usn_models(records@) == laid.map_values(|l: JournalRecord| l.change())
                &&& next == number
            },
{
    proof {
        assert forall|number: i64, laid: Seq<JournalRecord>| #[trigger]
            journal_layout::is_laid_out(buffer@, returned as int, twos(number), laid) implies {
            &&& returned >= 8
            &&& bytes::u64_at(buffer@, 0) as i64 == number
            &&& usns_from(buffer@, returned as int, 8) == laid.map_values(
                |l: JournalRecord| l.change(),
            )
        } by {
            journal_layout::journal_reads_back(buffer@, returned as int, number, laid);
        }
    }
    if returned < 8 {
        return None;
    }
    let next: i64 = #[verifier::truncate]
    (read_u64(buffer, 0) as i64);
    let mut records: Vec<RawUsnRecord> = Vec::new();
    let ghost whole = usns_from(buffer@, returned as int, 8);
    let mut o: usize = 8;
    assert(usn_models(records@) + whole =~= whole);
    loop
        invariant
            returned <= buffer.len(),
            8 <= o <= returned,
            usn_models(records@) + usns_from(buffer@, returned as int, o as int) == whole,
        ensures
            usn_models(records@) == whole,
        decreases returned - o,
    {
        let ghost rest = usns_from(buffer@, returned as int, o as int);
        let len: usize = match find_record(buffer, returned, 4, o) {
            Some(len) => len,
            None => {
                assert(usn_models(records@) + rest =~= usn_models(records@));
                break ;
            },
        };
        let ghost before = records@;
        if let Some(file_name) = read_name(buffer, returned, o) {
            records.push(
                RawUsnRecord {
                    usn: #[verifier::truncate] (read_u64(buffer, o + 24) as i64),
                    fid: read_u64(buffer, o + 8),
                    parent_fid: read_u64(buffer, o + 16),
                    reason: read_u32(buffer, o + 40),
                    file_name,
                    file_attributes: read_u32(buffer, o + 52),
                },
            );
        }
        assert(usn_models(records@) =~= usn_models(before) + optional(
            usn_at(buffer@, returned as int, o as int),
        ));
        assert(usn_models(before) + rest =~= usn_models(records@) + usns_from(
            buffer@,
            returned as int,
            o + len,
        ));
        o = o + len;
    }
    Some((records, next))
}

/// Whether more journal records can be read after `returned` bytes: not where they fill
/// less than half of the buffer.
pub fn usn_read_goes_on(returned: usize) -> (r: bool)
    ensures
        r == (returned >= USN_BUFFER_SIZE / 2),
{
    returned >= USN_BUFFER_SIZE / 2
}

/// Whether an error of reading the journal says that there is no more to read.
pub fn is_end_of_journal(code: u32) -> (r: bool)
    ensures
        r == (code % 0x1_0000 == ERROR_HANDLE_EOF),
{
    code % 0x1_0000 == ERROR_HANDLE_EOF
}

/// The files that a buffer of an enumeration tells of, where `returned` bytes of it were
/// filled, and the number to go on with; nothing where not even that was returned.
pub fn parse_mft_buffer(buffer: &[u8], returned: usize) -> (r: Option<
    (Vec<MftEntryWithTimestamp>, u64),
>)
    requires
        returned <= buffer.len(),
    ensures
        match r {
            Some((entries, next)) => {
                &&& returned >= 8
                &&& mft_models(entries@) == mfts_from(buffer@, returned as int, 8)
                &&& next == bytes::u64_at(buffer@, 0)
            },
            None => returned < 8,
        },
        forall|number: u64, laid: Seq<JournalRecord>| #[trigger]
            journal_layout::is_laid_out(buffer@, returned as int, number as nat, laid) ==> {
                &&& r matches Some((entries, next))
                &&& mft_models(entries@) == laid.map_values(|l: JournalRecord| l.file())
                &&& next == number
            },
{
    proof {
        assert forall|number: u64, laid: Seq<JournalRecord>| #[trigger]
            journal_layout::is_laid_out(buffer@, returned as int, number as nat, laid) implies {
            &&& returned >= 8
            &&& bytes::u64_at(buffer@, 0) == number
            &&& mfts_from(buffer@, returned as int, 8) == laid.map_values(
                |l: JournalRecord| l.file(),
            )
        } by {
            journal_layout::enumeration_reads_back(buffer@, returned as int, number, laid);
        }
    }
    if returned < 8 {
        return None;
    }
    let next: u64 = read_u64(buffer, 0);
    let mut entries: Vec<MftEntryWithTimestamp> = Vec::new();
    let ghost whole = mfts_from(buffer@, returned as int, 8);
    let mut o: usize = 8;
    assert(mft_models(entries@) + whole =~= whole);
    loop
        invariant
            returned <= buffer.len(),
            8 <= o <= returned,
            mft_models(entries@) + mfts_from(buffer@, returned as int, o as int) == whole,
        ensures
            mft_models(entries@) == whole,
        decreases returned - o,
    {
        let ghost rest = mfts_from(buffer@, returned as int, o as int);
        let len: usize = match find_record(buffer, returned, 8, o) {
            Some(len) => len,
            None => {
                assert(mft_models(entries@) + rest =~= mft_models(entries@));
                break ;
            },
        };
        let ghost before = entries@;
        if read_u16(buffer, o + 4) == 2 {
            if let Some(file_name) = read_name(buffer, returned, o) {
                entries.push(
                    MftEntryWithTimestamp {
                        fid: read_u64(buffer, o + 8),
                        parent_fid: read_u64(buffer, o + 16),
                        file_name,
                        file_attributes: read_u32(buffer, o + 52),
                        timestamp: #[verifier::truncate] (read_u64(buffer, o + 32) as i64),
                    },
                );
            }
        }
        assert(mft_models(entries@) =~= mft_models(before) + optional(
            mft_at(buffer@, returned as int, o as int),
        ));
        assert(mft_models(before) + rest =~= mft_models(entries@) + mfts_from(
            buffer@,
            returned as int,
            o + len,
        ));
        o = o + len;
    }
    Some((entries, next))
}

/// Whether an enumeration goes on from `next`, where it went on from `start`: not where it
/// stands still, nor behind the last file.
pub fn mft_enumeration_goes_on(start: u64, next: u64) -> (r: bool)
    ensures
        r == (next != start && next < 0x1_0000_0000_0000),
{
    next != start && next < 0x1_0000_0000_0000
}

/// Whether an error of an enumeration says that there are no more files.
pub fn is_end_of_enumeration(code: u32) -> (r: bool)
    ensures
        r == (code == ERROR_HANDLE_EOF || code == 0x8007_0026),
{
    code == ERROR_HANDLE_EOF || code == 0x8007_0026
}

} // verus!
