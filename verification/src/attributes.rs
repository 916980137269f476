//! The attributes of a record of the file table: names, times, sizes and flags of the
//! file that it describes.

use crate::bytes;
use crate::bytes::{read_u16, read_u32, read_u64};
use crate::seqs;
use std::collections::HashSet;
use vstd::prelude::*;

verus! {

broadcast use {
    vstd::string::group_string_axioms,
    vstd::std_specs::hash::group_hash_axioms,
};

/// The type of the attribute that holds times and flags.
pub const ATTR_STANDARD_INFO: u32 = 0x10;

/// The type of the attribute that lists attributes in other records.
pub const ATTR_ATTRIBUTE_LIST: u32 = 0x20;

/// The type of an attribute that holds a name.
pub const ATTR_FILE_NAME: u32 = 0x30;

/// The type of an attribute that holds contents.
pub const ATTR_DATA: u32 = 0x80;

/// Stands behind the last attribute.
pub const ATTR_END: u32 = 0xFFFF_FFFF;

/// Whether an attribute begins at `o`: at least `head` bytes of it lie below `limit`, it
/// is at least `least` bytes long, and it lies in the record.
pub open spec fn begins_at(s: Seq<u8>, limit: int, head: int, least: int, o: int) -> bool {
    &&& o + head <= limit
    &&& bytes::u32_at(s, o) != ATTR_END
    &&& bytes::u32_at(s, o + 4) >= least
    &&& o + bytes::u32_at(s, o + 4) <= s.len()
}

/// The attributes from `o` on, by where they begin.
pub open spec fn attributes_from(s: Seq<u8>, limit: int, head: int, least: int, o: int) -> Seq<usize>
    decreases s.len() - o,
{
    if least >= 1 && begins_at(s, limit, head, least, o) {
        seq![o as usize] + attributes_from(
            s,
            limit,
            head,
            least,
            o + bytes::u32_at(s, o + 4),
        )
    } else {
        seq![]
    }
}

/// The smaller of the record's length and the size that records have.
pub open spec fn limit_of(s: Seq<u8>, record_size: int) -> int {
    crate::rows::least(s.len() as int, record_size)
}

/// The attributes of a record, by where they begin: up to the first that is cut short, or
/// shorter than `least` bytes. None where the record is shorter than its header.
pub open spec fn attributes_of(s: Seq<u8>, record_size: int, head: int, least: int) -> Seq<usize> {
    if s.len() < 22 {
        seq![]
    } else {
        attributes_from(s, limit_of(s, record_size), head, least, bytes::u16_at(s, 20) as int)
    }
}

/// The attributes of a record, by where they begin.
pub(crate) fn list_attributes(record: &[u8], record_size: usize, head: usize, least: u32) -> (r: Vec<usize>)
    requires
        8 <= head <= 64,
        least >= 1,
    ensures
        r@ == attributes_of(record@, record_size as int, head as int, least as int),
        forall|i: int|
            0 <= i < r@.len() ==> {
                &&& #[trigger] r@[i] + head <= record.len()
                &&& r@[i] + least <= record.len()
                &&& r@[i] + bytes::u32_at(record@, r@[i] + 4) <= record.len()
            },
{
    let mut r: Vec<usize> = Vec::new();
    if record.len() < 22 {
        return r;
    }
    let limit: usize = if record.len() < record_size {
        record.len()
    } else {
        record_size
    };
    let mut o: usize = read_u16(record, 20) as usize;
    let ghost whole = attributes_from(
        record@,
        limit as int,
        head as int,
        least as int,
        o as int,
    );
    assert(r@ + whole =~= whole);
    while limit >= head && o <= limit - head
        invariant_except_break
            limit <= record.len(),
            8 <= head <= 64,
            least >= 1,
            r@ + attributes_from(record@, limit as int, head as int, least as int, o as int)
                == whole,
            forall|i: int|
                0 <= i < r@.len() ==> {
                    &&& #[trigger] r@[i] + head <= record.len()
                    &&& r@[i] + least <= record.len()
                    &&& r@[i] + bytes::u32_at(record@, r@[i] + 4) <= record.len()
                },
        ensures
            r@ == whole,
            forall|i: int|
                0 <= i < r@.len() ==> {
                    &&& #[trigger] r@[i] + head <= record.len()
                    &&& r@[i] + least <= record.len()
                    &&& r@[i] + bytes::u32_at(record@, r@[i] + 4) <= record.len()
                },
        decreases record.len() - o,
    {
        let kind: u32 = read_u32(record, o);
        let len: u32 = read_u32(record, o + 4);
        let ghost rest = attributes_from(
            record@,
            limit as int,
            head as int,
            least as int,
            o as int,
        );
        if kind == ATTR_END || len < least || len as usize > record.len() - o {
            assert(rest =~= seq![]);
            assert(r@ + rest =~= r@);
            break ;
        }
        let ghost before = r@;
        r.push(o);
        assert(before + rest =~= r@ + attributes_from(
            record@,
            limit as int,
            head as int,
            least as int,
            o + len,
        ));
        o = o + len as usize;
    }
    proof {
        if limit < head || o > limit - head {
            let rest = attributes_from(
                record@,
                limit as int,
                head as int,
                least as int,
                o as int,
            );
            assert(rest =~= seq![]);
            assert(r@ + rest =~= r@);
        }
    }
    r
}

/// Where the value of the attribute at `o` begins, where the attribute is of type `kind`,
/// holds its value itself, and the value begins in the record.
pub open spec fn value_at(s: Seq<u8>, kind: u32, o: usize) -> Option<int> {
    if bytes::u32_at(s, o as int) == kind && o + 22 <= s.len() && s[o + 8] == 0 && o
        + bytes::u16_at(s, o + 20) <= s.len() {
        Some(o + bytes::u16_at(s, o + 20))
    } else {
        None
    }
}

/// Where the value of the attribute at `o` begins.
pub(crate) fn find_value(record: &[u8], kind: u32, o: usize) -> (r: Option<usize>)
    requires
        o + 8 <= record.len(),
    ensures
        match value_at(record@, kind, o) {
            Some(v) => r == Some(v as usize) && v <= record.len(),
            None => r is None,
        },
{
    if read_u32(record, o) == kind && record.len() - o >= 22 && record[o + 8] == 0 {
        let at: usize = read_u16(record, o + 20) as usize;
        if at <= record.len() - o {
            return Some(o + at);
        }
    }
    None
}

/// The first of some findings.
pub open spec fn first_of<A>(s: Seq<A>) -> Option<A> {
    if s.len() > 0 {
        Some(s[0])
    } else {
        None
    }
}

/// The eight bytes at `field` of the value of the attribute at `o`, where it is of type
/// `kind` and its value reaches that far.
pub open spec fn field_at(s: Seq<u8>, kind: u32, field: int, o: usize) -> Option<u64> {
    match value_at(s, kind, o) {
        Some(v) => if v + field + 8 <= s.len() {
            Some(bytes::u64_at(s, v + field))
        } else {
            None
        },
        None => None,
    }
}

/// The eight bytes at `field` of the first attribute of type `kind` whose value reaches
/// that far.
pub open spec fn time_in(s: Seq<u8>, record_size: int, kind: u32, field: int) -> Option<u64> {
    first_of(
        attributes_of(s, record_size, 8, 1).filter_map(|o: usize| field_at(s, kind, field, o)),
    )
}

/// The eight bytes at `field` of the value of the attribute at `o`.
fn read_field(record: &[u8], kind: u32, field: usize, o: usize) -> (r: Option<u64>)
    requires
        o + 8 <= record.len(),
    ensures
        r == field_at(record@, kind, field as int, o),
{
    match find_value(record, kind, o) {
        Some(v) => if record.len() - v >= 8 && record.len() - v - 8 >= field {
            Some(read_u64(record, v + field))
        } else {
            None
        },
        None => None,
    }
}

/// The eight bytes at `field` of the first attribute of type `kind` whose value reaches
/// that far.
fn extract_time(record: &[u8], record_size: usize, kind: u32, field: usize) -> (r: Option<u64>)
    ensures
        r == time_in(record@, record_size as int, kind, field as int),
{
    let places = list_attributes(record, record_size, 8, 1);
    let ghost f = |o: usize| field_at(record@, kind, field as int, o);
    let mut i: usize = 0;
    assert(places@.skip(0) =~= places@);
    while i < places.len()
        invariant
            i <= places@.len(),
            f == (|o: usize| field_at(record@, kind, field as int, o)),
            places@ == attributes_of(record@, record_size as int, 8, 1),
            places@.filter_map(f) == places@.skip(i as int).filter_map(f),
            forall|i: int| 0 <= i < places@.len() ==> #[trigger] places@[i] + 8 <= record.len(),
        decreases places@.len() - i,
    {
        let ghost rest = places@.skip(i as int);
        proof {
            seqs::filter_map_first(rest, f);
            assert(rest.drop_first() =~= places@.skip(i + 1));
        }
        if let Some(t) = read_field(record, kind, field, places[i]) {
            return Some(t);
        }
        i += 1;
    }
    proof {
        assert(places@.skip(i as int) =~= seq![]);
        reveal(Seq::filter_map);
    }
    None
}

/// A time of the standard information.
pub fn extract_si_time(record: &[u8], record_size: usize, time_offset: usize) -> (r: Option<u64>)
    ensures
        r == time_in(record@, record_size as int, ATTR_STANDARD_INFO, time_offset as int),
{
    extract_time(record, record_size, ATTR_STANDARD_INFO, time_offset)
}

/// A time of the first name.
pub fn extract_fn_time(record: &[u8], record_size: usize, time_offset: usize) -> (r: Option<u64>)
    ensures
        r == time_in(record@, record_size as int, ATTR_FILE_NAME, time_offset as int),
{
    extract_time(record, record_size, ATTR_FILE_NAME, time_offset)
}

/// The first of two findings.
pub open spec fn either(a: Option<u64>, b: Option<u64>) -> Option<u64> {
    if a is Some {
        a
    } else {
        b
    }
}

/// When the file was last changed: by the standard information, else by its name.
pub open spec fn mtime_in(s: Seq<u8>, record_size: int) -> Option<u64> {
    either(
        time_in(s, record_size, ATTR_STANDARD_INFO, 8),
        time_in(s, record_size, ATTR_FILE_NAME, 16),
    )
}

/// When the file was made: by the standard information, else by its name.
pub open spec fn ctime_in(s: Seq<u8>, record_size: int) -> Option<u64> {
    either(
        time_in(s, record_size, ATTR_STANDARD_INFO, 0),
        time_in(s, record_size, ATTR_FILE_NAME, 8),
    )
}

/// When the file was last read: by the standard information, else by its name.
pub open spec fn atime_in(s: Seq<u8>, record_size: int) -> Option<u64> {
    either(
        time_in(s, record_size, ATTR_STANDARD_INFO, 24),
        time_in(s, record_size, ATTR_FILE_NAME, 32),
    )
}

/// When the file was last changed.
pub fn extract_mtime(record: &[u8], record_size: usize) -> (r: Option<u64>)
    ensures
        r == mtime_in(record@, record_size as int),
{
    match extract_si_time(record, record_size, 8) {
        Some(t) => Some(t),
        None => extract_fn_time(record, record_size, 16),
    }
}

/// When the file was made.
pub fn extract_ctime(record: &[u8], record_size: usize) -> (r: Option<u64>)
    ensures
        r == ctime_in(record@, record_size as int),
{
    match extract_si_time(record, record_size, 0) {
        Some(t) => Some(t),
        None => extract_fn_time(record, record_size, 8),
    }
}

/// When the file was last read.
pub fn extract_atime(record: &[u8], record_size: usize) -> (r: Option<u64>)
    ensures
        r == atime_in(record@, record_size as int),
{
    match extract_si_time(record, record_size, 24) {
        Some(t) => Some(t),
        None => extract_fn_time(record, record_size, 32),
    }
}

/// The flags in the standard information at `o`.
pub open spec fn flags_at(s: Seq<u8>, o: usize) -> Option<u32> {
    match value_at(s, ATTR_STANDARD_INFO, o) {
        Some(v) => if v + 40 <= s.len() {
            Some(bytes::u32_at(s, v + 32))
        } else {
            None
        },
        None => None,
    }
}

/// The flags of the file; none where no standard information gives them.
pub open spec fn flags_in(s: Seq<u8>, record_size: int) -> u32 {
    match first_of(
        attributes_of(s, record_size, 8, 1).filter_map(|o: usize| flags_at(s, o)),
    ) {
        Some(flags) => flags,
        None => 0,
    }
}

/// The flags of the file.
pub fn extract_attributes(record: &[u8], record_size: usize) -> (r: u32)
    ensures
        r == flags_in(record@, record_size as int),
{
    let places = list_attributes(record, record_size, 8, 1);
    let ghost f = |o: usize| flags_at(record@, o);
    let mut i: usize = 0;
    assert(places@.skip(0) =~= places@);
    while i < places.len()
        invariant
            i <= places@.len(),
            f == (|o: usize| flags_at(record@, o)),
            places@.filter_map(f) == places@.skip(i as int).filter_map(f),
            places@ == attributes_of(record@, record_size as int, 8, 1),
            forall|i: int| 0 <= i < places@.len() ==> #[trigger] places@[i] + 8 <= record.len(),
        decreases places@.len() - i,
    {
        let ghost rest = places@.skip(i as int);
        proof {
            seqs::filter_map_first(rest, f);
            assert(rest.drop_first() =~= places@.skip(i + 1));
        }
        if let Some(v) = find_value(record, ATTR_STANDARD_INFO, places[i]) {
            if record.len() - v >= 40 {
                return read_u32(record, v + 32);
            }
        }
        i += 1;
    }
    proof {
        assert(places@.skip(i as int) =~= seq![]);
        reveal(Seq::filter_map);
    }
    0
}

/// The size of the contents at `o`: of the value where the attribute holds it itself, else
/// the size that it gives; 0 where that is cut short.
pub open spec fn size_at(s: Seq<u8>, o: usize) -> Option<u64> {
    if bytes::u32_at(s, o as int) != ATTR_DATA {
        None
    } else if o + 20 <= s.len() && s[o + 8] == 0 {
        Some(bytes::u32_at(s, o + 16) as u64)
    } else if o + 56 <= s.len() && s[o + 8] != 0 {
        Some(bytes::u64_at(s, o + 48))
    } else {
        Some(0)
    }
}

/// The size of the first contents in the record; 0 where there are none.
pub open spec fn size_in(s: Seq<u8>, record_size: int) -> u64 {
    match first_of(
        attributes_of(s, record_size, 8, 1).filter_map(|o: usize| size_at(s, o)),
    ) {
        Some(size) => size,
        None => 0,
    }
}

/// The size of the first contents in the record.
pub fn extract_data_size_from_bytes(record: &[u8], record_size: usize) -> (r: u64)
    ensures
        r == size_in(record@, record_size as int),
{
    let places = list_attributes(record, record_size, 8, 1);
    let ghost f = |o: usize| size_at(record@, o);
    let mut i: usize = 0;
    assert(places@.skip(0) =~= places@);
    while i < places.len()
        invariant
            i <= places@.len(),
            f == (|o: usize| size_at(record@, o)),
            places@.filter_map(f) == places@.skip(i as int).filter_map(f),
            places@ == attributes_of(record@, record_size as int, 8, 1),
            forall|i: int| 0 <= i < places@.len() ==> #[trigger] places@[i] + 8 <= record.len(),
        decreases places@.len() - i,
    {
        let ghost rest = places@.skip(i as int);
        proof {
            seqs::filter_map_first(rest, f);
            assert(rest.drop_first() =~= places@.skip(i + 1));
        }
        let o: usize = places[i];
        if read_u32(record, o) == ATTR_DATA {
            if record.len() - o >= 20 && record[o + 8] == 0 {
                return read_u32(record, o + 16) as u64;
            }
            if record.len() - o >= 56 && record[o + 8] != 0 {
                return read_u64(record, o + 48);
            }
            return 0;
        }
        i += 1;
    }
    proof {
        assert(places@.skip(i as int) =~= seq![]);
        reveal(Seq::filter_map);
    }
    0
}

/// Whether the record holds contents.
pub(crate) fn has_data(record: &[u8], record_size: usize) -> (r: bool)
    ensures
        r == (first_of(
            attributes_of(record@, record_size as int, 8, 1).filter_map(
                |o: usize| size_at(record@, o),
            ),
        ) is Some),
{
    let places = list_attributes(record, record_size, 8, 1);
    let ghost f = |o: usize| size_at(record@, o);
    let mut i: usize = 0;
    assert(places@.skip(0) =~= places@);
    while i < places.len()
        invariant
            i <= places@.len(),
            f == (|o: usize| size_at(record@, o)),
            places@.filter_map(f) == places@.skip(i as int).filter_map(f),
            places@ == attributes_of(record@, record_size as int, 8, 1),
            forall|i: int| 0 <= i < places@.len() ==> #[trigger] places@[i] + 8 <= record.len(),
        decreases places@.len() - i,
    {
        let ghost rest = places@.skip(i as int);
        proof {
            seqs::filter_map_first(rest, f);
            assert(rest.drop_first() =~= places@.skip(i + 1));
        }
        if read_u32(record, places[i]) == ATTR_DATA {
            return true;
        }
        i += 1;
    }
    proof {
        assert(places@.skip(i as int) =~= seq![]);
        reveal(Seq::filter_map);
    }
    false
}

/// The record number in a reference: its lowest 48 bits.
pub open spec fn record_of(reference: u64) -> u64 {
    reference % 0x1_0000_0000_0000
}

/// The record number in a reference.
pub(crate) fn record_in(reference: u64) -> (r: u64)
    ensures
        r == record_of(reference),
{
    assert(reference & 0x0000_FFFF_FFFF_FFFF == reference % 0x1_0000_0000_0000) by (bit_vector);
    reference & 0x0000_FFFF_FFFF_FFFF
}

/// The record of the directory that the name at `o` stands in.
pub open spec fn parent_at(s: Seq<u8>, o: usize) -> Option<u64> {
    match field_at(s, ATTR_FILE_NAME, 0, o) {
        Some(reference) => Some(record_of(reference)),
        None => None,
    }
}

/// The same, where it is not record 0.
pub open spec fn true_parent_at(s: Seq<u8>, o: usize) -> Option<u64> {
    match parent_at(s, o) {
        Some(p) => if p != 0 {
            Some(p)
        } else {
            None
        },
        None => None,
    }
}

/// The record of the directory that the file stands in; 0 where no name gives one.
pub open spec fn parent_in(s: Seq<u8>, record_size: int) -> u64 {
    match first_of(
        attributes_of(s, record_size, 8, 24).filter_map(|o: usize| true_parent_at(s, o)),
    ) {
        Some(p) => p,
        None => 0,
    }
}

/// The record of the directory that the name at `o` stands in.
fn read_parent(record: &[u8], o: usize) -> (r: Option<u64>)
    requires
        o + 8 <= record.len(),
    ensures
        r == parent_at(record@, o),
{
    match read_field(record, ATTR_FILE_NAME, 0, o) {
        Some(reference) => Some(record_in(reference)),
        None => None,
    }
}

/// The record of the directory that the file stands in.
pub fn extract_parent_record(record: &[u8], record_size: usize) -> (r: u64)
    ensures
        r == parent_in(record@, record_size as int),
{
    let places = list_attributes(record, record_size, 8, 24);
    let ghost f = |o: usize| true_parent_at(record@, o);
    let mut i: usize = 0;
    assert(places@.skip(0) =~= places@);
    while i < places.len()
        invariant
            i <= places@.len(),
            f == (|o: usize| true_parent_at(record@, o)),
            places@.filter_map(f) == places@.skip(i as int).filter_map(f),
            places@ == attributes_of(record@, record_size as int, 8, 24),
            forall|i: int| 0 <= i < places@.len() ==> #[trigger] places@[i] + 8 <= record.len(),
        decreases places@.len() - i,
    {
        let ghost rest = places@.skip(i as int);
        proof {
            seqs::filter_map_first(rest, f);
            assert(rest.drop_first() =~= places@.skip(i + 1));
        }
        if let Some(p) = read_parent(record, places[i]) {
            if p != 0 {
                return p;
            }
        }
        i += 1;
    }
    proof {
        assert(places@.skip(i as int) =~= seq![]);
        reveal(Seq::filter_map);
    }
    0
}

/// The directories that the names of the file stand in.
pub open spec fn parents_in(s: Seq<u8>, record_size: int) -> Seq<u64> {
    attributes_of(s, record_size, 8, 24).filter_map(|o: usize| parent_at(s, o))
}

/// How many directories hold the file.
pub fn count_hard_links(record: &[u8], record_size: usize) -> (r: u64)
    ensures
        r == parents_in(record@, record_size as int).to_set().len(),
{
    let places = list_attributes(record, record_size, 8, 24);
    let ghost f = |o: usize| parent_at(record@, o);
    let mut parents: HashSet<u64> = HashSet::new();
    let mut i: usize = 0;
    proof {
        assert(places@.take(0) =~= seq![]);
        reveal(Seq::filter_map);
        assert(parents@ =~= places@.take(0).filter_map(f).to_set());
    }
    while i < places.len()
        invariant
            i <= places@.len(),
            f == (|o: usize| parent_at(record@, o)),
            places@ == attributes_of(record@, record_size as int, 8, 24),
            parents@ == places@.take(i as int).filter_map(f).to_set(),
            forall|i: int| 0 <= i < places@.len() ==> #[trigger] places@[i] + 8 <= record.len(),
        decreases places@.len() - i,
    {
        let ghost before = places@.take(i as int).filter_map(f);
        let ghost after = places@.take(i + 1).filter_map(f);
        proof {
            places@.lemma_filter_map_take_succ(f, i as int);
            if f(places@[i as int]) is None {
                assert(after =~= before);
            }
        }
        if let Some(p) = read_parent(record, places[i]) {
            parents.insert(p);
            proof {
                assert(after =~= before.push(p));
                assert forall|x: u64| #[trigger] after.to_set().contains(x) <==> before.to_set().insert(
                    p,
                ).contains(x) by {
                    if before.contains(x) {
                        let k = before.index_of(x);
                        assert(after[k] == x);
                    }
                    if after.contains(x) {
                        let k = after.index_of(x);
                        if k < before.len() {
                            assert(before[k] == x);
                        }
                    }
                    assert(after[before.len() as int] == p);
                }
                assert(after.to_set() =~= before.to_set().insert(p));
            }
        }
        i += 1;
    }
    assert(places@.take(i as int) =~= places@);
    parents.len() as u64
}

/// Whether the contents at `o` have a name, as those besides the file's own have.
pub open spec fn is_named_stream(s: Seq<u8>, o: usize) -> bool {
    bytes::u32_at(s, o as int) == ATTR_DATA && s[o + 9] > 0
}

/// How many named contents the file has.
pub fn count_ads(record: &[u8], record_size: usize) -> (r: u64)
    ensures
        r == attributes_of(record@, record_size as int, 12, 24).filter(
            |o: usize| is_named_stream(record@, o),
        ).len(),
{
    let places = list_attributes(record, record_size, 12, 24);
    let ghost named = |o: usize| is_named_stream(record@, o);
    let mut count: u64 = 0;
    let mut i: usize = 0;
    proof {
        reveal(Seq::filter);
        assert(places@.take(0) =~= seq![]);
    }
    while i < places.len()
        invariant
            i <= places.len(),
            named == (|o: usize| is_named_stream(record@, o)),
            count == places@.take(i as int).filter(named).len(),
            count <= i,
            forall|i: int| 0 <= i < places@.len() ==> #[trigger] places@[i] + 12 <= record.len(),
        decreases places@.len() - i,
    {
        proof {
            reveal(Seq::filter);
            let step = places@.take(i + 1);
            assert(step.drop_last() =~= places@.take(i as int));
            assert(step.last() == places@[i as int]);
        }
        let o: usize = places[i];
        if read_u32(record, o) == ATTR_DATA && record[o + 9] > 0 {
            count = count + 1;
        }
        i += 1;
    }
    assert(places@.take(i as int) =~= places@);
    count
}

} // verus!
