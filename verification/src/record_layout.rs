//! How a record of the file table is laid out, and that what is written so reads back: names,
//! directories, sizes, times and flags.

use crate::attributes;
use crate::attributes::{ATTR_FILE_NAME, ATTR_STANDARD_INFO};
use crate::bytes;
use crate::fixup;
use crate::little_endian;
use crate::little_endian::{holds, le, le_len, unit_bytes, unit_bytes_len};
use crate::mft_scan;
use crate::mft_scan::{Outcome, ScannedModel};
use crate::outside;
use crate::record_details;
use crate::seqs;
use vstd::prelude::*;

verus! {

/// What stands around the value of an attribute that holds its value itself.
#[verifier::ext_equal]
pub struct Frame {
    /// How many units the attribute's own name has.
    pub name_units: u8,
    /// The six bytes before the length of the value.
    pub middle: Seq<u8>,
    /// What stands before the value, and behind it.
    pub gap: Seq<u8>,
    pub tail: Seq<u8>,
}

/// The times and flags of a file. The times are when it was made, when its contents were
/// changed, when its record was changed, and when it was last read.
#[verifier::ext_equal]
pub struct Info {
    pub made: u64,
    pub changed: u64,
    pub record_changed: u64,
    pub read: u64,
    pub flags: u32,
    pub rest: Seq<u8>,
}

/// A name of a file, with the directory that it stands in.
#[verifier::ext_equal]
pub struct FileName {
    pub parent: u64,
    pub made: u64,
    pub changed: u64,
    pub record_changed: u64,
    pub read: u64,
    pub room: u64,
    pub size: u64,
    pub flags: u32,
    pub extra: u32,
    pub space: u8,
    pub name: Seq<u16>,
}

/// An attribute of a record.
#[verifier::ext_equal]
pub enum Attr {
    Info(Frame, Info),
    Name(Frame, FileName),
    /// Contents that stand in the record.
    Contents(Frame, Seq<u8>),
    /// Contents that stand elsewhere: the units of their name, the 38 bytes before their size,
    /// the size, and the bytes behind it.
    FarContents(u8, Seq<u8>, u64, Seq<u8>),
    /// One of another type.
    Other(Frame, u32, Seq<u8>),
}

impl Frame {
    /// The bytes of an attribute that holds `value`.
    pub open spec fn around(self, kind: u32, value: Seq<u8>) -> Seq<u8> {
        le(kind as nat, 4) + le(self.size(value), 4) + seq![0u8, self.name_units] + self.middle
            + le(value.len(), 4) + le(22 + self.gap.len(), 2) + self.gap + value + self.tail
    }

    /// How many bytes an attribute that holds `value` has.
    pub open spec fn size(self, value: Seq<u8>) -> nat {
        22 + self.gap.len() + value.len() + self.tail.len()
    }

    /// Whether the lengths can be written.
    pub open spec fn fits(self, value: Seq<u8>) -> bool {
        &&& self.middle.len() == 6
        &&& 22 + self.gap.len() <= u16::MAX
        &&& 24 <= self.size(value) <= u32::MAX
    }
}

impl Info {
    /// The bytes of the times and flags.
    pub open spec fn value(self) -> Seq<u8> {
        le(self.made as nat, 8) + le(self.changed as nat, 8) + le(self.record_changed as nat, 8)
            + le(self.read as nat, 8) + le(self.flags as nat, 4) + self.rest
    }
}

impl FileName {
    /// The bytes before the name.
    pub open spec fn before_name(self) -> Seq<u8> {
        le(self.parent as nat, 8) + le(self.made as nat, 8) + le(self.changed as nat, 8) + le(
            self.record_changed as nat,
            8,
        ) + le(self.read as nat, 8) + le(self.room as nat, 8) + le(self.size as nat, 8) + le(
            self.flags as nat,
            4,
        ) + le(self.extra as nat, 4) + seq![self.name.len() as u8, self.space]
    }

    /// The bytes of the name and what goes with it.
    pub open spec fn value(self) -> Seq<u8> {
        self.before_name() + unit_bytes(self.name)
    }

    /// The text of the name.
    pub open spec fn text(self) -> Seq<char> {
        outside::utf16_text(self.name)
    }

    /// The record of the directory that the name stands in: what the lowest 48 bits of the
    /// reference write.
    pub open spec fn parent_record(self) -> u64 {
        (self.parent as nat % 0x1_0000_0000_0000) as u64
    }
}

impl Attr {
    /// The bytes of the attribute.
    pub open spec fn encoded(self) -> Seq<u8> {
        match self {
            Attr::Info(f, i) => f.around(0x10, i.value()),
            Attr::Name(f, n) => f.around(0x30, n.value()),
            Attr::Contents(f, v) => f.around(0x80, v),
            Attr::FarContents(units, middle, size, rest) => le(0x80, 4) + le(
                56 + rest.len(),
                4,
            ) + seq![1u8, units] + middle + le(size as nat, 8) + rest,
            Attr::Other(f, kind, v) => f.around(kind, v),
        }
    }

    /// How many bytes the attribute has.
    pub open spec fn size(self) -> nat {
        match self {
            Attr::Info(f, i) => f.size(i.value()),
            Attr::Name(f, n) => f.size(n.value()),
            Attr::Contents(f, v) => f.size(v),
            Attr::FarContents(units, middle, size, rest) => 56 + rest.len(),
            Attr::Other(f, kind, v) => f.size(v),
        }
    }

    /// Whether the lengths can be written, and what has to be there is there.
    pub open spec fn fits(self) -> bool {
        match self {
            Attr::Info(f, i) => f.fits(i.value()) && i.rest.len() >= 4,
            Attr::Name(f, n) => f.fits(n.value()) && n.name.len() <= 255,
            Attr::Contents(f, v) => f.fits(v),
            Attr::FarContents(units, middle, size, rest) => middle.len() == 38 && 56 + rest.len()
                <= u32::MAX,
            Attr::Other(f, kind, v) => f.fits(v) && kind != 0x10 && kind != 0x30 && kind != 0x80
                && kind != 0xFFFF_FFFF,
        }
    }

    /// Whether the attribute names the file: it holds a name that is not empty, in a name space
    /// that names are in.
    pub open spec fn names(self) -> bool {
        self matches Attr::Name(_, n) && n.name.len() > 0 && n.text().len() > 0 && n.space < 0xFF
    }
}

/// A record of the file table.
#[verifier::ext_equal]
pub struct Record {
    /// The first twenty bytes.
    pub head: Seq<u8>,
    pub flags: u16,
    /// What stands before the attributes, and behind them.
    pub gap: Seq<u8>,
    pub attrs: Seq<Attr>,
    pub rest: Seq<u8>,
}

/// The bytes of attributes, one behind the other.
pub open spec fn attr_bytes(attrs: Seq<Attr>) -> Seq<u8>
    decreases attrs.len(),
{
    if attrs.len() == 0 {
        seq![]
    } else {
        attrs[0].encoded() + attr_bytes(attrs.drop_first())
    }
}

/// Where attributes begin, the first of them at `o`.
pub open spec fn places(attrs: Seq<Attr>, o: int) -> Seq<usize>
    decreases attrs.len(),
{
    if attrs.len() == 0 {
        seq![]
    } else {
        seq![o as usize] + places(attrs.drop_first(), o + attrs[0].size())
    }
}

impl Record {
    /// The bytes of the record.
    pub open spec fn encoded(self) -> Seq<u8> {
        self.head + le(24 + self.gap.len(), 2) + le(self.flags as nat, 2) + self.gap + attr_bytes(
            self.attrs,
        ) + le(0xFFFF_FFFF, 4) + self.rest
    }

    /// Whether the lengths can be written, and the record has no more bytes than records have.
    pub open spec fn fits(self, record_size: int) -> bool {
        &&& self.head.len() == 20
        &&& 24 + self.gap.len() <= u16::MAX
        &&& forall|i: int| 0 <= i < self.attrs.len() ==> (#[trigger] self.attrs[i]).fits()
        &&& self.encoded().len() <= record_size
        &&& self.encoded().len() <= usize::MAX
    }

    /// Whether attribute `i` has the best name: no name is in a lower name space, and no earlier
    /// one in the same.
    pub open spec fn is_best_name(self, i: int) -> bool {
        &&& 0 <= i < self.attrs.len()
        &&& self.attrs[i].names()
        &&& forall|j: int|
            0 <= j < self.attrs.len() && (#[trigger] self.attrs[j]).names() ==> {
                &&& self.attrs[i]->Name_1.space <= self.attrs[j]->Name_1.space
                &&& j < i ==> self.attrs[i]->Name_1.space < self.attrs[j]->Name_1.space
            }
    }
}

/// Whether attribute `i` is the first for which `p` holds.
pub open spec fn is_first(attrs: Seq<Attr>, i: int, p: spec_fn(Attr) -> bool) -> bool {
    &&& 0 <= i < attrs.len()
    &&& p(attrs[i])
    &&& forall|j: int| 0 <= j < i ==> !p(#[trigger] attrs[j])
}

/// Whether `p` holds of no attribute.
pub open spec fn is_none(attrs: Seq<Attr>, p: spec_fn(Attr) -> bool) -> bool {
    forall|j: int| 0 <= j < attrs.len() ==> !p(#[trigger] attrs[j])
}

/// What stands in an attribute that holds its value itself.
pub proof fn frame_stands(f: Frame, kind: u32, value: Seq<u8>)
    requires
        f.fits(value),
    ensures
        ({
            let e = f.around(kind, value);
            &&& e.len() == f.size(value)
            &&& holds(e, 0, le(kind as nat, 4))
            &&& holds(e, 4, le(f.size(value), 4))
            &&& e[8] == 0
            &&& e[9] == f.name_units
            &&& holds(e, 16, le(value.len(), 4))
            &&& holds(e, 20, le(22 + f.gap.len(), 2))
            &&& holds(e, 22 + f.gap.len() as int, value)
        }),
{
    broadcast use le_len;

    let e = f.around(kind, value);
    assert(e.subrange(0, 4) =~= le(kind as nat, 4));
    assert(e.subrange(4, 8) =~= le(f.size(value), 4));
    assert(e.subrange(16, 20) =~= le(value.len(), 4));
    assert(e.subrange(20, 22) =~= le(22 + f.gap.len(), 2));
    assert(e.subrange(22 + f.gap.len() as int, 22 + f.gap.len() as int + value.len()) =~= value);
}

/// An attribute that holds `value` and stands at `o` is found there.
pub proof fn frame_reads_back(s: Seq<u8>, o: int, f: Frame, kind: u32, value: Seq<u8>)
    requires
        f.fits(value),
        holds(s, o, f.around(kind, value)),
        s.len() <= usize::MAX,
    ensures
        bytes::u32_at(s, o) == kind,
        bytes::u32_at(s, o + 4) == f.size(value),
        o + f.size(value) <= s.len(),
        s[o + 8] == 0,
        s[o + 9] == f.name_units,
        bytes::u32_at(s, o + 16) == value.len(),
        attributes::value_at(s, kind, o as usize) == Some(o + 22 + f.gap.len()),
        holds(s, o + 22 + f.gap.len(), value),
{
    broadcast use le_len;

    let e = f.around(kind, value);
    frame_stands(f, kind, value);
    little_endian::inner_holds(s, o, e, 0, le(kind as nat, 4));
    little_endian::inner_holds(s, o, e, 4, le(f.size(value), 4));
    little_endian::inner_holds(s, o, e, 16, le(value.len(), 4));
    little_endian::inner_holds(s, o, e, 20, le(22 + f.gap.len(), 2));
    little_endian::inner_holds(s, o, e, 22 + f.gap.len() as int, value);
    little_endian::part_holds(s, o, e, 8);
    little_endian::part_holds(s, o, e, 9);
    little_endian::u32_reads_back(s, o, kind);
    little_endian::u32_reads_back(s, o + 4, f.size(value) as u32);
    little_endian::u32_reads_back(s, o + 16, value.len() as u32);
    little_endian::u16_reads_back(s, o + 20, (22 + f.gap.len()) as u16);
}

/// The times and flags that stand at `v` read back.
pub proof fn info_reads_back(s: Seq<u8>, v: int, i: Info)
    requires
        holds(s, v, i.value()),
        i.rest.len() >= 4,
    ensures
        v + 40 <= s.len(),
        bytes::u64_at(s, v) == i.made,
        bytes::u64_at(s, v + 8) == i.changed,
        bytes::u64_at(s, v + 24) == i.read,
        bytes::u32_at(s, v + 32) == i.flags,
{
    broadcast use le_len;

    let e = i.value();
    assert(e.subrange(0, 8) =~= le(i.made as nat, 8));
    assert(e.subrange(8, 16) =~= le(i.changed as nat, 8));
    assert(e.subrange(24, 32) =~= le(i.read as nat, 8));
    assert(e.subrange(32, 36) =~= le(i.flags as nat, 4));
    little_endian::inner_holds(s, v, e, 0, le(i.made as nat, 8));
    little_endian::inner_holds(s, v, e, 8, le(i.changed as nat, 8));
    little_endian::inner_holds(s, v, e, 24, le(i.read as nat, 8));
    little_endian::inner_holds(s, v, e, 32, le(i.flags as nat, 4));
    little_endian::u64_reads_back(s, v, i.made);
    little_endian::u64_reads_back(s, v + 8, i.changed);
    little_endian::u64_reads_back(s, v + 24, i.read);
    little_endian::u32_reads_back(s, v + 32, i.flags);
}

/// The name that stands at `v` reads back, with what goes with it.
pub proof fn name_reads_back(s: Seq<u8>, v: int, n: FileName)
    requires
        holds(s, v, n.value()),
        n.name.len() <= 255,
    ensures
        v + 66 + 2 * n.name.len() <= s.len(),
        bytes::u64_at(s, v) == n.parent,
        bytes::u64_at(s, v + 8) == n.made,
        bytes::u64_at(s, v + 16) == n.changed,
        bytes::u64_at(s, v + 32) == n.read,
        s[v + 64] == n.name.len(),
        s[v + 65] == n.space,
        record_details::units_at(s, v + 66, n.name.len()) == n.name,
{
    broadcast use {le_len, unit_bytes_len};

    let e = n.value();
    let b = n.before_name();
    assert(b.len() == 66);
    assert(b.subrange(0, 8) =~= le(n.parent as nat, 8));
    assert(b.subrange(8, 16) =~= le(n.made as nat, 8));
    assert(b.subrange(16, 24) =~= le(n.changed as nat, 8));
    assert(b.subrange(32, 40) =~= le(n.read as nat, 8));
    assert(b[64] == n.name.len() as u8 && b[65] == n.space);
    assert(e.subrange(0, 66) =~= b);
    assert(e.subrange(66, 66 + 2 * n.name.len() as int) =~= unit_bytes(n.name));
    little_endian::inner_holds(s, v, e, 0, b);
    little_endian::inner_holds(s, v, e, 66, unit_bytes(n.name));
    little_endian::inner_holds(s, v, b, 0, le(n.parent as nat, 8));
    little_endian::inner_holds(s, v, b, 8, le(n.made as nat, 8));
    little_endian::inner_holds(s, v, b, 16, le(n.changed as nat, 8));
    little_endian::inner_holds(s, v, b, 32, le(n.read as nat, 8));
    little_endian::part_holds(s, v, b, 64);
    little_endian::part_holds(s, v, b, 65);
    little_endian::u64_reads_back(s, v, n.parent);
    little_endian::u64_reads_back(s, v + 8, n.made);
    little_endian::u64_reads_back(s, v + 16, n.changed);
    little_endian::u64_reads_back(s, v + 32, n.read);
    little_endian::units_read_back(s, v + 66, n.name);
}

/// Contents that stand elsewhere, of which the attribute at `o` tells, read back.
pub proof fn far_reads_back(s: Seq<u8>, o: int, units: u8, middle: Seq<u8>, size: u64, rest: Seq<u8>)
    requires
        Attr::FarContents(units, middle, size, rest).fits(),
        holds(s, o, Attr::FarContents(units, middle, size, rest).encoded()),
    ensures
        Attr::FarContents(units, middle, size, rest).encoded().len() == 56 + rest.len(),
        bytes::u32_at(s, o) == 0x80,
        bytes::u32_at(s, o + 4) == 56 + rest.len(),
        o + 56 + rest.len() <= s.len(),
        s[o + 8] == 1,
        s[o + 9] == units,
        bytes::u64_at(s, o + 48) == size,
{
    broadcast use le_len;

    let e = Attr::FarContents(units, middle, size, rest).encoded();
    assert(e.subrange(0, 4) =~= le(0x80, 4));
    assert(e.subrange(4, 8) =~= le(56 + rest.len(), 4));
    assert(e.subrange(48, 56) =~= le(size as nat, 8));
    assert(e[8] == 1 && e[9] == units);
    little_endian::inner_holds(s, o, e, 0, le(0x80, 4));
    little_endian::inner_holds(s, o, e, 4, le(56 + rest.len(), 4));
    little_endian::inner_holds(s, o, e, 48, le(size as nat, 8));
    little_endian::part_holds(s, o, e, 8);
    little_endian::part_holds(s, o, e, 9);
    little_endian::u32_reads_back(s, o, 0x80);
    little_endian::u32_reads_back(s, o + 4, (56 + rest.len()) as u32);
    little_endian::u64_reads_back(s, o + 48, size);
}

/// What an attribute tells: of its name, directory, size, flags and times.
pub open spec fn name_told(a: Attr) -> Option<(u8, Seq<char>)> {
    match a {
        Attr::Name(_, n) => if n.name.len() > 0 && n.text().len() > 0 {
            Some((n.space, n.text()))
        } else {
            None
        },
        _ => None,
    }
}

pub open spec fn parent_told(a: Attr) -> Option<u64> {
    match a {
        Attr::Name(_, n) => Some(n.parent_record()),
        _ => None,
    }
}

pub open spec fn true_parent_told(a: Attr) -> Option<u64> {
    match a {
        Attr::Name(_, n) => if n.parent_record() != 0 {
            Some(n.parent_record())
        } else {
            None
        },
        _ => None,
    }
}

pub open spec fn size_told(a: Attr) -> Option<u64> {
    match a {
        Attr::Contents(_, v) => Some(v.len() as u64),
        Attr::FarContents(_, _, size, _) => Some(size),
        _ => None,
    }
}

pub open spec fn flags_told(a: Attr) -> Option<u32> {
    match a {
        Attr::Info(_, i) => Some(i.flags),
        _ => None,
    }
}

pub open spec fn info_time(a: Attr, field: int) -> Option<u64> {
    match a {
        Attr::Info(_, i) => Some(
            if field == 0 {
                i.made
            } else if field == 8 {
                i.changed
            } else {
                i.read
            },
        ),
        _ => None,
    }
}

pub open spec fn name_time(a: Attr, field: int) -> Option<u64> {
    match a {
        Attr::Name(_, n) => Some(
            if field == 8 {
                n.made
            } else if field == 16 {
                n.changed
            } else {
                n.read
            },
        ),
        _ => None,
    }
}

/// An attribute that stands at `o` reads back.
pub proof fn attr_reads_back(s: Seq<u8>, o: int, a: Attr)
    requires
        a.fits(),
        holds(s, o, a.encoded()),
        s.len() <= usize::MAX,
    ensures
        a.encoded().len() == a.size(),
        a.size() >= 24,
        o + a.size() <= s.len(),
        bytes::u32_at(s, o) != attributes::ATTR_END,
        bytes::u32_at(s, o + 4) == a.size(),
        record_details::name_at(s, o as usize) == name_told(a),
        attributes::parent_at(s, o as usize) == parent_told(a),
        attributes::true_parent_at(s, o as usize) == true_parent_told(a),
        attributes::size_at(s, o as usize) == size_told(a),
        attributes::flags_at(s, o as usize) == flags_told(a),
        forall|f: int|
            f == 0 || f == 8 || f == 24 ==> #[trigger] attributes::field_at(
                s,
                ATTR_STANDARD_INFO,
                f,
                o as usize,
            ) == info_time(a, f),
        forall|f: int|
            f == 8 || f == 16 || f == 32 ==> #[trigger] attributes::field_at(
                s,
                ATTR_FILE_NAME,
                f,
                o as usize,
            ) == name_time(a, f),
{
    match a {
        Attr::Info(f, i) => {
            frame_stands(f, 0x10, i.value());
            frame_reads_back(s, o, f, 0x10, i.value());
            info_reads_back(s, o + 22 + f.gap.len(), i);
        },
        Attr::Name(f, n) => {
            frame_stands(f, 0x30, n.value());
            frame_reads_back(s, o, f, 0x30, n.value());
            name_reads_back(s, o + 22 + f.gap.len(), n);
        },
        Attr::Contents(f, v) => {
            frame_stands(f, 0x80, v);
            frame_reads_back(s, o, f, 0x80, v);
        },
        Attr::FarContents(units, middle, size, rest) => {
            far_reads_back(s, o, units, middle, size, rest);
        },
        Attr::Other(f, kind, v) => {
            frame_stands(f, kind, v);
            frame_reads_back(s, o, f, kind, v);
        },
    }
}

/// Whether attributes stand in `s` from `o` on, and the end mark behind them.
pub open spec fn stand_from(s: Seq<u8>, o: int, attrs: Seq<Attr>) -> bool {
    &&& 0 <= o
    &&& holds(s, o, attr_bytes(attrs) + le(0xFFFF_FFFF, 4))
    &&& s.len() <= usize::MAX
    &&& forall|i: int| 0 <= i < attrs.len() ==> (#[trigger] attrs[i]).fits()
}

/// The first of some attributes stands at the beginning, and the others behind it.
pub proof fn stand_apart(s: Seq<u8>, o: int, attrs: Seq<Attr>)
    requires
        stand_from(s, o, attrs),
        attrs.len() > 0,
    ensures
        holds(s, o, attrs[0].encoded()),
        stand_from(s, o + attrs[0].encoded().len(), attrs.drop_first()),
{
    broadcast use le_len;

    let (e, rest) = (attrs[0].encoded(), attrs.drop_first());
    let end = le(0xFFFF_FFFF, 4);
    let all = attr_bytes(attrs) + end;
    little_endian::middle_holds(seq![], e, attr_bytes(rest) + end);
    assert(Seq::<u8>::empty() + e + (attr_bytes(rest) + end) =~= all);
    little_endian::middle_holds(e, attr_bytes(rest) + end, seq![]);
    assert(e + (attr_bytes(rest) + end) + Seq::<u8>::empty() =~= all);
    little_endian::inner_holds(s, o, all, 0, e);
    little_endian::inner_holds(s, o, all, e.len() as int, attr_bytes(rest) + end);
    assert forall|i: int| 0 <= i < rest.len() implies (#[trigger] rest[i]).fits() by {
        assert(rest[i] == attrs[i + 1]);
    }
}

/// The attributes of a record begin where they stand.
pub proof fn attributes_are_found(
    s: Seq<u8>,
    limit: int,
    head: int,
    least: int,
    o: int,
    attrs: Seq<Attr>,
)
    requires
        stand_from(s, o, attrs),
        limit == s.len(),
        0 <= head <= 64,
        head <= 24 || o + attr_bytes(attrs).len() + 64 <= s.len(),
        1 <= least <= 24,
    ensures
        attributes::attributes_from(s, limit, head, least, o) == places(attrs, o),
    decreases attrs.len(),
{
    broadcast use le_len;

    if attrs.len() == 0 {
        assert(attr_bytes(attrs) + le(0xFFFF_FFFF, 4) =~= le(0xFFFF_FFFF, 4));
        little_endian::u32_reads_back(s, o, 0xFFFF_FFFF);
        assert(attributes::attributes_from(s, limit, head, least, o) =~= places(attrs, o));
    } else {
        stand_apart(s, o, attrs);
        attr_reads_back(s, o, attrs[0]);
        attributes_are_found(s, limit, head, least, o + attrs[0].size(), attrs.drop_first());
    }
}

/// What is found in the attributes of a record is what they tell.
pub proof fn findings_are_told<B>(
    s: Seq<u8>,
    o: int,
    attrs: Seq<Attr>,
    f: spec_fn(usize) -> Option<B>,
    g: spec_fn(Attr) -> Option<B>,
)
    requires
        stand_from(s, o, attrs),
        forall|p: int, a: Attr|
            #![trigger holds(s, p, a.encoded()), f(p as usize)]
            #![trigger holds(s, p, a.encoded()), g(a)]
            a.fits() && holds(s, p, a.encoded()) ==> f(p as usize) == g(a),
    ensures
        places(attrs, o).filter_map(f) == attrs.filter_map(g),
    decreases attrs.len(),
{
    if attrs.len() == 0 {
        reveal(Seq::filter_map);
        assert(places(attrs, o).filter_map(f) =~= attrs.filter_map(g));
    } else {
        let rest = attrs.drop_first();
        stand_apart(s, o, attrs);
        attr_reads_back(s, o, attrs[0]);
        findings_are_told(s, o + attrs[0].size(), rest, f, g);
        seqs::filter_map_first(places(attrs, o), f);
        seqs::filter_map_first(attrs, g);
        assert(places(attrs, o).drop_first() =~= places(rest, o + attrs[0].size()));
        assert(f(o as usize) == g(attrs[0]));
    }
}

/// The first of what attributes tell is what the first that tells anything tells.
pub proof fn first_is_told<B>(attrs: Seq<Attr>, g: spec_fn(Attr) -> Option<B>)
    ensures
        forall|i: int, p: spec_fn(Attr) -> bool| #[trigger]
            is_first(attrs, i, p) && (forall|a: Attr| #[trigger] p(a) <==> g(a) is Some)
                ==> attributes::first_of(attrs.filter_map(g)) == g(attrs[i]),
        forall|p: spec_fn(Attr) -> bool| #[trigger]
            is_none(attrs, p) && (forall|a: Attr| #[trigger] p(a) <==> g(a) is Some)
                ==> attributes::first_of(attrs.filter_map(g)) is None,
    decreases attrs.len(),
{
    reveal(Seq::filter_map);
    if attrs.len() > 0 {
        let rest = attrs.drop_first();
        first_is_told(rest, g);
        seqs::filter_map_first(attrs, g);
        assert forall|i: int, p: spec_fn(Attr) -> bool| #[trigger]
            is_first(attrs, i, p) && (forall|a: Attr| #[trigger] p(a) <==> g(a) is Some) implies
            attributes::first_of(attrs.filter_map(g)) == g(attrs[i]) by {
            if i > 0 {
                assert(!p(attrs[0]));
                assert(is_first(rest, i - 1, p)) by {
                    assert forall|j: int| 0 <= j < i - 1 implies !p(#[trigger] rest[j]) by {
                        assert(rest[j] == attrs[j + 1]);
                    }
                }
            }
        }
        assert forall|p: spec_fn(Attr) -> bool| #[trigger]
            is_none(attrs, p) && (forall|a: Attr| #[trigger] p(a) <==> g(a) is Some) implies
            attributes::first_of(attrs.filter_map(g)) is None by {
            assert(!p(attrs[0]));
            assert(is_none(rest, p)) by {
                assert forall|j: int| 0 <= j < rest.len() implies !p(#[trigger] rest[j]) by {
                    assert(rest[j] == attrs[j + 1]);
                }
            }
        }
    }
}

/// Whether an attribute gives a directory that is not record 0.
pub open spec fn gives_parent(a: Attr) -> bool {
    a matches Attr::Name(_, n) && n.parent_record() != 0
}

/// Whether an attribute holds or stands for contents.
pub open spec fn has_contents(a: Attr) -> bool {
    a is Contents || a is FarContents
}

impl Record {
    /// Whether `time` is that which `of_info` takes from the first times and flags of the
    /// record, or, where there are none, `of_name` from the first name; none where there is
    /// neither.
    pub open spec fn gives_time(
        self,
        time: Option<u64>,
        of_info: spec_fn(Info) -> u64,
        of_name: spec_fn(FileName) -> u64,
    ) -> bool {
        let (info, name) = (|a: Attr| a is Info, |a: Attr| a is Name);
        &&& forall|i: int| #[trigger]
            is_first(self.attrs, i, info) ==> time == Some(of_info(self.attrs[i]->Info_1))
        &&& forall|i: int|
            is_none(self.attrs, info) && #[trigger] is_first(self.attrs, i, name) ==> time == Some(
                of_name(self.attrs[i]->Name_1),
            )
        &&& is_none(self.attrs, info) && is_none(self.attrs, name) ==> time is None
    }

    /// Whether `m` is what the record tells of its file.
    pub open spec fn tells(self, m: ScannedModel) -> bool {
        let attrs = self.attrs;
        let (parent, contents) = (|a: Attr| gives_parent(a), |a: Attr| has_contents(a));
        let info = |a: Attr| a is Info;
        &&& m.is_directory <==> (self.flags / 2) % 2 == 1
        &&& forall|i: int| #[trigger]
            self.is_best_name(i) && attrs[i]->Name_1.text() != "<no name>"@ ==> m.name
                == attrs[i]->Name_1.text()
        &&& forall|i: int| #[trigger]
            is_first(attrs, i, parent) ==> m.parent_record == attrs[i]->Name_1.parent_record()
        &&& is_none(attrs, parent) ==> m.parent_record == 0
        &&& forall|i: int| #[trigger]
            is_first(attrs, i, contents) ==> (match attrs[i] {
                Attr::Contents(_, v) => m.size == v.len(),
                Attr::FarContents(_, _, size, _) => m.size == size,
                _ => true,
            })
        &&& is_none(attrs, contents) ==> m.size == 0
        &&& forall|i: int| #[trigger]
            is_first(attrs, i, info) ==> m.attributes == attrs[i]->Info_1.flags
        &&& is_none(attrs, info) ==> m.attributes == 0
        &&& self.gives_time(m.mtime, |i: Info| i.changed, |n: FileName| n.changed)
        &&& self.gives_time(m.ctime, |i: Info| i.made, |n: FileName| n.made)
        &&& self.gives_time(m.atime, |i: Info| i.read, |n: FileName| n.read)
    }
}

/// The head of a record stands before its attributes.
pub proof fn head_stands(r: Record, record_size: int)
    requires
        r.fits(record_size),
    ensures
        ({
            let s = r.encoded();
            &&& s.len() >= 28
            &&& bytes::u16_at(s, 20) == 24 + r.gap.len()
            &&& bytes::u16_at(s, 22) == r.flags
            &&& stand_from(s, 24 + r.gap.len() as int, r.attrs)
            &&& attributes::limit_of(s, record_size) == s.len()
            &&& 24 + r.gap.len() + attr_bytes(r.attrs).len() + 4 + r.rest.len() == s.len()
        }),
{
    broadcast use le_len;

    let s = r.encoded();
    let end = le(0xFFFF_FFFF, 4);
    let body = attr_bytes(r.attrs) + end;
    let at = 24 + r.gap.len() as int;
    assert(s.subrange(20, 22) =~= le(24 + r.gap.len(), 2));
    assert(s.subrange(22, 24) =~= le(r.flags as nat, 2));
    assert(s.subrange(at, at + body.len()) =~= body);
    little_endian::u16_reads_back(s, 20, (24 + r.gap.len()) as u16);
    little_endian::u16_reads_back(s, 22, r.flags);
}

/// What is found in the attributes of a record in its layout, and what is found first.
pub proof fn first_found<B>(
    r: Record,
    record_size: int,
    head: int,
    least: int,
    f: spec_fn(usize) -> Option<B>,
    g: spec_fn(Attr) -> Option<B>,
)
    requires
        r.fits(record_size),
        0 <= head <= 24,
        1 <= least <= 24,
        forall|p: int, a: Attr|
            #![trigger holds(r.encoded(), p, a.encoded()), f(p as usize)]
            #![trigger holds(r.encoded(), p, a.encoded()), g(a)]
            a.fits() && holds(r.encoded(), p, a.encoded()) ==> f(p as usize) == g(a),
    ensures
        ({
            let found = attributes::attributes_of(r.encoded(), record_size, head, least).filter_map(f);
            &&& found == r.attrs.filter_map(g)
            &&& forall|i: int, p: spec_fn(Attr) -> bool| #[trigger]
                is_first(r.attrs, i, p) && (forall|a: Attr| #[trigger] p(a) <==> g(a) is Some)
                    ==> attributes::first_of(found) == g(r.attrs[i])
            &&& forall|p: spec_fn(Attr) -> bool| #[trigger]
                is_none(r.attrs, p) && (forall|a: Attr| #[trigger] p(a) <==> g(a) is Some)
                    ==> attributes::first_of(found) is None
        }),
{
    let s = r.encoded();
    let at = 24 + r.gap.len() as int;
    head_stands(r, record_size);
    attributes_are_found(s, s.len() as int, head, least, at, r.attrs);
    findings_are_told(s, at, r.attrs, f, g);
    first_is_told(r.attrs, g);
}

/// The best name of a record in its layout is the one that is found.
proof fn best_is_found(r: Record, record_size: int, i: int)
    requires
        r.fits(record_size),
        r.is_best_name(i),
    ensures
        record_details::name_in(r.encoded(), record_size) == r.attrs[i]->Name_1.text(),
{
    let s = r.encoded();
    let (f, g) = (|o: usize| record_details::name_at(s, o), |a: Attr| name_told(a));
    assert forall|p: int, a: Attr|
        #![trigger holds(s, p, a.encoded()), f(p as usize)]
        #![trigger holds(s, p, a.encoded()), g(a)]
        a.fits() && holds(s, p, a.encoded()) implies f(p as usize) == g(a) by {
        attr_reads_back(s, p, a);
    }
    first_found(r, record_size, 8, 24, f, g);
    best_of_told(r.attrs, i);
}

/// The best name is the best of those that are told.
proof fn best_of_told(attrs: Seq<Attr>, i: int)
    requires
        0 <= i < attrs.len(),
        attrs[i].names(),
        forall|j: int|
            0 <= j < attrs.len() && (#[trigger] attrs[j]).names() ==> {
                &&& attrs[i]->Name_1.space <= attrs[j]->Name_1.space
                &&& j < i ==> attrs[i]->Name_1.space < attrs[j]->Name_1.space
            },
    ensures
        record_details::best_name(attrs.filter_map(|a: Attr| name_told(a))) == (
            attrs[i]->Name_1.space,
            attrs[i]->Name_1.text(),
        ),
    decreases attrs.len(),
{
    let g = |a: Attr| name_told(a);
    let (init, n) = (attrs.drop_last(), attrs.len() - 1);
    assert(init.push(attrs.last()) =~= attrs);
    seqs::filter_map_push(init, attrs.last(), g);
    let before = init.filter_map(g);
    if g(attrs.last()) is Some {
        assert(before.push(g(attrs.last())->0).drop_last() =~= before);
    }
    if i < n {
        assert forall|j: int| 0 <= j < init.len() && (#[trigger] init[j]).names() implies {
            &&& init[i]->Name_1.space <= init[j]->Name_1.space
            &&& j < i ==> init[i]->Name_1.space < init[j]->Name_1.space
        } by {
            assert(init[j] == attrs[j]);
        }
        best_of_told(init, i);
        if g(attrs.last()) is Some && attrs.last()->Name_1.space < 0xFF {
            assert(attrs[n].names());
        }
    } else {
        record_details::best_name_is_lowest(before);
        let best = record_details::best_name(before);
        if best.0 < 0xFF {
            assert(before.contains(best));
            init.lemma_filter_map_contains(g, best);
            let a = choose|a: Attr| #[trigger] init.contains(a) && g(a) == Some(best);
            let k = choose|k: int| 0 <= k < init.len() && init[k] == a;
            assert(attrs[k] == a);
            assert(attrs[k].names());
        }
    }
}

/// A time of a record in its layout is found where it stands.
proof fn time_is_found(
    r: Record,
    record_size: int,
    info_field: int,
    name_field: int,
    of_info: spec_fn(Info) -> u64,
    of_name: spec_fn(FileName) -> u64,
)
    requires
        r.fits(record_size),
        info_field == 0 || info_field == 8 || info_field == 24,
        name_field == 8 || name_field == 16 || name_field == 32,
        forall|a: Attr|
            a is Info ==> #[trigger] info_time(a, info_field) == Some(of_info(a->Info_1)),
        forall|a: Attr|
            a is Name ==> #[trigger] name_time(a, name_field) == Some(of_name(a->Name_1)),
    ensures
        r.gives_time(
            attributes::either(
                attributes::time_in(r.encoded(), record_size, ATTR_STANDARD_INFO, info_field),
                attributes::time_in(r.encoded(), record_size, ATTR_FILE_NAME, name_field),
            ),
            of_info,
            of_name,
        ),
{
    let s = r.encoded();
    let f1 = |o: usize| attributes::field_at(s, ATTR_STANDARD_INFO, info_field, o);
    let f2 = |o: usize| attributes::field_at(s, ATTR_FILE_NAME, name_field, o);
    let g1 = |a: Attr| info_time(a, info_field);
    let g2 = |a: Attr| name_time(a, name_field);
    assert forall|p: int, a: Attr|
        #![trigger holds(s, p, a.encoded()), f1(p as usize)]
        #![trigger holds(s, p, a.encoded()), g1(a)]
        a.fits() && holds(s, p, a.encoded()) implies f1(p as usize) == g1(a) by {
        attr_reads_back(s, p, a);
    }
    assert forall|p: int, a: Attr|
        #![trigger holds(s, p, a.encoded()), f2(p as usize)]
        #![trigger holds(s, p, a.encoded()), g2(a)]
        a.fits() && holds(s, p, a.encoded()) implies f2(p as usize) == g2(a) by {
        attr_reads_back(s, p, a);
    }
    first_found(r, record_size, 8, 1, f1, g1);
    first_found(r, record_size, 8, 1, f2, g2);
    let (info, name) = (|a: Attr| a is Info, |a: Attr| a is Name);
    assert forall|a: Attr| #[trigger] info(a) <==> g1(a) is Some by {}
    assert forall|a: Attr| #[trigger] name(a) <==> g2(a) is Some by {}
    assert forall|i: int| #[trigger] is_first(r.attrs, i, info) implies g1(r.attrs[i]) == Some(
        of_info(r.attrs[i]->Info_1),
    ) by {
        let a = r.attrs[i];
        assert(info(a));
    }
    assert forall|i: int| #[trigger] is_first(r.attrs, i, name) implies g2(r.attrs[i]) == Some(
        of_name(r.attrs[i]->Name_1),
    ) by {
        let a = r.attrs[i];
        assert(name(a));
    }
}

/// What a record tells in its layout reads back: the best of its names, the directory of the
/// first name that gives one, the size of the first contents, the flags and the times of the
/// first that holds them, and whether it is a directory.
pub proof fn record_reads_back(r: Record, record_size: int, number: u64)
    requires
        r.fits(record_size),
    ensures
        r.tells(mft_scan::scanned(r.encoded(), record_size, number)),
        mft_scan::scanned(r.encoded(), record_size, number).record_number == number,
{
    let s = r.encoded();
    let m = mft_scan::scanned(s, record_size, number);
    let attrs = r.attrs;
    head_stands(r, record_size);
    let flags = r.flags;
    assert(flags & 0x02 != 0 <==> (flags / 2) % 2 == 1) by (bit_vector);
    assert forall|i: int| #[trigger]
        r.is_best_name(i) && attrs[i]->Name_1.text() != "<no name>"@ implies m.name
        == attrs[i]->Name_1.text() by {
        best_is_found(r, record_size, i);
    }
    let (f1, g1) = (|o: usize| attributes::true_parent_at(s, o), |a: Attr| true_parent_told(a));
    let (f2, g2) = (|o: usize| attributes::size_at(s, o), |a: Attr| size_told(a));
    let (f3, g3) = (|o: usize| attributes::flags_at(s, o), |a: Attr| flags_told(a));
    assert forall|p: int, a: Attr| #[trigger] holds(s, p, a.encoded()) && a.fits() implies f1(
        p as usize,
    ) == g1(a) && f2(p as usize) == g2(a) && f3(p as usize) == g3(a) by {
        attr_reads_back(s, p, a);
    }
    first_found(r, record_size, 8, 24, f1, g1);
    first_found(r, record_size, 8, 1, f2, g2);
    first_found(r, record_size, 8, 1, f3, g3);
    let (parent, contents) = (|a: Attr| gives_parent(a), |a: Attr| has_contents(a));
    let info = |a: Attr| a is Info;
    assert forall|a: Attr| #[trigger] parent(a) <==> g1(a) is Some by {}
    assert forall|a: Attr| #[trigger] contents(a) <==> g2(a) is Some by {}
    assert forall|a: Attr| #[trigger] info(a) <==> g3(a) is Some by {}
    assert forall|i: int| #[trigger] is_first(attrs, i, contents) implies (match attrs[i] {
        Attr::Contents(_, v) => m.size == v.len(),
        Attr::FarContents(_, _, size, _) => m.size == size,
        _ => true,
    }) by {
        assert(attrs[i].fits());
    }
    assert forall|i: int| #[trigger] is_first(attrs, i, parent) implies m.parent_record
        == attrs[i]->Name_1.parent_record() by {
        assert(parent(attrs[i]));
    }
    assert forall|i: int| #[trigger] is_first(attrs, i, info) implies m.attributes
        == attrs[i]->Info_1.flags by {
        assert(info(attrs[i]));
    }
    time_is_found(r, record_size, 8, 16, |i: Info| i.changed, |n: FileName| n.changed);
    time_is_found(r, record_size, 0, 8, |i: Info| i.made, |n: FileName| n.made);
    time_is_found(r, record_size, 24, 32, |i: Info| i.read, |n: FileName| n.read);
}

/// Whether a record begins with the letters that records begin with.
pub open spec fn begins_with_file(s: Seq<u8>) -> bool {
    s.len() >= 24 && s[0] == 'F' as u8 && s[1] == 'I' as u8 && s[2] == 'L' as u8 && s[3]
        == 'E' as u8
}

/// What comes of the bytes of a record on the disk, whose sectors are protected: where the
/// record begins as records do and is in use, what it tells of its file; where it is not in
/// use, nothing.
pub proof fn stored_record_reads_back(
    s: Seq<u8>,
    r: Record,
    usn_offset: int,
    usn: (u8, u8),
    count: int,
    record_size: u64,
    number: u64,
)
    requires
        count >= 1,
        r.fits(record_size as int),
        fixup::is_protected(s, r.encoded(), usn_offset, usn, count),
        record_size == count * 512,
    ensures
        begins_with_file(r.encoded()) && r.flags % 2 == 1 ==> {
            &&& mft_scan::outcome(s, record_size, number) matches Outcome::File(m)
            &&& r.tells(m)
            &&& m.record_number == number
        },
        begins_with_file(r.encoded()) && r.flags % 2 == 0 ==> mft_scan::outcome(
            s,
            record_size,
            number,
        ) is Inactive,
        !begins_with_file(r.encoded()) ==> mft_scan::outcome(s, record_size, number) is NoSignature,
{
    fixup::fixup_restores(s, r.encoded(), usn_offset, usn, count, number, record_size);
    head_stands(r, record_size as int);
    record_reads_back(r, record_size as int, number);
    let flags = r.flags;
    assert(flags & 0x01 == 0 <==> flags % 2 == 0) by (bit_vector);
    assert(s[0] == r.encoded()[0] && s[1] == r.encoded()[1] && s[2] == r.encoded()[2] && s[3]
        == r.encoded()[3]);
}

} // verus!
