//! More of what a record in its layout tells reads back: its links, its named contents, its times
//! from both places, and the records that go with it.

use crate::attributes;
use crate::fixup;
use crate::little_endian;
use crate::little_endian::{holds, le, le_len};
use crate::mft_scan;
use crate::mft_scan::ProgressModel;
use crate::record_details;
use crate::record_layout;
use crate::record_layout::{is_first, is_none, stand_from, Attr, FileName, Info, Record};
use crate::seqs;
use crate::text;
use vstd::prelude::*;

verus! {

/// The directories that hold a file are those of its names, each counted once.
pub proof fn links_are_directories(r: Record, record_size: int, parent: u64)
    requires
        r.fits(record_size),
    ensures
        attributes::parents_in(r.encoded(), record_size).to_set().contains(parent) <==> exists|
            i: int,
        |
            0 <= i < r.attrs.len() && (#[trigger] r.attrs[i]) is Name
                && r.attrs[i]->Name_1.parent_record() == parent,
{
    let s = r.encoded();
    let (f, g) = (
        |o: usize| attributes::parent_at(s, o),
        |a: Attr| record_layout::parent_told(a),
    );
    record_layout::head_stands(r, record_size);
    assert forall|p: int, a: Attr|
        #![trigger holds(s, p, a.encoded()), f(p as usize)]
        #![trigger holds(s, p, a.encoded()), g(a)]
        a.fits() && holds(s, p, a.encoded()) implies f(p as usize) == g(a) by {
        record_layout::attr_reads_back(s, p, a);
    }
    record_layout::first_found(r, record_size, 8, 24, f, g);
    let found = attributes::parents_in(s, record_size);
    assert(found == r.attrs.filter_map(g));
    if found.contains(parent) {
        r.attrs.lemma_filter_map_contains(g, parent);
        let a = choose|a: Attr| #[trigger] r.attrs.contains(a) && g(a) == Some(parent);
        let i = choose|i: int| 0 <= i < r.attrs.len() && r.attrs[i] == a;
        assert(r.attrs[i] is Name);
    }
    if exists|i: int|
        0 <= i < r.attrs.len() && (#[trigger] r.attrs[i]) is Name
            && r.attrs[i]->Name_1.parent_record() == parent {
        let i = choose|i: int|
            0 <= i < r.attrs.len() && (#[trigger] r.attrs[i]) is Name
                && r.attrs[i]->Name_1.parent_record() == parent;
        seqs::filter_map_has(r.attrs, g, i);
    }
}

/// Whether an attribute is for contents with a name of their own.
pub open spec fn is_named(a: Attr) -> bool {
    match a {
        Attr::Contents(f, _) => f.name_units > 0,
        Attr::FarContents(units, _, _, _) => units > 0,
        _ => false,
    }
}

/// How many attributes are for contents with names of their own.
pub open spec fn count_named(attrs: Seq<Attr>) -> nat
    decreases attrs.len(),
{
    if attrs.len() == 0 {
        0
    } else {
        count_named(attrs.drop_first()) + (if is_named(attrs[0]) {
            1nat
        } else {
            0nat
        })
    }
}

/// As many named contents are counted as a record has.
pub proof fn named_contents_are_counted(r: Record, record_size: int)
    requires
        r.fits(record_size),
    ensures
        attributes::attributes_of(r.encoded(), record_size, 12, 24).filter(
            |o: usize| attributes::is_named_stream(r.encoded(), o),
        ).len() == count_named(r.attrs),
{
    let s = r.encoded();
    let at = 24 + r.gap.len() as int;
    record_layout::head_stands(r, record_size);
    record_layout::attributes_are_found(s, s.len() as int, 12, 24, at, r.attrs);
    named_are_found(s, at, r.attrs);
}

proof fn named_are_found(s: Seq<u8>, o: int, attrs: Seq<Attr>)
    requires
        stand_from(s, o, attrs),
    ensures
        record_layout::places(attrs, o).filter(
            |p: usize| attributes::is_named_stream(s, p),
        ).len() == count_named(attrs),
    decreases attrs.len(),
{
    let f = |p: usize| attributes::is_named_stream(s, p);
    let all = record_layout::places(attrs, o);
    reveal(Seq::filter);
    if attrs.len() > 0 {
        let rest = attrs.drop_first();
        record_layout::stand_apart(s, o, attrs);
        record_layout::attr_reads_back(s, o, attrs[0]);
        named_are_found(s, o + attrs[0].size(), rest);
        assert(f(o as usize) == is_named(attrs[0])) by {
            match attrs[0] {
                Attr::Info(fr, v) => {
                    record_layout::frame_reads_back(s, o, fr, 0x10, v.value());
                },
                Attr::Name(fr, v) => {
                    record_layout::frame_reads_back(s, o, fr, 0x30, v.value());
                },
                Attr::Contents(fr, v) => {
                    record_layout::frame_reads_back(s, o, fr, 0x80, v);
                },
                Attr::FarContents(units, middle, size, more) => {
                    record_layout::far_reads_back(s, o, units, middle, size, more);
                },
                Attr::Other(fr, kind, v) => {
                    record_layout::frame_reads_back(s, o, fr, kind, v);
                },
            }
        }
        let others = record_layout::places(rest, o + attrs[0].size());
        assert(all =~= seq![o as usize] + others);
        filter_first(o as usize, others, f);
    }
}

proof fn filter_first(x: usize, s: Seq<usize>, f: spec_fn(usize) -> bool)
    ensures
        (seq![x] + s).filter(f).len() == s.filter(f).len() + (if f(x) {
            1int
        } else {
            0int
        }),
    decreases s.len(),
{
    reveal(Seq::filter);
    let all = seq![x] + s;
    if s.len() == 0 {
        assert(all.drop_last() =~= seq![]);
        assert(all.last() == x);
        assert(all.drop_last().filter(f).len() == 0);
        assert(s.filter(f).len() == 0);
    } else {
        filter_first(x, s.drop_last(), f);
        assert(all.drop_last() =~= seq![x] + s.drop_last());
        assert(all.last() == s.last());
    }
}

/// What an attribute tells of times: when the file was made, changed and last read.
pub open spec fn info_times(a: Attr) -> Option<(u64, u64, u64)> {
    match a {
        Attr::Info(_, i) => Some((i.made, i.changed, i.read)),
        _ => None,
    }
}

pub open spec fn name_times(a: Attr) -> Option<(u64, u64, u64)> {
    match a {
        Attr::Name(_, n) => Some((n.made, n.changed, n.read)),
        _ => None,
    }
}

/// Both times of a file are those that its record holds: those of the last times and flags, and
/// those of the first name.
pub proof fn both_times_read_back(r: Record, i: int, j: int)
    requires
        r.fits(r.encoded().len() as int),
        0 <= i < r.attrs.len(),
        r.attrs[i] is Info,
        forall|k: int| i < k < r.attrs.len() ==> !((#[trigger] r.attrs[k]) is Info),
        is_first(r.attrs, j, |a: Attr| a is Name),
    ensures
        ({
            let s = r.encoded();
            let t = record_details::comparison(
                record_details::times_in(s).0,
                record_details::times_in(s).1,
            );
            let (info, name) = (r.attrs[i]->Info_1, r.attrs[j]->Name_1);
            &&& t.si_ctime == Some(info.made)
            &&& t.si_mtime == Some(info.changed)
            &&& t.si_atime == Some(info.read)
            &&& t.fn_ctime == Some(name.made)
            &&& t.fn_mtime == Some(name.changed)
            &&& t.fn_atime == Some(name.read)
        }),
{
    let s = r.encoded();
    let n = s.len() as int;
    let (f1, g1) = (|o: usize| record_details::si_times_at(s, o), |a: Attr| info_times(a));
    let (f2, g2) = (|o: usize| record_details::fn_times_at(s, o), |a: Attr| name_times(a));
    record_layout::head_stands(r, n);
    assert forall|p: int, a: Attr| #[trigger] holds(s, p, a.encoded()) && a.fits() implies f1(
        p as usize,
    ) == g1(a) && f2(p as usize) == g2(a) by {
        record_layout::attr_reads_back(s, p, a);
        match a {
            Attr::Info(fr, v) => {
                record_layout::frame_reads_back(s, p, fr, 0x10, v.value());
                record_layout::info_reads_back(s, p + 22 + fr.gap.len(), v);
            },
            Attr::Name(fr, v) => {
                record_layout::frame_reads_back(s, p, fr, 0x30, v.value());
                record_layout::name_reads_back(s, p + 22 + fr.gap.len(), v);
            },
            Attr::Contents(fr, v) => {
                record_layout::frame_reads_back(s, p, fr, 0x80, v);
            },
            Attr::FarContents(units, middle, size, more) => {
                record_layout::far_reads_back(s, p, units, middle, size, more);
            },
            Attr::Other(fr, kind, v) => {
                record_layout::frame_reads_back(s, p, fr, kind, v);
            },
        }
    }
    record_layout::first_found(r, n, 8, 1, f1, g1);
    record_layout::first_found(r, n, 8, 1, f2, g2);
    let name = |a: Attr| a is Name;
    assert forall|a: Attr| #[trigger] name(a) <==> g2(a) is Some by {}
    assert(name(r.attrs[j]));
    last_is_told(r.attrs, g1, i);
}

/// The last of what attributes tell is what the last that tells anything tells.
proof fn last_is_told<B>(attrs: Seq<Attr>, g: spec_fn(Attr) -> Option<B>, i: int)
    requires
        0 <= i < attrs.len(),
        g(attrs[i]) is Some,
        forall|k: int| i < k < attrs.len() ==> g(#[trigger] attrs[k]) is None,
    ensures
        record_details::last_of(attrs.filter_map(g)) == g(attrs[i]),
    decreases attrs.len(),
{
    reveal(Seq::filter_map);
    let init = attrs.drop_last();
    if i < attrs.len() - 1 {
        assert(g(attrs[attrs.len() - 1]) is None);
        assert forall|k: int| i < k < init.len() implies g(#[trigger] init[k]) is None by {
            assert(init[k] == attrs[k]);
        }
        last_is_told(init, g, i);
    }
}

/// An entry of a list of attributes: the type of an attribute, the ten bytes behind the length of
/// the entry, the reference of the record that the attribute stands in, and the rest.
pub struct ListEntry {
    pub kind: u32,
    pub middle: Seq<u8>,
    pub reference: u64,
    pub rest: Seq<u8>,
}

impl ListEntry {
    /// How many bytes the entry has.
    pub open spec fn size(self) -> nat {
        24 + self.rest.len()
    }

    /// The bytes of the entry.
    pub open spec fn encoded(self) -> Seq<u8> {
        le(self.kind as nat, 4) + le(self.size(), 2) + self.middle + le(self.reference as nat, 8)
            + self.rest
    }

    /// Whether the lengths can be written.
    pub open spec fn fits(self) -> bool {
        self.middle.len() == 10 && self.size() <= u16::MAX && self.kind != 0xFFFF_FFFF
    }
}

/// The bytes of entries, one behind the other.
pub open spec fn encoded_list(entries: Seq<ListEntry>) -> Seq<u8>
    decreases entries.len(),
{
    if entries.len() == 0 {
        seq![]
    } else {
        entries[0].encoded() + encoded_list(entries.drop_first())
    }
}

/// A list of attributes reads back: for each entry the type of the attribute, and the number of its
/// record, which the lowest 48 bits of the reference write.
pub proof fn list_reads_back(s: Seq<u8>, at: int, entries: Seq<ListEntry>)
    requires
        holds(s, at, encoded_list(entries)),
        forall|i: int| 0 <= i < entries.len() ==> (#[trigger] entries[i]).fits(),
    ensures
        record_details::entries_from(s, at, at + encoded_list(entries).len()) == entries.map_values(
            |e: ListEntry| (e.kind, (e.reference as nat % 0x1_0000_0000_0000) as u64),
        ),
    decreases entries.len(),
{
    broadcast use le_len;

    let told = entries.map_values(
        |e: ListEntry| (e.kind, (e.reference as nat % 0x1_0000_0000_0000) as u64),
    );
    let all = encoded_list(entries);
    let end = at + all.len();
    if entries.len() == 0 {
        assert(record_details::entries_from(s, at, end) =~= told);
    } else {
        let (e, rest) = (entries[0], entries.drop_first());
        let b = e.encoded();
        assert(e.fits());
        assert(b.len() == e.size());
        assert(b.subrange(0, 4) =~= le(e.kind as nat, 4));
        assert(b.subrange(4, 6) =~= le(e.size(), 2));
        assert(b.subrange(16, 24) =~= le(e.reference as nat, 8));
        little_endian::middle_holds(seq![], b, encoded_list(rest));
        assert(Seq::<u8>::empty() + b + encoded_list(rest) =~= all);
        little_endian::middle_holds(b, encoded_list(rest), seq![]);
        assert(b + encoded_list(rest) + Seq::<u8>::empty() =~= all);
        little_endian::inner_holds(s, at, all, 0, b);
        little_endian::inner_holds(s, at, all, b.len() as int, encoded_list(rest));
        little_endian::inner_holds(s, at, b, 0, le(e.kind as nat, 4));
        little_endian::inner_holds(s, at, b, 4, le(e.size(), 2));
        little_endian::inner_holds(s, at, b, 16, le(e.reference as nat, 8));
        little_endian::u32_reads_back(s, at, e.kind);
        little_endian::u16_reads_back(s, at + 4, e.size() as u16);
        little_endian::u64_reads_back(s, at + 16, e.reference);
        assert forall|i: int| 0 <= i < rest.len() implies (#[trigger] rest[i]).fits() by {
            assert(rest[i] == entries[i + 1]);
        }
        list_reads_back(s, at + b.len(), rest);
        assert(record_details::entries_from(s, at, end) =~= told);
    }
}

/// The list of attributes of a record in its layout is found: that of its first attribute of the
/// type of such lists.
pub proof fn record_list_is_found(r: Record, record_size: int, i: int, entries: Seq<ListEntry>)
    requires
        r.fits(record_size),
        is_first(r.attrs, i, |a: Attr| a matches Attr::Other(_, kind, _) && kind == 0x20),
        r.attrs[i]->Other_2 == encoded_list(entries),
        forall|k: int| 0 <= k < entries.len() ==> (#[trigger] entries[k]).fits(),
    ensures
        record_details::list_in(r.encoded(), record_size) == entries.map_values(
            |e: ListEntry| (e.kind, (e.reference as nat % 0x1_0000_0000_0000) as u64),
        ),
{
    let s = r.encoded();
    let at = 24 + r.gap.len() as int;
    record_layout::head_stands(r, record_size);
    record_layout::attributes_are_found(s, s.len() as int, 8, 1, at, r.attrs);
    first_list_found(s, at, r.attrs, i, entries);
}

proof fn first_list_found(s: Seq<u8>, o: int, attrs: Seq<Attr>, i: int, entries: Seq<ListEntry>)
    requires
        stand_from(s, o, attrs),
        is_first(attrs, i, |a: Attr| a matches Attr::Other(_, kind, _) && kind == 0x20),
        attrs[i]->Other_2 == encoded_list(entries),
        forall|k: int| 0 <= k < entries.len() ==> (#[trigger] entries[k]).fits(),
    ensures
        attributes::first_of(
            record_layout::places(attrs, o).filter_map(|p: usize| record_details::list_at(s, p)),
        ) == Some(
            entries.map_values(
                |e: ListEntry| (e.kind, (e.reference as nat % 0x1_0000_0000_0000) as u64),
            ),
        ),
    decreases attrs.len(),
{
    let f = |p: usize| record_details::list_at(s, p);
    let is_list = |a: Attr| a matches Attr::Other(_, kind, _) && kind == 0x20;
    let rest = attrs.drop_first();
    record_layout::stand_apart(s, o, attrs);
    record_layout::attr_reads_back(s, o, attrs[0]);
    seqs::filter_map_first(record_layout::places(attrs, o), f);
    assert(record_layout::places(attrs, o).drop_first() =~= record_layout::places(
        rest,
        o + attrs[0].size(),
    ));
    if i == 0 {
        assert(is_list(attrs[0]));
        match attrs[0] {
            Attr::Other(fr, kind, v) => {
                record_layout::frame_reads_back(s, o, fr, kind, v);
                list_reads_back(s, o + 22 + fr.gap.len(), entries);
            },
            _ => {},
        }
    } else {
        assert(!is_list(attrs[0]));
        assert(f(o as usize) is None) by {
            match attrs[0] {
                Attr::Info(fr, v) => {
                    record_layout::frame_reads_back(s, o, fr, 0x10, v.value());
                },
                Attr::Name(fr, v) => {
                    record_layout::frame_reads_back(s, o, fr, 0x30, v.value());
                },
                Attr::Contents(fr, v) => {
                    record_layout::frame_reads_back(s, o, fr, 0x80, v);
                },
                Attr::FarContents(units, middle, size, more) => {
                    record_layout::far_reads_back(s, o, units, middle, size, more);
                },
                Attr::Other(fr, kind, v) => {
                    record_layout::frame_reads_back(s, o, fr, kind, v);
                },
            }
        }
        assert(is_first(rest, i - 1, is_list)) by {
            assert forall|j: int| 0 <= j < i - 1 implies !is_list(#[trigger] rest[j]) by {
                assert(rest[j] == attrs[j + 1]);
            }
        }
        first_list_found(s, o + attrs[0].size(), rest, i - 1, entries);
    }
}

/// The records without repetitions are the records, each once, in the order in which they first
/// come.
pub proof fn distinct_are_all_once(s: Seq<u64>)
    ensures
        record_details::distinct(s).no_duplicates(),
        forall|x: u64| #[trigger] record_details::distinct(s).contains(x) <==> s.contains(x),
    decreases s.len(),
{
    if s.len() > 0 {
        let (init, last) = (s.drop_last(), s.last());
        let (d, before) = (record_details::distinct(s), record_details::distinct(init));
        distinct_are_all_once(init);
        assert(s =~= init.push(last));
        assert forall|x: u64| #[trigger] d.contains(x) <==> s.contains(x) by {
            if s.contains(x) {
                let k = choose|k: int| 0 <= k < s.len() && s[k] == x;
                if k < init.len() {
                    assert(init[k] == x);
                    assert(before.contains(x));
                    let j = choose|j: int| 0 <= j < before.len() && before[j] == x;
                    assert(d[j] == x);
                } else if init.contains(last) {
                    assert(before.contains(x));
                } else {
                    assert(d[before.len() as int] == x);
                }
            }
            if d.contains(x) {
                let j = choose|j: int| 0 <= j < d.len() && d[j] == x;
                if j < before.len() {
                    assert(before[j] == x);
                    assert(before.contains(x));
                    let k = choose|k: int| 0 <= k < init.len() && init[k] == x;
                    assert(s[k] == x);
                } else {
                    assert(s[s.len() - 1] == x);
                }
            }
        }
        if !init.contains(last) {
            assert(!before.contains(last));
            assert forall|i: int, j: int| 0 <= i < d.len() && 0 <= j < d.len() && i != j implies d[i]
                != d[j] by {
                if i < before.len() && j < before.len() {
                    assert(before[i] != before[j]);
                } else if i < before.len() {
                    assert(before.contains(before[i]));
                } else {
                    assert(before.contains(before[j]));
                }
            }
        }
    }
}

/// Each flag that is set shows as its letter, and none that is not.
pub proof fn flags_show_as_letters(attrs: u32)
    ensures
        ({
            let shown = record_details::flag_letters(attrs);
            &&& shown.contains('R') <==> attrs % 2 == 1
            &&& shown.contains('H') <==> (attrs / 0x2) % 2 == 1
            &&& shown.contains('S') <==> (attrs / 0x4) % 2 == 1
            &&& shown.contains('A') <==> (attrs / 0x20) % 2 == 1
            &&& shown.contains('N') <==> (attrs / 0x80) % 2 == 1
            &&& shown.contains('T') <==> (attrs / 0x100) % 2 == 1
            &&& shown.contains('P') <==> (attrs / 0x200) % 2 == 1
            &&& shown.contains('L') <==> (attrs / 0x400) % 2 == 1
            &&& shown.contains('C') <==> (attrs / 0x800) % 2 == 1
            &&& shown.contains('E') <==> (attrs / 0x4000) % 2 == 1
        }),
{
    let a = attrs;
    assert((a & 0x01 != 0 <==> a % 2 == 1) && (a & 0x02 != 0 <==> (a / 0x2) % 2 == 1) && (a & 0x04
        != 0 <==> (a / 0x4) % 2 == 1) && (a & 0x20 != 0 <==> (a / 0x20) % 2 == 1) && (a & 0x80 != 0
        <==> (a / 0x80) % 2 == 1) && (a & 0x100 != 0 <==> (a / 0x100) % 2 == 1) && (a & 0x200 != 0
        <==> (a / 0x200) % 2 == 1) && (a & 0x400 != 0 <==> (a / 0x400) % 2 == 1) && (a & 0x800 != 0
        <==> (a / 0x800) % 2 == 1) && (a & 0x4000 != 0 <==> (a / 0x4000) % 2 == 1)) by (bit_vector);
    letters_are(attrs, 'R');
    letters_are(attrs, 'H');
    letters_are(attrs, 'S');
    letters_are(attrs, 'A');
    letters_are(attrs, 'N');
    letters_are(attrs, 'T');
    letters_are(attrs, 'P');
    letters_are(attrs, 'L');
    letters_are(attrs, 'C');
    letters_are(attrs, 'E');
}

proof fn letters_are(a: u32, c: char)
    ensures
        record_details::flag_letters(a).contains(c) <==> {
            ||| a & 0x01 != 0 && c == 'R'
            ||| a & 0x02 != 0 && c == 'H'
            ||| a & 0x04 != 0 && c == 'S'
            ||| a & 0x20 != 0 && c == 'A'
            ||| a & 0x80 != 0 && c == 'N'
            ||| a & 0x100 != 0 && c == 'T'
            ||| a & 0x200 != 0 && c == 'P'
            ||| a & 0x400 != 0 && c == 'L'
            ||| a & 0x800 != 0 && c == 'C'
            ||| a & 0x4000 != 0 && c == 'E'
        },
{
    let s1 = record_details::flag_letter(a, 0x01, 'R');
    let s2 = s1 + record_details::flag_letter(a, 0x02, 'H');
    let s3 = s2 + record_details::flag_letter(a, 0x04, 'S');
    let s4 = s3 + record_details::flag_letter(a, 0x20, 'A');
    let s5 = s4 + record_details::flag_letter(a, 0x80, 'N');
    let s6 = s5 + record_details::flag_letter(a, 0x100, 'T');
    let s7 = s6 + record_details::flag_letter(a, 0x200, 'P');
    let s8 = s7 + record_details::flag_letter(a, 0x400, 'L');
    let s9 = s8 + record_details::flag_letter(a, 0x800, 'C');
    let s10 = s9 + record_details::flag_letter(a, 0x4000, 'E');
    one_letter(a, 0x01, 'R', c);
    letter_adds(s1, a, 0x02, 'H', c);
    letter_adds(s2, a, 0x04, 'S', c);
    letter_adds(s3, a, 0x20, 'A', c);
    letter_adds(s4, a, 0x80, 'N', c);
    letter_adds(s5, a, 0x100, 'T', c);
    letter_adds(s6, a, 0x200, 'P', c);
    letter_adds(s7, a, 0x400, 'L', c);
    letter_adds(s8, a, 0x800, 'C', c);
    letter_adds(s9, a, 0x4000, 'E', c);
    assert(s10 == record_details::flag_letters(a));
}

proof fn one_letter(attrs: u32, flag: u32, letter: char, c: char)
    ensures
        record_details::flag_letter(attrs, flag, letter).contains(c) <==> attrs & flag != 0 && c
            == letter,
{
    let s = record_details::flag_letter(attrs, flag, letter);
    if attrs & flag != 0 {
        assert(s[0] == letter);
    }
}

proof fn letter_adds(s: Seq<char>, attrs: u32, flag: u32, letter: char, c: char)
    ensures
        (s + record_details::flag_letter(attrs, flag, letter)).contains(c) <==> s.contains(c) || (
        attrs & flag != 0 && c == letter),
{
    let t = record_details::flag_letter(attrs, flag, letter);
    one_letter(attrs, flag, letter, c);
    if s.contains(c) {
        let k = choose|k: int| 0 <= k < s.len() && s[k] == c;
        assert((s + t)[k] == c);
    }
    if t.contains(c) {
        let k = choose|k: int| 0 <= k < t.len() && t[k] == c;
        assert((s + t)[s.len() + k] == c);
    }
    if (s + t).contains(c) {
        let k = choose|k: int| 0 <= k < (s + t).len() && (s + t)[k] == c;
        if k < s.len() {
            assert(s[k] == c);
        } else {
            assert(t[k - s.len()] == c);
        }
    }
}

/// The records that hold contents of a file elsewhere are those of the entries whose type is that of
/// contents.
pub proof fn contents_stand_in_records(entries: Seq<(u32, u64)>, n: u64)
    ensures
        record_details::data_records(entries).contains(n) <==> entries.contains((0x80u32, n)),
{
    let f = |e: (u32, u64)|
        if e.0 == attributes::ATTR_DATA {
            Some(e.1)
        } else {
            None
        };
    let found = record_details::data_records(entries);
    assert(found == entries.filter_map(f));
    if found.contains(n) {
        entries.lemma_filter_map_contains(f, n);
        let e = choose|e: (u32, u64)| #[trigger] entries.contains(e) && f(e) == Some(n);
        assert(e == (0x80u32, n));
    }
    if entries.contains((0x80u32, n)) {
        let i = choose|i: int| 0 <= i < entries.len() && entries[i] == (0x80u32, n);
        seqs::filter_map_has(entries, f, i);
    }
}

proof fn own_size_found(r: Record, record_size: int, i: int)
    requires
        r.fits(record_size),
    ensures
        is_first(r.attrs, i, |a: Attr| record_layout::has_contents(a)) ==> mft_scan::own_size(
            r.encoded(),
            record_size,
        ) == record_layout::size_told(r.attrs[i]),
        is_none(r.attrs, |a: Attr| record_layout::has_contents(a)) ==> mft_scan::own_size(
            r.encoded(),
            record_size,
        ) is None,
{
    let s = r.encoded();
    let (f, g) = (
        |o: usize| attributes::size_at(s, o),
        |a: Attr| record_layout::size_told(a),
    );
    let contents = |a: Attr| record_layout::has_contents(a);
    record_layout::head_stands(r, record_size);
    assert forall|p: int, a: Attr| #[trigger] holds(s, p, a.encoded()) && a.fits() implies f(
        p as usize,
    ) == g(a) by {
        record_layout::attr_reads_back(s, p, a);
    }
    record_layout::first_found(r, record_size, 8, 1, f, g);
    assert forall|a: Attr| #[trigger] contents(a) <==> g(a) is Some by {}
}

/// A record has the size of its first contents: as many bytes as it holds itself, or as many as it
/// says that stand elsewhere. One without contents has none of its own.
pub proof fn own_size_reads_back(r: Record, record_size: int, i: int)
    requires
        r.fits(record_size),
    ensures
        is_first(r.attrs, i, |a: Attr| record_layout::has_contents(a)) ==> (match r.attrs[i] {
            Attr::Contents(_, v) => mft_scan::own_size(r.encoded(), record_size) == Some(
                v.len() as u64,
            ),
            Attr::FarContents(_, _, size, _) => mft_scan::own_size(r.encoded(), record_size) == Some(
                size,
            ),
            _ => false,
        }),
        is_none(r.attrs, |a: Attr| record_layout::has_contents(a)) ==> mft_scan::own_size(
            r.encoded(),
            record_size,
        ) is None,
{
    own_size_found(r, record_size, i);
    let contents = |a: Attr| record_layout::has_contents(a);
    if is_first(r.attrs, i, contents) {
        assert(contents(r.attrs[i]));
    }
}

/// Another record of a file gives the size of its first contents, where it is not 0.
pub proof fn other_record_gives_size(
    s: Seq<u8>,
    r: Record,
    usn_offset: int,
    usn: (u8, u8),
    count: int,
    number: u64,
    i: int,
)
    requires
        1 <= count <= 0x8000,
        r.fits(count * 512),
        fixup::is_protected(s, r.encoded(), usn_offset, usn, count),
        is_first(r.attrs, i, |a: Attr| record_layout::has_contents(a)),
    ensures
        mft_scan::size_given(s, number, (count * 512) as u64) == (match r.attrs[i] {
            Attr::Contents(_, v) => if v.len() > 0 {
                Some(v.len() as u64)
            } else {
                None
            },
            Attr::FarContents(_, _, size, _) => if size > 0 {
                Some(size)
            } else {
                None
            },
            _ => None,
        }),
{
    fixup::fixup_restores(s, r.encoded(), usn_offset, usn, count, number, (count * 512) as u64);
    own_size_found(r, r.encoded().len() as int, i);
    record_layout::head_stands(r, count * 512);
    let contents = |a: Attr| record_layout::has_contents(a);
    assert(contents(r.attrs[i]));
    assert(is_first(r.attrs, i, contents));
    assert(r.attrs[i].fits());
}

/// A file without a name is shown by the number of its record, or by the name that every volume has
/// for the number: there is one for each below 12, and each begins with a dollar sign.
pub proof fn nameless_record_shows_number(r: Record, record_size: int, number: u64)
    requires
        r.fits(record_size),
        is_none(r.attrs, |a: Attr| a is Name),
    ensures
        ({
            let name = mft_scan::scanned(r.encoded(), record_size, number).name;
            &&& number >= 12 ==> name == "<Record#"@ + text::decimal(number as nat) + ">"@
            &&& number < 12 ==> name.len() > 0 && name[0] == '$'
        }),
{
    reveal_strlit("$MFT");
    reveal_strlit("$MFTMirr");
    reveal_strlit("$LogFile");
    reveal_strlit("$Volume");
    reveal_strlit("$AttrDef");
    reveal_strlit("$");
    reveal_strlit("$Bitmap");
    reveal_strlit("$Boot");
    reveal_strlit("$BadClus");
    reveal_strlit("$Secure");
    reveal_strlit("$UpCase");
    reveal_strlit("$Extend");
    let s = r.encoded();
    let (f, g) = (
        |o: usize| record_details::name_at(s, o),
        |a: Attr| record_layout::name_told(a),
    );
    let is_name = |a: Attr| a is Name;
    record_layout::head_stands(r, record_size);
    assert forall|p: int, a: Attr|
        #![trigger holds(s, p, a.encoded()), f(p as usize)]
        #![trigger holds(s, p, a.encoded()), g(a)]
        a.fits() && holds(s, p, a.encoded()) implies f(p as usize) == g(a) by {
        record_layout::attr_reads_back(s, p, a);
    }
    record_layout::first_found(r, record_size, 8, 24, f, g);
    let names = r.attrs.filter_map(g);
    if names.len() > 0 {
        assert(names.contains(names[0]));
        r.attrs.lemma_filter_map_contains(g, names[0]);
        let a = choose|a: Attr| #[trigger] r.attrs.contains(a) && g(a) == Some(names[0]);
        let i = choose|i: int| 0 <= i < r.attrs.len() && r.attrs[i] == a;
        assert(!is_name(r.attrs[i]));
    }
    assert(names =~= seq![]);
}

/// A record on the disk is counted once, by what it is: one that does not begin as records do, one
/// that is not in use, a directory or a file. Of the last two, the named contents are
/// counted too.
pub proof fn stored_record_is_counted(
    p: ProgressModel,
    s: Seq<u8>,
    r: Record,
    usn_offset: int,
    usn: (u8, u8),
    count: int,
    record_size: u64,
)
    requires
        count >= 1,
        r.fits(record_size as int),
        fixup::is_protected(s, r.encoded(), usn_offset, usn, count),
        record_size == count * 512,
        p.stats.total_records < u64::MAX,
        p.stats.files < u64::MAX,
        p.stats.dirs < u64::MAX,
        p.stats.skip_no_signature < u64::MAX,
        p.stats.skip_inactive < u64::MAX,
        p.stats.total_ads + count_named(r.attrs) <= u64::MAX,
    ensures
        ({
            let (old, new) = (p.stats, p.after_read(s, record_size).stats);
            let begins = record_layout::begins_with_file(r.encoded());
            let used = begins && r.flags % 2 == 1;
            let is_directory = (r.flags / 2) % 2 == 1;
            &&& new.total_records == old.total_records + 1
            &&& new.skip_no_signature == old.skip_no_signature + (if begins {
                0int
            } else {
                1
            })
            &&& new.skip_inactive == old.skip_inactive + (if begins && !used {
                1int
            } else {
                0
            })
            &&& new.skip_fixup_fail == old.skip_fixup_fail
            &&& new.dirs == old.dirs + (if used && is_directory {
                1int
            } else {
                0
            })
            &&& new.files == old.files + (if used && !is_directory {
                1int
            } else {
                0
            })
            &&& new.total_ads == old.total_ads + (if used {
                count_named(r.attrs)
            } else {
                0
            })
            &&& p.after_read(s, record_size).errors == 0
            &&& p.after_read(s, record_size).left == p.left - 1
        }),
{
    let number = p.stats.total_records;
    record_layout::stored_record_reads_back(s, r, usn_offset, usn, count, record_size, number);
    fixup::fixup_restores(s, r.encoded(), usn_offset, usn, count, number, record_size);
    named_contents_are_counted(r, record_size as int);
}

/// A record on the disk that is in use is counted as one without times where it has neither times
/// and flags nor a name, and is not where attribute `k` is the first of its times and flags.
pub proof fn missing_times_are_counted(
    p: ProgressModel,
    s: Seq<u8>,
    r: Record,
    usn_offset: int,
    usn: (u8, u8),
    count: int,
    record_size: u64,
    k: int,
)
    requires
        count >= 1,
        r.fits(record_size as int),
        fixup::is_protected(s, r.encoded(), usn_offset, usn, count),
        record_size == count * 512,
        p.stats.no_timestamp < u64::MAX,
        record_layout::begins_with_file(r.encoded()),
        r.flags % 2 == 1,
    ensures
        is_none(r.attrs, |a: Attr| a is Info) && is_none(r.attrs, |a: Attr| a is Name)
            ==> p.after_read(s, record_size).stats.no_timestamp == p.stats.no_timestamp + 1,
        is_first(r.attrs, k, |a: Attr| a is Info) ==> p.after_read(s, record_size).stats.no_timestamp
            == p.stats.no_timestamp,
{
    let number = p.stats.total_records;
    record_layout::stored_record_reads_back(s, r, usn_offset, usn, count, record_size, number);
    let m = mft_scan::outcome(s, record_size, number)->File_0;
    let (info, name) = (|a: Attr| a is Info, |a: Attr| a is Name);
    assert(r.tells(m));
    assert(r.gives_time(m.mtime, |i: Info| i.changed, |n: FileName| n.changed));
    assert(r.gives_time(m.ctime, |i: Info| i.made, |n: FileName| n.made));
    assert(r.gives_time(m.atime, |i: Info| i.read, |n: FileName| n.read));
    if is_first(r.attrs, k, info) {
        assert(m.mtime is Some);
    }
    let after = mft_scan::counted(p.stats, s, record_size);
    assert(after.no_timestamp == (if m.mtime is None && m.ctime is None && m.atime is None {
        mft_scan::sum(p.stats.no_timestamp, 1)
    } else {
        p.stats.no_timestamp
    }));
}

} // verus!
