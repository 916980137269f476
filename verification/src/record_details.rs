//! More of what a record of the file table tells: the name of its file, the records that
//! go with it, and its times from both places that keep them.

use crate::attributes;
use crate::attributes::{find_value, list_attributes, record_in, ATTR_ATTRIBUTE_LIST, ATTR_DATA, ATTR_END, ATTR_FILE_NAME, ATTR_STANDARD_INFO};
use crate::bytes;
use crate::bytes::{read_u16, read_u32, read_u64};
use crate::outside;
use crate::outside::from_utf16_lossy;
use crate::seqs;
use std::collections::HashSet;
use vstd::prelude::*;

verus! {

broadcast use {
    vstd::string::group_string_axioms,
    vstd::std_specs::hash::group_hash_axioms,
};

/// The `n` UTF-16 units at `at`.
pub open spec fn units_at(s: Seq<u8>, at: int, n: nat) -> Seq<u16> {
    Seq::new(n, |i: int| bytes::u16_at(s, at + 2 * i))
}

/// The `n` UTF-16 units at `at`.
pub fn read_units(data: &[u8], at: usize, n: usize) -> (r: Vec<u16>)
    requires
        at + 2 * n <= data.len(),
    ensures
        r@ == units_at(data@, at as int, n as nat),
{
    let mut r: Vec<u16> = Vec::new();
    let mut i: usize = 0;
    while i < n
        invariant
            i <= n,
            at + 2 * n <= data.len(),
            r@ =~= units_at(data@, at as int, i as nat),
        decreases n - i,
    {
        r.push(read_u16(data, at + 2 * i));
        i += 1;
    }
    r
}

/// The name that the attribute at `o` holds, with the number of its name space.
pub open spec fn name_at(s: Seq<u8>, o: usize) -> Option<(u8, Seq<char>)> {
    match attributes::value_at(s, ATTR_FILE_NAME, o) {
        Some(v) => {
            let n = s[v + 64] as nat;
            let name = outside::utf16_text(units_at(s, v + 66, n));
            if v + 66 <= s.len() && v + 66 + 2 * n <= s.len() && n > 0 && name.len() > 0 {
                Some((s[v + 65], name))
            } else {
                None
            }
        },
        None => None,
    }
}

/// The first of the names of the lowest name space; none of the last name space, which
/// no name is in.
pub open spec fn best_name(names: Seq<(u8, Seq<char>)>) -> (u8, Seq<char>)
    decreases names.len(),
{
    if names.len() == 0 {
        (0xFF, seq![])
    } else {
        let best = best_name(names.drop_last());
        if names.last().0 < best.0 {
            names.last()
        } else {
            best
        }
    }
}

/// The name of the file; `<no name>` where no attribute holds one.
pub open spec fn name_in(s: Seq<u8>, record_size: int) -> Seq<char> {
    let best = best_name(
        attributes::attributes_of(s, record_size, 8, 24).filter_map(|o: usize| name_at(s, o)),
    ).1;
    if best.len() == 0 {
        "<no name>"@
    } else {
        best
    }
}

/// Whether an attribute of the record holds the name, and it stands in name space `space`.
pub open spec fn holds_name(s: Seq<u8>, record_size: int, space: u8, name: Seq<char>) -> bool {
    let all = attributes::attributes_of(s, record_size, 8, 24);
    exists|i: int| 0 <= i < all.len() && name_at(s, #[trigger] all[i]) == Some((space, name))
}

/// Whether an attribute of the record holds the name in a name space no higher than `space`.
pub open spec fn is_named_up_to(s: Seq<u8>, record_size: int, space: u8, name: Seq<char>) -> bool {
    exists|best: u8| best <= space && #[trigger] holds_name(s, record_size, best, name)
}

/// The best of some names is one of them, no name is in a lower name space, and no earlier one
/// in the same.
pub proof fn best_name_is_lowest(names: Seq<(u8, Seq<char>)>)
    ensures
        ({
            let best = best_name(names);
            &&& best.0 == 0xFF ==> best.1 == Seq::<char>::empty() && forall|j: int|
                0 <= j < names.len() ==> (#[trigger] names[j]).0 == 0xFF
            &&& best.0 < 0xFF ==> exists|i: int|
                0 <= i < names.len() && #[trigger] names[i] == best && forall|j: int|
                    0 <= j < names.len() ==> best.0 <= (#[trigger] names[j]).0 && (j < i ==> best.0
                        < names[j].0)
        }),
    decreases names.len(),
{
    if names.len() > 0 {
        let init = names.drop_last();
        let (old_best, best) = (best_name(init), best_name(names));
        let n = names.len() - 1;
        best_name_is_lowest(init);
        assert forall|j: int| 0 <= j < n implies #[trigger] names[j] == init[j] by {}
        if names.last().0 < old_best.0 {
            if old_best.0 < 0xFF {
                let i = choose|i: int|
                    0 <= i < init.len() && #[trigger] init[i] == old_best && forall|j: int|
                        0 <= j < init.len() ==> old_best.0 <= (#[trigger] init[j]).0 && (j < i
                            ==> old_best.0 < init[j].0);
            }
            assert(names[n] == best);
            assert forall|j: int| 0 <= j < names.len() implies best.0 <= (#[trigger] names[j]).0
                && (j < n ==> best.0 < names[j].0) by {
                if j < n {
                    assert(names[j] == init[j]);
                }
            }
        } else if best.0 < 0xFF {
            let i = choose|i: int|
                0 <= i < init.len() && #[trigger] init[i] == old_best && forall|j: int|
                    0 <= j < init.len() ==> old_best.0 <= (#[trigger] init[j]).0 && (j < i
                        ==> old_best.0 < init[j].0);
            assert(names[i] == best);
            assert forall|j: int| 0 <= j < names.len() implies best.0 <= (#[trigger] names[j]).0
                && (j < i ==> best.0 < names[j].0) by {
                if j < n {
                    assert(names[j] == init[j]);
                }
            }
        } else {
            assert forall|j: int| 0 <= j < names.len() implies (#[trigger] names[j]).0 == 0xFF by {
                if j < n {
                    assert(names[j] == init[j]);
                }
            }
        }
    }
}

/// The name of a file is one of those that its record holds, and none that the record holds is in
/// a lower name space, so that a long name wins over the short one that goes with it; of name
/// space 0xFF there are none.
pub proof fn name_is_of_lowest_space(
    s: Seq<u8>,
    record_size: int,
    space: u8,
    name: Seq<char>,
)
    requires
        holds_name(s, record_size, space, name),
        space < 0xFF,
    ensures
        is_named_up_to(s, record_size, space, name_in(s, record_size)),
{
    let all = attributes::attributes_of(s, record_size, 8, 24);
    let f = |o: usize| name_at(s, o);
    let names = all.filter_map(f);
    let i = choose|i: int|
        0 <= i < all.len() && name_at(s, #[trigger] all[i]) == Some((space, name));
    assert(f(all[i]) == Some((space, name)));
    seqs::filter_map_has(all, f, i);
    let k = choose|k: int| 0 <= k < names.len() && names[k] == (space, name);
    best_name_is_lowest(names);
    let best = best_name(names);
    assert(names[k].0 == space);
    assert(names.contains(best));
    all.lemma_filter_map_contains(f, best);
    let o = choose|o: usize| #[trigger] all.contains(o) && f(o) == Some(best);
    let j = choose|j: int| 0 <= j < all.len() && all[j] == o;
    assert(name_at(s, all[j]) == Some(best));
    assert(holds_name(s, record_size, best.0, best.1));
}

/// The name that the attribute at `o` holds, with the number of its name space.
fn read_name(record: &[u8], o: usize) -> (r: Option<(u8, String)>)
    requires
        o + 8 <= record.len(),
    ensures
        match name_at(record@, o) {
            Some(n) => r matches Some(m) && m.0 == n.0 && m.1@ == n.1,
            None => r is None,
        },
{
    if let Some(v) = find_value(record, ATTR_FILE_NAME, o) {
        if record.len() - v >= 66 {
            let n: usize = record[v + 64] as usize;
            let space: u8 = record[v + 65];
            if n > 0 && 2 * n <= record.len() - v - 66 {
                let units = read_units(record, v + 66, n);
                let name = from_utf16_lossy(&units);
                if !name.as_str().is_empty() {
                    return Some((space, name));
                }
            }
        }
    }
    None
}

/// The name of the file.
pub fn extract_name(record: &[u8], record_size: usize) -> (r: String)
    ensures
        r@ == name_in(record@, record_size as int),
        forall|space: u8, name: Seq<char>| #[trigger]
            holds_name(record@, record_size as int, space, name) && space < 0xFF ==> is_named_up_to(
                record@,
                record_size as int,
                space,
                r@,
            ),
{
    proof {
        assert forall|space: u8, name: Seq<char>| #[trigger]
            holds_name(record@, record_size as int, space, name) && space
            < 0xFF implies is_named_up_to(
            record@,
            record_size as int,
            space,
            name_in(record@, record_size as int),
        ) by {
            name_is_of_lowest_space(record@, record_size as int, space, name);
        }
    }
    let places = list_attributes(record, record_size, 8, 24);
    let ghost f = |o: usize| name_at(record@, o);
    let mut best = String::new();
    let mut best_space: u8 = 0xFF;
    let mut i: usize = 0;
    proof {
        assert(places@.take(0) =~= seq![]);
        reveal(Seq::filter_map);
        assert(best@ =~= seq![]);
    }
    while i < places.len()
        invariant
            i <= places@.len(),
            f == (|o: usize| name_at(record@, o)),
            (best_space, best@) == best_name(places@.take(i as int).filter_map(f)),
            forall|i: int| 0 <= i < places@.len() ==> #[trigger] places@[i] + 8 <= record.len(),
        decreases places@.len() - i,
    {
        let ghost before = places@.take(i as int).filter_map(f);
        let ghost after = places@.take(i + 1).filter_map(f);
        proof {
            places@.lemma_filter_map_take_succ(f, i as int);
            if f(places@[i as int]) is None {
                assert(after =~= before);
            } else {
                assert(after =~= before.push(f(places@[i as int])->0));
                assert(after.drop_last() =~= before);
            }
        }
        if let Some((space, name)) = read_name(record, places[i]) {
            if space < best_space {
                best_space = space;
                best = name;
            }
        }
        i += 1;
    }
    assert(places@.take(i as int) =~= places@);
    if best.as_str().is_empty() {
        "<no name>".to_string()
    } else {
        best
    }
}

/// The name of a record that every volume has.
pub open spec fn known_name(record_number: u64) -> Option<Seq<char>> {
    if record_number == 0 {
        Some("$MFT"@)
    } else if record_number == 1 {
        Some("$MFTMirr"@)
    } else if record_number == 2 {
        Some("$LogFile"@)
    } else if record_number == 3 {
        Some("$Volume"@)
    } else if record_number == 4 {
        Some("$AttrDef"@)
    } else if record_number == 5 {
        Some("$"@)
    } else if record_number == 6 {
        Some("$Bitmap"@)
    } else if record_number == 7 {
        Some("$Boot"@)
    } else if record_number == 8 {
        Some("$BadClus"@)
    } else if record_number == 9 {
        Some("$Secure"@)
    } else if record_number == 10 {
        Some("$UpCase"@)
    } else if record_number == 11 {
        Some("$Extend"@)
    } else {
        None
    }
}

/// The name of a record that every volume has.
pub fn well_known_name(record_number: u64) -> (r: Option<&'static str>)
    ensures
        match r {
            Some(name) => known_name(record_number) == Some(name@),
            None => known_name(record_number) is None,
        },
{
    match record_number {
        0 => Some("$MFT"),
        1 => Some("$MFTMirr"),
        2 => Some("$LogFile"),
        3 => Some("$Volume"),
        4 => Some("$AttrDef"),
        5 => Some("$"),
        6 => Some("$Bitmap"),
        7 => Some("$Boot"),
        8 => Some("$BadClus"),
        9 => Some("$Secure"),
        10 => Some("$UpCase"),
        11 => Some("$Extend"),
        _ => None,
    }
}

/// The letter of a flag that is set.
pub open spec fn flag_letter(attrs: u32, flag: u32, letter: char) -> Seq<char> {
    if attrs & flag != 0 {
        seq![letter]
    } else {
        seq![]
    }
}

/// The letters of the flags that are set.
pub open spec fn flag_letters(attrs: u32) -> Seq<char> {
    flag_letter(attrs, 0x01, 'R') + flag_letter(attrs, 0x02, 'H') + flag_letter(attrs, 0x04, 'S')
        + flag_letter(attrs, 0x20, 'A') + flag_letter(attrs, 0x80, 'N') + flag_letter(
        attrs,
        0x100,
        'T',
    ) + flag_letter(attrs, 0x200, 'P') + flag_letter(attrs, 0x400, 'L') + flag_letter(
        attrs,
        0x800,
        'C',
    ) + flag_letter(attrs, 0x4000, 'E')
}

/// Adds the letter of a flag that is set.
fn push_flag(r: &mut String, attrs: u32, flag: u32, letter: char)
    ensures
        final(r)@ == old(r)@ + flag_letter(attrs, flag, letter),
{
    if attrs & flag != 0 {
        r.push(letter);
    }
    assert(r@ =~= old(r)@ + flag_letter(attrs, flag, letter));
}

/// The letters of the flags that are set; `-` where none is.
pub fn format_attributes(attrs: u32) -> (r: String)
    ensures
        r@ == (if flag_letters(attrs).len() == 0 {
            "-"@
        } else {
            flag_letters(attrs)
        }),
{
    let mut r = String::new();
    push_flag(&mut r, attrs, 0x01, 'R');
    push_flag(&mut r, attrs, 0x02, 'H');
    push_flag(&mut r, attrs, 0x04, 'S');
    push_flag(&mut r, attrs, 0x20, 'A');
    push_flag(&mut r, attrs, 0x80, 'N');
    push_flag(&mut r, attrs, 0x100, 'T');
    push_flag(&mut r, attrs, 0x200, 'P');
    push_flag(&mut r, attrs, 0x400, 'L');
    push_flag(&mut r, attrs, 0x800, 'C');
    push_flag(&mut r, attrs, 0x4000, 'E');
    assert(r@ =~= flag_letters(attrs));
    if r.as_str().is_empty() {
        "-".to_string()
    } else {
        r
    }
}

/// The times of a file from both places that keep them.
#[derive(Clone, Copy, Debug, PartialEq, Eq, Structural)]
pub struct TimestampComparison {
    pub si_ctime: Option<u64>,
    pub si_mtime: Option<u64>,
    pub si_atime: Option<u64>,
    pub fn_ctime: Option<u64>,
    pub fn_mtime: Option<u64>,
    pub fn_atime: Option<u64>,
}

/// Three times in the value of the attribute at `o`, where it is of type `kind` and has
/// 40 bytes of value.
pub open spec fn times_at(s: Seq<u8>, kind: u32, made: int, changed: int, read: int, o: usize) -> Option<
    (u64, u64, u64),
> {
    match attributes::value_at(s, kind, o) {
        Some(v) => if v + 40 <= s.len() {
            Some(
                (
                    bytes::u64_at(s, v + made),
                    bytes::u64_at(s, v + changed),
                    bytes::u64_at(s, v + read),
                ),
            )
        } else {
            None
        },
        None => None,
    }
}

/// The times of the standard information at `o`.
pub open spec fn si_times_at(s: Seq<u8>, o: usize) -> Option<(u64, u64, u64)> {
    times_at(s, ATTR_STANDARD_INFO, 0, 8, 24, o)
}

/// The times of the name at `o`.
pub open spec fn fn_times_at(s: Seq<u8>, o: usize) -> Option<(u64, u64, u64)> {
    times_at(s, ATTR_FILE_NAME, 8, 16, 32, o)
}

/// The last of some findings.
pub open spec fn last_of<A>(s: Seq<A>) -> Option<A> {
    if s.len() > 0 {
        Some(s.last())
    } else {
        None
    }
}

/// The times of the last standard information and of the first name.
pub open spec fn times_in(s: Seq<u8>) -> (Option<(u64, u64, u64)>, Option<(u64, u64, u64)>) {
    let all = attributes::attributes_of(s, s.len() as int, 8, 1);
    (
        last_of(all.filter_map(|o: usize| si_times_at(s, o))),
        attributes::first_of(all.filter_map(|o: usize| fn_times_at(s, o))),
    )
}

/// The comparison of times.
pub open spec fn comparison(si: Option<(u64, u64, u64)>, name: Option<(u64, u64, u64)>) -> TimestampComparison {
    TimestampComparison {
        si_ctime: match si {
            Some(t) => Some(t.0),
            None => None,
        },
        si_mtime: match si {
            Some(t) => Some(t.1),
            None => None,
        },
        si_atime: match si {
            Some(t) => Some(t.2),
            None => None,
        },
        fn_ctime: match name {
            Some(t) => Some(t.0),
            None => None,
        },
        fn_mtime: match name {
            Some(t) => Some(t.1),
            None => None,
        },
        fn_atime: match name {
            Some(t) => Some(t.2),
            None => None,
        },
    }
}

/// Three times in the value of the attribute at `o`.
fn read_times(record: &[u8], kind: u32, made: usize, changed: usize, read: usize, o: usize) -> (r:
    Option<(u64, u64, u64)>)
    requires
        o + 8 <= record.len(),
        made <= 32,
        changed <= 32,
        read <= 32,
    ensures
        r == times_at(record@, kind, made as int, changed as int, read as int, o),
{
    match find_value(record, kind, o) {
        Some(v) => if record.len() - v >= 40 {
            Some(
                (
                    read_u64(record, v + made),
                    read_u64(record, v + changed),
                    read_u64(record, v + read),
                ),
            )
        } else {
            None
        },
        None => None,
    }
}

/// The times of a file from the standard information and from its name.
pub fn compare_timestamps(record: &[u8]) -> (r: TimestampComparison)
    ensures
        r == comparison(times_in(record@).0, times_in(record@).1),
{
    let places = list_attributes(record, record.len(), 8, 1);
    let ghost f = |o: usize| si_times_at(record@, o);
    let ghost g = |o: usize| fn_times_at(record@, o);
    let mut si: Option<(u64, u64, u64)> = None;
    let mut named: Option<(u64, u64, u64)> = None;
    let mut i: usize = 0;
    proof {
        assert(places@.take(0) =~= seq![]);
        reveal(Seq::filter_map);
    }
    while i < places.len()
        invariant
            i <= places@.len(),
            f == (|o: usize| si_times_at(record@, o)),
            g == (|o: usize| fn_times_at(record@, o)),
            si == last_of(places@.take(i as int).filter_map(f)),
            named == attributes::first_of(places@.take(i as int).filter_map(g)),
            forall|i: int| 0 <= i < places@.len() ==> #[trigger] places@[i] + 8 <= record.len(),
        decreases places@.len() - i,
    {
        proof {
            places@.lemma_filter_map_take_succ(f, i as int);
            places@.lemma_filter_map_take_succ(g, i as int);
        }
        let o: usize = places[i];
        let found = read_times(record, ATTR_STANDARD_INFO, 0, 8, 24, o);
        if found.is_some() {
            si = found;
        }
        if named.is_none() {
            named = read_times(record, ATTR_FILE_NAME, 8, 16, 32, o);
        }
        i += 1;
    }
    assert(places@.take(i as int) =~= places@);
    TimestampComparison {
        si_ctime: match si {
            Some(t) => Some(t.0),
            None => None,
        },
        si_mtime: match si {
            Some(t) => Some(t.1),
            None => None,
        },
        si_atime: match si {
            Some(t) => Some(t.2),
            None => None,
        },
        fn_ctime: match named {
            Some(t) => Some(t.0),
            None => None,
        },
        fn_mtime: match named {
            Some(t) => Some(t.1),
            None => None,
        },
        fn_atime: match named {
            Some(t) => Some(t.2),
            None => None,
        },
    }
}

/// The entries of a list of attributes between `pos` and `end`: each gives the type of an
/// attribute and the record that it stands in. The list ends where an entry does not fit.
pub open spec fn entries_from(s: Seq<u8>, pos: int, end: int) -> Seq<(u32, u64)>
    decreases end - pos,
{
    let len = bytes::u16_at(s, pos + 4) as int;
    if pos + 24 > end || bytes::u32_at(s, pos) == ATTR_END || len < 24 || pos + len > end {
        seq![]
    } else {
        seq![(bytes::u32_at(s, pos), attributes::record_of(bytes::u64_at(s, pos + 16)))]
            + entries_from(s, pos + len, end)
    }
}

/// Whether the attribute at `o` is a list of attributes that it holds itself.
pub open spec fn is_list_at(s: Seq<u8>, o: usize) -> bool {
    bytes::u32_at(s, o as int) == ATTR_ATTRIBUTE_LIST && o + 22 <= s.len() && s[o + 8] == 0
}

/// The entries of the list of attributes at `o`; none where the list does not lie in the
/// record.
pub open spec fn list_at(s: Seq<u8>, o: usize) -> Option<Seq<(u32, u64)>> {
    if is_list_at(s, o) {
        let start = o + bytes::u16_at(s, o + 20);
        let end = start + bytes::u32_at(s, o + 16);
        Some(
            if end <= s.len() {
                entries_from(s, start, end)
            } else {
                seq![]
            },
        )
    } else {
        None
    }
}

/// The entries of the record's first list of attributes.
pub open spec fn list_in(s: Seq<u8>, record_size: int) -> Seq<(u32, u64)> {
    match attributes::first_of(
        attributes::attributes_of(s, record_size, 8, 1).filter_map(|o: usize| list_at(s, o)),
    ) {
        Some(entries) => entries,
        None => seq![],
    }
}

/// The entries of a list of attributes between `start` and `end`.
fn read_entries(record: &[u8], start: usize, end: usize) -> (r: Vec<(u32, u64)>)
    requires
        start <= end <= record.len(),
    ensures
        r@ == entries_from(record@, start as int, end as int),
{
    let mut r: Vec<(u32, u64)> = Vec::new();
    let mut pos: usize = start;
    let ghost whole = entries_from(record@, start as int, end as int);
    assert(r@ + whole =~= whole);
    while end - pos >= 24
        invariant_except_break
            pos <= end <= record.len(),
            r@ + entries_from(record@, pos as int, end as int) == whole,
        ensures
            r@ == whole,
        decreases end - pos,
    {
        let ghost rest = entries_from(record@, pos as int, end as int);
        let kind: u32 = read_u32(record, pos);
        let len: usize = read_u16(record, pos + 4) as usize;
        if kind == ATTR_END || len < 24 || len > end - pos {
            assert(r@ + rest =~= r@);
            break ;
        }
        let number: u64 = record_in(read_u64(record, pos + 16));
        let ghost before = r@;
        r.push((kind, number));
        assert(before + rest =~= r@ + entries_from(record@, pos + len, end as int));
        pos = pos + len;
    }
    proof {
        if end - pos < 24 {
            assert(r@ + entries_from(record@, pos as int, end as int) =~= r@);
        }
    }
    r
}

/// The entries of the record's first list of attributes: the type of each attribute and
/// the record that it stands in.
pub fn extract_attribute_list(record: &[u8], record_size: usize) -> (r: Vec<(u32, u64)>)
    ensures
        r@ == list_in(record@, record_size as int),
{
    let places = list_attributes(record, record_size, 8, 1);
    let ghost f = |o: usize| list_at(record@, o);
    let mut i: usize = 0;
    assert(places@.skip(0) =~= places@);
    while i < places.len()
        invariant
            i <= places@.len(),
            f == (|o: usize| list_at(record@, o)),
            places@ == attributes::attributes_of(record@, record_size as int, 8, 1),
            places@.filter_map(f) == places@.skip(i as int).filter_map(f),
            forall|i: int| 0 <= i < places@.len() ==> #[trigger] places@[i] + 8 <= record.len(),
        decreases places@.len() - i,
    {
        let ghost rest = places@.skip(i as int);
        proof {
            seqs::filter_map_first(rest, f);
            assert(rest.drop_first() =~= places@.skip(i + 1));
        }
        let o: usize = places[i];
        if read_u32(record, o) == ATTR_ATTRIBUTE_LIST && record.len() - o >= 22 && record[o + 8]
            == 0 {
            let at: usize = read_u16(record, o + 20) as usize;
            let len: usize = read_u32(record, o + 16) as usize;
            if at <= record.len() - o && len <= record.len() - o - at {
                return read_entries(record, o + at, o + at + len);
            }
            return Vec::new();
        }
        i += 1;
    }
    proof {
        assert(places@.skip(i as int) =~= seq![]);
        reveal(Seq::filter_map);
    }
    Vec::new()
}

/// The numbers without repetitions, in the order in which they first come.
pub open spec fn distinct(s: Seq<u64>) -> Seq<u64>
    decreases s.len(),
{
    if s.len() == 0 {
        seq![]
    } else if s.drop_last().contains(s.last()) {
        distinct(s.drop_last())
    } else {
        distinct(s.drop_last()).push(s.last())
    }
}

/// The records of the entries for contents.
pub open spec fn data_records(entries: Seq<(u32, u64)>) -> Seq<u64> {
    entries.filter_map(
        |e: (u32, u64)|
            if e.0 == ATTR_DATA {
                Some(e.1)
            } else {
                None
            },
    )
}

/// The other records that hold contents of the file, each once.
pub fn extract_data_extension_records(record: &[u8], record_size: usize) -> (r: Vec<u64>)
    ensures
        r@ == distinct(data_records(list_in(record@, record_size as int))),
{
    let entries = extract_attribute_list(record, record_size);
    let ghost f = |e: (u32, u64)|
        if e.0 == ATTR_DATA {
            Some(e.1)
        } else {
            None::<u64>
        };
    let mut seen: HashSet<u64> = HashSet::new();
    let mut r: Vec<u64> = Vec::new();
    let mut i: usize = 0;
    proof {
        assert(entries@.take(0) =~= seq![]);
        reveal(Seq::filter_map);
        assert(seen@ =~= entries@.take(0).filter_map(f).to_set());
    }
    while i < entries.len()
        invariant
            i <= entries@.len(),
            f == (|e: (u32, u64)|
                if e.0 == ATTR_DATA {
                    Some(e.1)
                } else {
                    None::<u64>
                }),
            forall|x: u64| #[trigger]
                seen@.contains(x) <==> entries@.take(i as int).filter_map(f).contains(x),
            r@ == distinct(entries@.take(i as int).filter_map(f)),
        decreases entries@.len() - i,
    {
        let ghost before = entries@.take(i as int).filter_map(f);
        let ghost after = entries@.take(i + 1).filter_map(f);
        proof {
            entries@.lemma_filter_map_take_succ(f, i as int);
            if f(entries@[i as int]) is None {
                assert(after =~= before);
            } else {
                assert(after =~= before.push(entries@[i as int].1));
                assert(after.drop_last() =~= before);
                assert forall|x: u64| #[trigger] after.contains(x) <==> before.contains(x) || x
                    == entries@[i as int].1 by {
                    if before.contains(x) {
                        let k = before.index_of(x);
                        assert(after[k] == x);
                    }
                    if after.contains(x) {
                        let k = after.index_of(x);
                        if k < before.len() {
                            assert(before[k] == x);
                        }
                    }
                    assert(after[before.len() as int] == entries@[i as int].1);
                }
            }
        }
        let (kind, number) = entries[i];
        if kind == ATTR_DATA && seen.insert(number) {
            r.push(number);
        }
        i += 1;
    }
    assert(entries@.take(i as int) =~= entries@);
    r
}

} // verus!
