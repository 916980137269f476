//! What is asked for and shown in words: sort orders, sizes, drives, and files as they are handed
//! in and out.

use crate::changes;
use crate::commands_search;
use crate::field_order;
use crate::rows;
use crate::search;
use crate::search::{ResultModel, SearchResult};
use crate::text;
use crate::volume_manager::VolumeManager;
use crate::volumes;
use vstd::prelude::*;

verus! {

/// A page that is asked for by a word is in the order that the word means: by size, by time, or by
/// name, upward for `asc` and downward for `desc`.
pub proof fn words_mean_orders(
    before: VolumeManager,
    after: VolumeManager,
    word: Seq<char>,
    way: Seq<char>,
    start: usize,
    end: usize,
    age: u64,
    today: i32,
    page: (Vec<SearchResult>, usize),
)
    requires
        before.is_sound(today),
        before.fits(),
        after.wf(),
        before.slice_was_read(
            after,
            commands_search::sort_by_in(word),
            commands_search::sort_direction_in(way),
            start,
            end,
            age,
            today,
            Some(page),
        ),
        way == "asc"@ || way == "desc"@,
    ensures
        forall|i: int, j: int|
            #![trigger page.0@[i], page.0@[j]]
            0 <= i < j < page.0@.len() ==> {
                let (a, b) = if way == "asc"@ {
                    (page.0@[i], page.0@[j])
                } else {
                    (page.0@[j], page.0@[i])
                };
                &&& word == "size"@ ==> a.size < b.size || (a.size == b.size && a.file_id
                    <= b.file_id)
                &&& word == "modified"@ || word == "modified_time"@ ==> a.modified_time
                    < b.modified_time || (a.modified_time == b.modified_time && a.file_id
                    <= b.file_id)
                &&& word == "name"@ ==> field_order::reads_before(a.name@, b.name@) || (a.name@
                    == b.name@ && a.file_id <= b.file_id)
            },
{
    reveal_strlit("asc");
    reveal_strlit("desc");
    reveal_strlit("name");
    reveal_strlit("path");
    reveal_strlit("size");
    reveal_strlit("modified");
    reveal_strlit("modified_time");
    assert("asc"@.len() != "desc"@.len());
    assert("size"@[0] == 's' && "name"@[0] == 'n' && "path"@[0] == 'p');
    assert("modified"@.len() == 8 && "modified_time"@.len() == 13);
    let sort_by = commands_search::sort_by_in(word);
    let direction = commands_search::sort_direction_in(way);
    field_order::page_is_in_order(before, after, sort_by, direction, start, end, age, today, page);
    let models = rows::result_models(page.0@);
    assert forall|i: int, j: int|
        #![trigger page.0@[i], page.0@[j]]
        0 <= i < j < page.0@.len() implies {
        let (a, b) = if way == "asc"@ {
            (page.0@[i], page.0@[j])
        } else {
            (page.0@[j], page.0@[i])
        };
        &&& word == "size"@ ==> a.size < b.size || (a.size == b.size && a.file_id <= b.file_id)
        &&& word == "modified"@ || word == "modified_time"@ ==> a.modified_time < b.modified_time
            || (a.modified_time == b.modified_time && a.file_id <= b.file_id)
        &&& word == "name"@ ==> field_order::reads_before(a.name@, b.name@) || (a.name@ == b.name@
            && a.file_id <= b.file_id)
    } by {
        assert(models[i] == page.0@[i]@ && models[j] == page.0@[j]@);
    }
}

/// The unit in which a size is shown, and how many bytes it has: the largest of which the size has
/// at least one.
pub open spec fn shown_unit(size: u64) -> (int, Seq<char>) {
    if size < 1024 {
        (1, " B"@)
    } else if size < 1024 * 1024 {
        (1024, " KB"@)
    } else if size < 1024 * 1024 * 1024 {
        (0x10_0000, " MB"@)
    } else {
        (0x4000_0000, " GB"@)
    }
}

/// The nearest quotient is within half of the divisor.
proof fn nearest_is_near(n: nat, d: nat)
    requires
        d > 0,
    ensures
        -(d as int) <= 2 * (search::nearest_quotient(n, d) * d - n) <= d,
{
    let (q, r) = (n / d, n % d);
    vstd::arithmetic::div_mod::lemma_fundamental_div_mod(n as int, d as int);
    assert(d * q == q * d && (q + 1) * d == q * d + d) by (nonlinear_arith);
}

/// A size is shown in the largest unit of which it has one, in whole bytes, or in tenths of the
/// unit: the nearest number of tenths, where it can be counted exactly.
pub proof fn size_is_shown_in_tenths(size: u64) -> (tenths: nat)
    ensures
        size < 1024 ==> search::size_text(size) == text::decimal(size as nat) + " B"@,
        size >= 1024 ==> search::size_text(size) == text::decimal(tenths / 10) + seq![
            '.',
            (48 + tenths % 10) as u8 as char,
        ] + shown_unit(size).1,
        1024 <= size < 0x20_0000_0000_0000 ==> {
            let unit = shown_unit(size).0;
            -unit <= 2 * (tenths * unit - 10 * size) <= unit
        },
{
    let unit = search::unit_of(size);
    let near = search::nearest_double(size as nat);
    let tenths = search::nearest_quotient(10 * near, unit.0);
    if 1024 <= size < 0x20_0000_0000_0000 {
        let step = search::double_step(size as nat);
        let n = search::nearest_quotient(size as nat, step);
        assert(step == 1);
        assert(search::nearest_quotient(size as nat, 1) == size);
        assert(n * step == n) by (nonlinear_arith)
            requires
                step == 1,
        ;
        nearest_is_near(10 * near, unit.0);
        assert(unit.0 == shown_unit(size).0);
    }
    tenths
}

/// A file that is handed in is handed out again as it was, with the path that it is found under,
/// where its time fits 32 bits.
pub proof fn stored_file_reads_back(r: SearchResult, path_id: u32)
    requires
        i32::MIN <= r.modified_time <= i32::MAX,
    ensures
        search::result_of(changes::entry_for(r, path_id)@, r.path@) == r@,
        changes::entry_for(r, path_id).path_id == path_id,
{
}

/// What is handed out of a file has the name, size, time, number and kind of the file.
pub proof fn result_is_of_file(f: search::FileModel, path: Seq<char>)
    ensures
        ({
            let r: ResultModel = search::result_of(f, path);
            &&& r.name == f.name
            &&& r.path == path
            &&& r.size == f.size
            &&& r.modified_time == f.modified_time
            &&& r.file_id == f.file_id
            &&& r.is_directory == f.is_directory
        }),
{
}

/// A drive is there just where its bit is set: that of A is the lowest, and each letter has the
/// next.
pub proof fn drives_have_their_bits(mask: u32, i: u32)
    requires
        i < 26,
    ensures
        volumes::drives_in(mask, 26).contains(seq![(65 + i) as u8 as char, ':']) <==> (mask >> i)
            % 2 == 1,
{
    letters_up_to(mask, 26, i);
}

proof fn letters_up_to(mask: u32, n: nat, i: u32)
    requires
        n <= 26,
        i < 26,
    ensures
        volumes::drives_in(mask, n).contains(seq![(65 + i) as u8 as char, ':']) <==> i < n && (mask
            >> i) % 2 == 1,
    decreases n,
{
    let name = seq![(65 + i) as u8 as char, ':'];
    let all = volumes::drives_in(mask, n);
    if n > 0 {
        letters_up_to(mask, (n - 1) as nat, i);
        let before = volumes::drives_in(mask, (n - 1) as nat);
        let k = (n - 1) as u32;
        assert(mask & (1u32 << k) != 0 <==> (mask >> k) % 2 == 1) by (bit_vector)
            requires
                k < 26,
        ;
        if all.len() > before.len() {
            assert(all[before.len() as int][0] == volumes::letter_at(k as int));
            if k == i {
                assert(all[before.len() as int] =~= name);
            }
        }
        if before.contains(name) {
            let j = choose|j: int| 0 <= j < before.len() && before[j] == name;
            assert(all[j] == name);
        }
        if all.contains(name) {
            let j = choose|j: int| 0 <= j < all.len() && all[j] == name;
            if j < before.len() {
                assert(before[j] == name);
            } else {
                assert(name[0] == volumes::letter_at(k as int));
                assert(i == k);
            }
        }
    }
}

} // verus!
