//! What is listed of a volume that is walked, walked again or enumerated, where its file table
//! cannot be read; and the paths of records.

use crate::changes;
use crate::full_scan;
use crate::full_scan::ScanRules;
use crate::legacy_scan;
use crate::legacy_scan::{LegacyModel, ListModel};
use crate::listed_files;
use crate::mft_scan::ScanResult;
use crate::ntfs_time;
use crate::path_table;
use crate::record_paths;
use crate::rewalking;
use crate::rewalking::RewalkModel;
use crate::search::FileEntry;
use crate::text;
use crate::told_changes;
use crate::told_changes::{has_bit, put_together};
use crate::usn_records::MftModel;
use crate::walking;
use crate::walking::{WalkModel, Walked};
use vstd::prelude::*;

verus! {

/// A walk does not enter the recycle bin, in letters of either case, nor, where those are not asked
/// for, the volume information and what begins with a dot; it enters everything else.
pub proof fn walks_pass_by(include_hidden: bool, include_system: bool, name: Seq<char>)
    ensures
        walking::enters(include_hidden, include_system, name) <==> {
            &&& text::ascii_lower(name) != "$recycle.bin"@
            &&& text::ascii_lower(name) == "system volume information"@ ==> include_system
            &&& name.len() > 0 && name[0] == '.' ==> include_hidden
        },
{
    reveal_strlit("$Recycle.Bin");
    reveal_strlit("$recycle.bin");
    reveal_strlit("System Volume Information");
    reveal_strlit("system volume information");
    reveal_strlit(".");
    assert(text::ascii_lower("$Recycle.Bin"@) =~= "$recycle.bin"@);
    assert(text::ascii_lower("System Volume Information"@) =~= "system volume information"@);
    if name.len() > 0 {
        assert(name.subrange(0, 1)[0] == name[0]);
        if name[0] == '.' {
            assert(name.subrange(0, 1) =~= "."@);
        }
    }
}

/// Of the flags of an entry the second bit says that it is hidden, the third that it is one of the
/// system: such are passed over where they are not asked for.
pub proof fn flags_pass_over(include_hidden: bool, include_system: bool, attributes: u32)
    ensures
        walking::skips_attributes(include_hidden, include_system, attributes) <==> (has_bit(
            attributes,
            0x2,
        ) && !include_hidden) || (has_bit(attributes, 0x4) && !include_system),
{
    let a = attributes;
    assert((a & 0x2 != 0 <==> (a / 0x2) % 2 == 1) && (a & 0x4 != 0 <==> (a / 0x4) % 2 == 1))
        by (bit_vector);
}

/// Whether a stored file is that of an entry: with its name and, where the system told of them, its
/// size, time and kind; the time is `now` where it is not known.
pub open spec fn is_file_of(f: FileEntry, e: Walked, now: i64) -> bool {
    &&& f.name@ == e.name@
    &&& e.metadata matches Some(m) ==> {
        &&& f.size == m.size
        &&& f.is_directory == m.is_directory
        &&& m.modified matches Some(t) ==> f.modified_time == t as i32
        &&& m.modified is None ==> f.modified_time == now as i32
    }
    &&& e.metadata is None ==> f.size == 0 && !f.is_directory && f.modified_time == now as i32
}

/// An entry that a walk does not pass over is listed last, with its own name, size, time and kind,
/// and is found under its path; what was listed before stays.
pub proof fn walked_entry_is_listed(
    m: WalkModel,
    include_hidden: bool,
    include_system: bool,
    e: Walked,
    now: i64,
)
    requires
        !(e.metadata matches Some(d) && walking::skips_attributes(
            include_hidden,
            include_system,
            d.attributes,
        )),
        m.table.sound(),
        path_table::is_plain(e.path@),
        text::last_place(e.path@, '\\') >= 0,
        e.name@ == e.path@.skip(text::last_place(e.path@, '\\') + 1),
        path_table::depth(changes::parent_dir(e.path@)) <= path_table::MAX_DEPTH,
        m.table.entries.len() + path_table::depth(changes::parent_dir(e.path@))
            + path_table::depth(e.path@) <= u32::MAX,
    ensures
        ({
            let after = m.with_entry(include_hidden, include_system, e, now);
            let f = after.files.last();
            &&& after.files.drop_last() == m.files
            &&& after.files.len() == m.files.len() + 1
            &&& is_file_of(f, e, now)
            &&& f.file_id == m.files.len() as u32
            &&& after.table.file_path(f.path_id, f.name@) == e.path@
            &&& after.table.extends(m.table)
        }),
{
    changes::registered_file_has_path(m.table, e.path@, e.is_directory());
    let after = m.with_entry(include_hidden, include_system, e, now);
    assert(after.files.drop_last() =~= m.files);
}

/// An entry that a repeated walk meets is listed as it is now, and marked as met, whether it was
/// listed before or not; every other file stays as it was.
pub proof fn met_entry_is_up_to_date(
    m: RewalkModel,
    include_hidden: bool,
    include_system: bool,
    e: Walked,
    now: i64,
) -> (at: int)
    requires
        !e.is_skipped(include_hidden, include_system),
        m.visited.len() == m.files.len(),
    ensures
        ({
            let after = m.with_entry(include_hidden, include_system, e, now);
            let id = changes::registered(m.table, e.path@, e.is_directory()).1;
            &&& 0 <= at < after.files.len()
            &&& after.visited[at]
            &&& after.files[at].name@ == e.name@
            &&& after.files[at].path_id == id
            &&& e.metadata matches Some(d) ==> after.files[at].size == d.size && (
            d.modified matches Some(t) ==> after.files[at].modified_time == t as i32)
            &&& after.files.len() >= m.files.len()
            &&& forall|j: int|
                0 <= j < m.files.len() && j != at ==> #[trigger] after.files[j] == m.files[j]
                    && after.visited[j] == m.visited[j]
            &&& (exists|j: int|
                0 <= j < m.files.len() && (#[trigger] m.files[j]).path_id == id
                    && m.files[j].name@ == e.name@) ==> after.files.len() == m.files.len()
                && after.files[at].file_id == m.files[at].file_id
        }),
{
    let id = changes::registered(m.table, e.path@, e.is_directory()).1;
    rewalking::place_in_holds(m.files, id, e.name@);
    if exists|j: int|
        0 <= j < m.files.len() && (#[trigger] m.files[j]).path_id == id && m.files[j].name@
            == e.name@ {
        let j = choose|j: int|
            0 <= j < m.files.len() && (#[trigger] m.files[j]).path_id == id && m.files[j].name@
                == e.name@;
        known_has_place(m.files, id, e.name@, j);
    }
    match rewalking::place_in(m.files, id, e.name@) {
        Some(i) => i,
        None => m.files.len() as int,
    }
}

/// A file that stands in a list has a place in it.
proof fn known_has_place(files: Seq<FileEntry>, path_id: u32, name: Seq<char>, j: int)
    requires
        0 <= j < files.len(),
        files[j].path_id == path_id,
        files[j].name@ == name,
    ensures
        rewalking::place_in(files, path_id, name) is Some,
    decreases files.len(),
{
    if j < files.len() - 1 {
        assert(files.drop_last()[j] == files[j]);
        known_has_place(files.drop_last(), path_id, name, j);
    }
}

/// What is left after a repeated walk are files that it met: what it did not meet is gone.
pub proof fn left_files_were_met(files: Seq<FileEntry>, visited: Seq<bool>, k: int) -> (i: int)
    requires
        0 <= k < rewalking::met_files(files, visited).len(),
    ensures
        0 <= i < files.len(),
        visited[i],
        rewalking::met_files(files, visited)[k] == files[i],
    decreases files.len(),
{
    let init = files.drop_last();
    let before = rewalking::met_files(init, visited);
    if k < before.len() {
        left_files_were_met(init, visited, k)
    } else {
        files.len() - 1
    }
}

/// Whether `chain` leads from the root directory down to a file by an enumeration: each stands in
/// the one before it, the first in itself, and it is named with a dot.
pub open spec fn is_enumerated_chain(raw: Seq<MftModel>, chain: Seq<MftModel>) -> bool {
    &&& chain.len() >= 2
    &&& chain[0].parent_fid == chain[0].fid
    &&& chain[0].file_name == "."@
    &&& forall|i: int|
        0 <= i < chain.len() ==> legacy_scan::file_of(raw, (#[trigger] chain[i]).fid) == Some(
            chain[i],
        )
    &&& forall|i: int|
        1 <= i < chain.len() ==> {
            let f = #[trigger] chain[i];
            &&& f.parent_fid == chain[i - 1].fid
            &&& f.parent_fid != f.fid
            &&& f.parent_fid != 0
            &&& f.file_name != "."@
            &&& f.file_name != ".."@
        }
}

proof fn enumeration_is_followed(raw: Seq<MftModel>, chain: Seq<MftModel>, hops: nat)
    requires
        is_enumerated_chain(raw, chain),
        chain.len() <= hops,
    ensures
        legacy_scan::names_above(raw, chain.last().fid, hops).push(chain.last().file_name)
            == chain.drop_first().map_values(|f: MftModel| f.file_name),
    decreases chain.len(),
{
    let n = chain.len() - 1;
    let f = chain[n];
    let names = chain.drop_first().map_values(|f: MftModel| f.file_name);
    assert(legacy_scan::file_of(raw, f.fid) == Some(f));
    assert(f.parent_fid == chain[n - 1].fid);
    assert(legacy_scan::file_of(raw, chain[n - 1].fid) == Some(chain[n - 1]));
    let up = legacy_scan::names_above(raw, f.parent_fid, (hops - 1) as nat);
    if n == 1 {
        assert(legacy_scan::file_of(raw, chain[0].fid) == Some(chain[0]));
        assert(up =~= seq![]);
        assert(legacy_scan::names_above(raw, f.fid, hops) =~= seq![]);
        assert(legacy_scan::names_above(raw, f.fid, hops).push(f.file_name) =~= names);
    } else {
        let init = chain.drop_last();
        assert(is_enumerated_chain(raw, init)) by {
            assert forall|i: int| 0 <= i < init.len() implies legacy_scan::file_of(
                raw,
                (#[trigger] init[i]).fid,
            ) == Some(init[i]) by {
                assert(init[i] == chain[i]);
            }
            assert forall|i: int| 1 <= i < init.len() implies {
                let f = #[trigger] init[i];
                &&& f.parent_fid == init[i - 1].fid
                &&& f.parent_fid != f.fid
                &&& f.parent_fid != 0
                &&& f.file_name != "."@
                &&& f.file_name != ".."@
            } by {
                assert(init[i] == chain[i] && init[i - 1] == chain[i - 1]);
            }
        }
        enumeration_is_followed(raw, init, (hops - 1) as nat);
        let dir = chain[n - 1];
        assert(dir.file_name != "."@ && dir.file_name != ".."@);
        assert(init.last() == dir);
        assert(legacy_scan::names_above(raw, f.fid, hops) == up + seq![dir.file_name]);
        assert(up + seq![dir.file_name] =~= up.push(dir.file_name));
        assert(legacy_scan::names_above(raw, f.fid, hops).push(f.file_name) =~= names);
    }
}

/// A file of an enumeration that may be listed is listed under the path along its chain of
/// directories, with its own number and name; the fifth bit of its flags says whether it is a
/// directory, and its time is in seconds since 1970. One that is hidden or of the system is not
/// where those are not asked for.
pub proof fn enumerated_file_is_found(
    raw: Seq<MftModel>,
    rules: ScanRules,
    chain: Seq<MftModel>,
    seconds: int,
    rest: int,
)
    requires
        is_enumerated_chain(raw, chain),
        chain.len() <= 50,
        chain.last().file_name.len() > 0,
        0 <= seconds <= u32::MAX,
        0 <= rest < 10_000_000,
        chain.last().timestamp == (seconds + 11_644_473_600) * 10_000_000 + rest,
    ensures
        ({
            let f = chain.last();
            let path = seq![rules.drive_letter, ':', '\\'] + put_together(
                chain.drop_first().map_values(|f: MftModel| f.file_name),
                '\\',
            );
            let listed = f.file_name[0] != '$' && (has_bit(f.file_attributes, 0x2)
                ==> rules.include_hidden_files) && (has_bit(f.file_attributes, 0x4)
                ==> rules.include_system_files) && !full_scan::is_excluded(
                path,
                rules.include_system_files,
            );
            match legacy_scan::entry_of(raw, rules, f) {
                Some(e) => {
                    &&& listed
                    &&& e.fid == f.fid
                    &&& e.name == f.file_name
                    &&& e.path == path
                    &&& e.is_dir == has_bit(f.file_attributes, 0x10)
                    &&& e.timestamp == seconds
                },
                None => !listed,
            }
        }),
{
    let f = chain.last();
    let names = chain.drop_first().map_values(|f: MftModel| f.file_name);
    enumeration_is_followed(raw, chain, 50);
    told_changes::path_is_put_together(names);
    listed_files::ticks_count_seconds(seconds, rest);
    let a = f.file_attributes;
    assert((a & 0x2 != 0 <==> (a / 0x2) % 2 == 1) && (a & 0x4 != 0 <==> (a / 0x4) % 2 == 1) && (a
        & 0x10 != 0 <==> (a / 0x10) % 2 == 1)) by (bit_vector);
    assert(ntfs_time::unix_seconds(f.timestamp) == seconds);
}

/// A file of an enumeration is stored with its own name, number and kind and the size that the
/// system tells, with the time of the enumeration where that is known, and is found under its path.
pub proof fn enumerated_file_is_stored(m: ListModel, e: LegacyModel, size: u64, time: i64)
    requires
        m.table.sound(),
        path_table::is_plain(e.path),
        text::last_place(e.path, '\\') >= 0,
        e.name == e.path.skip(text::last_place(e.path, '\\') + 1),
        path_table::depth(changes::parent_dir(e.path)) <= path_table::MAX_DEPTH,
        m.table.entries.len() + path_table::depth(changes::parent_dir(e.path)) + path_table::depth(
            e.path,
        ) <= u32::MAX,
    ensures
        ({
            let after = m.with_entry(e, size, time);
            let f = after.files.last();
            &&& after.files.drop_last() == m.files
            &&& f.name == e.name
            &&& f.size == size
            &&& f.file_id == e.fid as u32
            &&& f.is_directory == e.is_dir
            &&& e.timestamp > 0 ==> f.modified_time == e.timestamp as i32
            &&& e.timestamp <= 0 ==> f.modified_time == time as i32
            &&& after.table.file_path(f.path_id, f.name) == e.path
        }),
{
    changes::registered_file_has_path(m.table, e.path, e.is_dir);
    let after = m.with_entry(e, size, time);
    assert(after.files.drop_last() =~= m.files);
}

/// Whether `chain` leads from below the root directory, record 5, down to a record: each stands in
/// the one before it.
pub open spec fn is_record_chain(map: Map<u64, (u64, Seq<char>)>, chain: Seq<u64>) -> bool {
    &&& chain.len() > 0
    &&& forall|i: int|
        0 <= i < chain.len() ==> {
            let record = #[trigger] chain[i];
            &&& record != 5
            &&& map.contains_key(record)
            &&& map[record].0 == (if i == 0 {
                5
            } else {
                chain[i - 1]
            })
            &&& map[record].0 != record
            &&& map[record].0 != 0
        }
}

/// The path of a record is the names along the chain of directories that leads to it from the root,
/// with a backslash before each.
pub proof fn chain_gives_record_path(map: Map<u64, (u64, Seq<char>)>, chain: Seq<u64>)
    requires
        is_record_chain(map, chain),
        forall|i: int| 0 <= i < chain.len() ==> map[#[trigger] chain[i]].1.len() > 0,
    ensures
        record_paths::is_path(
            map,
            chain.last(),
            seq!['\\'] + put_together(chain.map_values(|r: u64| map[r].1), '\\'),
        ),
{
    record_is_followed(map, chain);
}

/// What leads to a record leads to the directory that it stands in.
proof fn shorter_chain(map: Map<u64, (u64, Seq<char>)>, chain: Seq<u64>)
    requires
        chain.len() > 1,
        is_record_chain(map, chain),
        forall|i: int| 0 <= i < chain.len() ==> map[#[trigger] chain[i]].1.len() > 0,
    ensures
        is_record_chain(map, chain.drop_last()),
        forall|i: int|
            0 <= i < chain.len() - 1 ==> map[#[trigger] chain.drop_last()[i]].1.len() > 0,
{
    let init = chain.drop_last();
    assert forall|i: int| 0 <= i < init.len() implies {
        let record = #[trigger] init[i];
        &&& record != 5
        &&& map.contains_key(record)
        &&& map[record].0 == (if i == 0 {
            5
        } else {
            init[i - 1]
        })
        &&& map[record].0 != record
        &&& map[record].0 != 0
    } by {
        assert(init[i] == chain[i]);
    }
    assert forall|i: int| 0 <= i < chain.len() - 1 implies map[#[trigger] init[i]].1.len() > 0 by {
        assert(init[i] == chain[i]);
    }
}

/// The path of a record is that of its directory with its name below.
proof fn one_record_down(
    map: Map<u64, (u64, Seq<char>)>,
    record: u64,
    hops: nat,
    path: Seq<char>,
)
    requires
        record != 5,
        map.contains_key(record),
        map[record].0 != record,
        map[record].0 != 0,
        record_paths::path_within(map, map[record].0, hops) == Some(path),
    ensures
        record_paths::path_within(map, record, hops + 1) == Some(
            record_paths::below(path, map[record].1),
        ),
{
}

/// A name below a path that was put together is put together with it.
proof fn one_name_more(names: Seq<Seq<char>>, name: Seq<char>)
    requires
        names.len() > 0,
        names.last().len() > 0,
    ensures
        record_paths::below(seq!['\\'] + put_together(names, '\\'), name) == seq!['\\']
            + put_together(names.push(name), '\\'),
{
    let path = seq!['\\'] + put_together(names, '\\');
    together_is_long(names);
    assert(path.len() > 1);
    assert(names.push(name).drop_last() =~= names);
    assert(record_paths::below(path, name) =~= seq!['\\'] + put_together(names.push(name), '\\'));
}

proof fn record_is_followed(map: Map<u64, (u64, Seq<char>)>, chain: Seq<u64>)
    requires
        is_record_chain(map, chain),
        forall|i: int| 0 <= i < chain.len() ==> map[#[trigger] chain[i]].1.len() > 0,
    ensures
        record_paths::path_within(map, chain.last(), chain.len()) == Some(
            seq!['\\'] + put_together(chain.map_values(|r: u64| map[r].1), '\\'),
        ),
    decreases chain.len(),
{
    let n = chain.len() - 1;
    let record = chain[n];
    let name = map[record].1;
    let names = chain.map_values(|r: u64| map[r].1);
    if n == 0 {
        assert(record_paths::path_within(map, 5, 0) == Some(seq!['\\']));
        one_record_down(map, record, 0, seq!['\\']);
        assert(names =~= seq![name]);
        assert(put_together(names, '\\') == name);
        assert(record_paths::below(seq!['\\'], name) =~= seq!['\\'] + name);
    } else {
        let init = chain.drop_last();
        let above = init.map_values(|r: u64| map[r].1);
        shorter_chain(map, chain);
        record_is_followed(map, init);
        assert(map[record].0 == init.last());
        one_record_down(map, record, init.len(), seq!['\\'] + put_together(above, '\\'));
        assert(above.last().len() > 0) by {
            assert(map[init[n - 1]].1.len() > 0);
        }
        one_name_more(above, name);
        assert(names =~= above.push(name));
    }
}

proof fn together_is_long(names: Seq<Seq<char>>)
    requires
        names.len() > 0,
        names.last().len() > 0,
    ensures
        put_together(names, '\\').len() > 0,
{
}

/// Of entries with one id the last counts; so does the last of the records with one number.
pub proof fn last_entry_counts(raw: Seq<MftModel>, records: Seq<ScanResult>, i: int)
    ensures
        0 <= i < raw.len() && (forall|j: int|
            i < j < raw.len() ==> (#[trigger] raw[j]).fid != raw[i].fid) ==> legacy_scan::file_of(
            raw,
            raw[i].fid,
        ) == Some(raw[i]),
        0 <= i < records.len() && (forall|j: int|
            i < j < records.len() ==> (#[trigger] records[j]).record_number
                != records[i].record_number) ==> record_paths::record_map(records).contains_key(
            records[i].record_number,
        ) && record_paths::record_map(records)[records[i].record_number] == (
            records[i].parent_record,
            records[i].name@,
        ),
    decreases raw.len() + records.len(),
{
    if raw.len() > 0 && 0 <= i < raw.len() - 1 && (forall|j: int|
        i < j < raw.len() ==> (#[trigger] raw[j]).fid != raw[i].fid) {
        let init = raw.drop_last();
        assert(raw[raw.len() - 1].fid != raw[i].fid);
        assert forall|j: int| i < j < init.len() implies (#[trigger] init[j]).fid != init[i].fid by {
            assert(init[j] == raw[j]);
        }
        last_entry_counts(init, Seq::empty(), i);
    }
    if records.len() > 0 && 0 <= i < records.len() - 1 && (forall|j: int|
        i < j < records.len() ==> (#[trigger] records[j]).record_number
            != records[i].record_number) {
        let init = records.drop_last();
        assert(records[records.len() - 1].record_number != records[i].record_number);
        assert forall|j: int| i < j < init.len() implies (#[trigger] init[j]).record_number
            != init[i].record_number by {
            assert(init[j] == records[j]);
        }
        last_entry_counts(Seq::empty(), init, i);
    }
}

/// After a walk that is repeated, a file that was met has the number of its place for its id, and is
/// otherwise as it was.
pub proof fn met_file_gets_its_place(files: Seq<FileEntry>, visited: Seq<bool>, i: int)
    requires
        0 <= i < files.len(),
        visited[i],
    ensures
        ({
            let left = rewalking::renumbered(rewalking::met_files(files, visited));
            let n = rewalking::met_before(visited, i) as int;
            &&& n < left.len()
            &&& left[n].file_id == n as u32
            &&& left[n].name == files[i].name
            &&& left[n].size == files[i].size
            &&& left[n].path_id == files[i].path_id
            &&& left[n].modified_time == files[i].modified_time
            &&& left[n].is_directory == files[i].is_directory
        }),
{
    rewalking::met_file_has_place(files, visited, i);
}

} // verus!
