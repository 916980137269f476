//! The paths of the files of a scan, by the directories that their records name.

use crate::mft_scan::{ScanOutput, ScanResult};
use crate::ntfs_time;
use crate::ntfs_time::format_ntfs_time;
use crate::text;
use crate::text::decimal_text;
use std::collections::{HashMap, HashSet};
use vstd::prelude::*;

verus! {

broadcast use {
    vstd::string::group_string_axioms,
    vstd::std_specs::hash::group_hash_axioms,
};

/// The record of the root directory.
pub const ROOT_RECORD_NUMBER: u64 = 5;

/// The directory and the name of each record; of several with one number the last counts.
pub open spec fn record_map(records: Seq<ScanResult>) -> Map<u64, (u64, Seq<char>)>
    decreases records.len(),
{
    if records.len() == 0 {
        Map::empty()
    } else {
        record_map(records.drop_last()).insert(
            records.last().record_number,
            (records.last().parent_record, records.last().name@),
        )
    }
}

/// A name below a path.
pub open spec fn below(path: Seq<char>, name: Seq<char>) -> Seq<char> {
    if path == seq!['\\'] {
        path + name
    } else {
        path.push('\\') + name
    }
}

/// The path of a record, where its chain of directories ends within `hops` steps: at the
/// root, at a record that stands in itself or in record 0, or at one that is not known.
pub open spec fn path_within(map: Map<u64, (u64, Seq<char>)>, record: u64, hops: nat) -> Option<
    Seq<char>,
>
    decreases hops,
{
    if record == ROOT_RECORD_NUMBER {
        Some(seq!['\\'])
    } else if !map.contains_key(record) {
        Some("<"@ + text::decimal(record as nat) + ">"@)
    } else {
        let (parent, name) = map[record];
        if parent == record || parent == 0 {
            Some(seq!['\\'] + name)
        } else if hops == 0 {
            None
        } else {
            match path_within(map, parent, (hops - 1) as nat) {
                Some(path) => Some(below(path, name)),
                None => None,
            }
        }
    }
}

/// Whether `path` is the path of a record.
pub open spec fn is_path(map: Map<u64, (u64, Seq<char>)>, record: u64, path: Seq<char>) -> bool {
    exists|hops: nat| #[trigger] path_within(map, record, hops) == Some(path)
}

/// Whether the chain of directories of a record ends.
pub open spec fn has_path(map: Map<u64, (u64, Seq<char>)>, record: u64) -> bool {
    exists|hops: nat| #[trigger] path_within(map, record, hops) is Some
}

/// More steps lead to the same path.
proof fn more_hops(map: Map<u64, (u64, Seq<char>)>, record: u64, a: nat, b: nat)
    requires
        a <= b,
        path_within(map, record, a) is Some,
    ensures
        path_within(map, record, b) == path_within(map, record, a),
    decreases a,
{
    if record != ROOT_RECORD_NUMBER && map.contains_key(record) && a > 0 {
        let parent = map[record].0;
        if parent != record && parent != 0 {
            more_hops(map, parent, (a - 1) as nat, (b - 1) as nat);
        }
    }
}

/// A record has one path.
pub proof fn path_unique(map: Map<u64, (u64, Seq<char>)>, record: u64, p: Seq<char>, q: Seq<char>)
    requires
        is_path(map, record, p),
        is_path(map, record, q),
    ensures
        p == q,
{
    let a = choose|a: nat| #[trigger] path_within(map, record, a) == Some(p);
    let b = choose|b: nat| #[trigger] path_within(map, record, b) == Some(q);
    if a <= b {
        more_hops(map, record, a, b);
    } else {
        more_hops(map, record, b, a);
    }
}

/// Whether `index` gives the place of each record in `records`.
spec fn gives_records(index: Map<u64, usize>, records: Seq<ScanResult>) -> bool {
    &&& index.dom() == record_map(records).dom()
    &&& forall|n: u64| #[trigger]
        index.contains_key(n) ==> index[n] < records.len() && record_map(records)[n] == (
            records[index[n] as int].parent_record,
            records[index[n] as int].name@,
        )
}

/// Where each record stands.
fn index_records(records: &Vec<ScanResult>) -> (r: HashMap<u64, usize>)
    ensures
        gives_records(r@, records@),
{
    let mut r: HashMap<u64, usize> = HashMap::new();
    let mut i: usize = 0;
    assert(records@.take(0) =~= seq![]);
    assert(r@.dom() =~= record_map(records@.take(0)).dom());
    while i < records.len()
        invariant
            i <= records@.len(),
            gives_records(r@, records@.take(i as int)),
        decreases records@.len() - i,
    {
        let ghost before = r@;
        proof {
            let step = records@.take(i + 1);
            assert(step.drop_last() =~= records@.take(i as int));
            assert(step.last() == records@[i as int]);
        }
        r.insert(records[i].record_number, i);
        proof {
            let step = records@.take(i + 1);
            assert(r@.dom() =~= record_map(step).dom());
            assert forall|n: u64| #[trigger] r@.contains_key(n) implies r@[n] < step.len()
                && record_map(step)[n] == (
                step[r@[n] as int].parent_record,
                step[r@[n] as int].name@,
            ) by {
                if n != records@[i as int].record_number {
                    assert(before.contains_key(n));
                }
            }
        }
        i += 1;
    }
    assert(records@.take(i as int) =~= records@);
    r
}

/// Whether the paths that are kept are those of their records.
spec fn keeps_paths(cache: Map<u64, String>, map: Map<u64, (u64, Seq<char>)>) -> bool {
    forall|n: u64| #[trigger] cache.contains_key(n) ==> is_path(map, n, cache[n]@)
}

/// The path of a record. The paths of the directories above it are kept.
fn build_path(
    record: u64,
    records: &Vec<ScanResult>,
    index: &HashMap<u64, usize>,
    cache: &mut HashMap<u64, String>,
    Ghost(hops): Ghost<nat>,
) -> (r: String)
    requires
        gives_records(index@, records@),
        keeps_paths(old(cache)@, record_map(records@)),
        path_within(record_map(records@), record, hops) is Some,
    ensures
        is_path(record_map(records@), record, r@),
        keeps_paths(final(cache)@, record_map(records@)),
    decreases hops,
{
    let ghost map = record_map(records@);
    let kept: Option<String> = match cache.get(&record) {
        Some(p) => Some(p.clone()),
        None => None,
    };
    if let Some(p) = kept {
        return p;
    }
    let mut path = String::new();
    if record == ROOT_RECORD_NUMBER {
        path.push('\\');
        assert(path@ =~= seq!['\\']);
    } else {
        match index.get(&record) {
            None => {
                path.append("<");
                path.append(decimal_text(record).as_str());
                path.append(">");
                assert(path@ =~= "<"@ + text::decimal(record as nat) + ">"@);
                assert(path_within(map, record, hops) == Some(path@));
                return path;
            },
            Some(i) => {
                let entry = &records[*i];
                if entry.parent_record == record || entry.parent_record == 0 {
                    path.push('\\');
                    path.append(entry.name.as_str());
                    assert(path@ =~= seq!['\\'] + entry.name@);
                } else {
                    path = build_path(
                        entry.parent_record,
                        records,
                        index,
                        cache,
                        Ghost((hops - 1) as nat),
                    );
                    proof {
                        let above = path_within(map, entry.parent_record, (hops - 1) as nat)->0;
                        assert(path_within(map, entry.parent_record, (hops - 1) as nat) == Some(
                            above,
                        ));
                        path_unique(map, entry.parent_record, above, path@);
                    }
                    let ghost above = path@;
                    if !is_root(path.as_str()) {
                        path.push('\\');
                    }
                    path.append(entry.name.as_str());
                    assert(path@ =~= below(above, entry.name@));
                }
            },
        }
    }
    assert(path_within(map, record, hops) == Some(path@));
    cache.insert(record, path.clone());
    path
}

/// Whether a path is that of the root.
fn is_root(path: &str) -> (r: bool)
    ensures
        r == (path@ == seq!['\\']),
{
    let chars = crate::text::chars_of(path);
    let r = chars.len() == 1 && chars[0] == '\\';
    assert(r ==> path@ =~= seq!['\\']);
    r
}

/// Whether the chain of directories of a record that is known ends at once: the record is
/// the root, stands in itself, in record 0 or in the root, or in one that is not known.
spec fn ends_at_once(map: Map<u64, (u64, Seq<char>)>, record: u64) -> bool {
    let parent = map[record].0;
    ||| record == ROOT_RECORD_NUMBER
    ||| parent == record || parent == 0 || parent == ROOT_RECORD_NUMBER
    ||| !map.contains_key(parent)
}

/// Whether a set of known records holds all whose chains end: it holds those that end at
/// once, and those that stand in one that it holds.
spec fn is_closed(map: Map<u64, (u64, Seq<char>)>, ending: Set<u64>) -> bool {
    forall|n: u64| #[trigger]
        map.contains_key(n) && (ends_at_once(map, n) || ending.contains(map[n].0))
            ==> ending.contains(n)
}

/// A closed set holds every known record that has a path.
proof fn closed_holds_all(map: Map<u64, (u64, Seq<char>)>, ending: Set<u64>, n: u64, hops: nat)
    requires
        is_closed(map, ending),
        map.contains_key(n),
        path_within(map, n, hops) is Some,
    ensures
        ending.contains(n),
    decreases hops,
{
    if !ends_at_once(map, n) {
        closed_holds_all(map, ending, map[n].0, (hops - 1) as nat);
    }
}

/// A record that ends at once, or stands in one that has a path, has a path.
proof fn one_more_ends(map: Map<u64, (u64, Seq<char>)>, n: u64)
    requires
        map.contains_key(n),
        ends_at_once(map, n) || has_path(map, map[n].0),
    ensures
        has_path(map, n),
{
    let parent = map[n].0;
    if n == ROOT_RECORD_NUMBER || parent == n || parent == 0 {
        assert(path_within(map, n, 0) is Some);
    } else {
        if ends_at_once(map, n) {
            assert(path_within(map, parent, 0) is Some);
        }
        let hops = choose|hops: nat| #[trigger] path_within(map, parent, hops) is Some;
        assert(path_within(map, n, hops + 1) is Some);
    }
}

/// The records whose chains of directories end.
fn records_that_end(records: &Vec<ScanResult>, index: &HashMap<u64, usize>) -> (r: HashSet<u64>)
    requires
        gives_records(index@, records@),
    ensures
        forall|n: u64|
            record_map(records@).contains_key(n) ==> (#[trigger] r@.contains(n) <==> has_path(
                record_map(records@),
                n,
            )),
{
    let ghost map = record_map(records@);
    let mut ending: HashSet<u64> = HashSet::new();
    let mut grew = true;
    while grew
        invariant
            map == record_map(records@),
            gives_records(index@, records@),
            ending@.subset_of(map.dom()),
            map.dom().finite(),
            forall|n: u64| #[trigger] ending@.contains(n) ==> has_path(map, n),
            !grew ==> is_closed(map, ending@),
        decreases
                map.dom().len() - ending@.len(),
                if grew {
                    1int
                } else {
                    0int
                },
    {
        grew = false;
        let ghost start = ending@;
        proof {
            vstd::set_lib::lemma_len_subset(start, map.dom());
        }
        let mut i: usize = 0;
        while i < records.len()
            invariant
                i <= records@.len(),
                map == record_map(records@),
                gives_records(index@, records@),
                map.dom().finite(),
                ending@.subset_of(map.dom()),
                start.subset_of(ending@),
                start.finite(),
                !grew ==> ending@ == start,
                grew ==> exists|n: u64| #[trigger] ending@.contains(n) && !start.contains(n),
                forall|n: u64| #[trigger] ending@.contains(n) ==> has_path(map, n),
                !grew ==> forall|k: int|
                    #![trigger records@[k]]
                    0 <= k < i ==> {
                        let n = records@[k].record_number;
                        ends_at_once(map, n) || start.contains(map[n].0) ==> start.contains(n)
                    },
            decreases records@.len() - i,
        {
            let n: u64 = records[i].record_number;
            proof {
                known_by_number(records@, i as int);
            }
            if !ending.contains(&n) {
                if let Some(at) = index.get(&n) {
                    let parent: u64 = records[*at].parent_record;
                    if n == ROOT_RECORD_NUMBER || parent == n || parent == 0 || parent
                        == ROOT_RECORD_NUMBER || !index.contains_key(&parent) || ending.contains(
                        &parent,
                    ) {
                        proof {
                            one_more_ends(map, n);
                        }
                        ending.insert(n);
                        grew = true;
                        assert(ending@.contains(n) && !start.contains(n));
                    }
                }
            }
            i += 1;
        }
        proof {
            if grew {
                let n = choose|n: u64| #[trigger] ending@.contains(n) && !start.contains(n);
                vstd::set_lib::lemma_len_subset(ending@, map.dom());
                vstd::set_lib::lemma_len_subset(start.insert(n), ending@);
            } else {
                assert forall|n: u64| #[trigger]
                    map.contains_key(n) && (ends_at_once(map, n) || ending@.contains(
                        map[n].0,
                    )) implies ending@.contains(n) by {
                    let k = number_of_known(records@, n);
                    assert(records@[k].record_number == n);
                }
            }
        }
    }
    proof {
        assert forall|n: u64| map.contains_key(n) implies (#[trigger] ending@.contains(n)
            <==> has_path(map, n)) by {
            if has_path(map, n) {
                let hops = choose|hops: nat| #[trigger] path_within(map, n, hops) is Some;
                closed_holds_all(map, ending@, n, hops);
            }
        }
    }
    ending
}

/// Every record is known by its number.
proof fn known_by_number(records: Seq<ScanResult>, i: int)
    requires
        0 <= i < records.len(),
    ensures
        record_map(records).contains_key(records[i].record_number),
        record_map(records).dom().finite(),
    decreases records.len(),
{
    if records.len() > 1 && i < records.len() - 1 {
        known_by_number(records.drop_last(), i);
    } else if records.len() > 1 {
        known_by_number(records.drop_last(), 0);
    } else {
        assert(record_map(records.drop_last()) =~= Map::empty());
    }
}

/// A number that is known is that of a record.
proof fn number_of_known(records: Seq<ScanResult>, n: u64) -> (k: int)
    requires
        record_map(records).contains_key(n),
    ensures
        0 <= k < records.len(),
        records[k].record_number == n,
    decreases records.len(),
{
    if records.last().record_number == n {
        records.len() - 1
    } else {
        number_of_known(records.drop_last(), n)
    }
}

/// Whether the chains of directories of the first records of a scan end, so that their paths
/// can be resolved.
pub fn paths_end(output: &ScanOutput, display_limit: usize) -> (r: bool)
    ensures
        r == (forall|i: int|
            0 <= i < output.all_records@.len() && i < display_limit ==> has_path(
                record_map(output.all_records@),
                (#[trigger] output.all_records@[i]).record_number,
            )),
{
    let records = &output.all_records;
    let ghost map = record_map(records@);
    let index = index_records(records);
    let ending = records_that_end(records, &index);
    let mut i: usize = 0;
    while i < records.len() && i < display_limit
        invariant
            i <= records@.len(),
            i <= display_limit,
            records@ == output.all_records@,
            map == record_map(records@),
            forall|n: u64|
                map.contains_key(n) ==> (#[trigger] ending@.contains(n) <==> has_path(map, n)),
            forall|k: int|
                0 <= k < i ==> has_path(map, (#[trigger] records@[k]).record_number),
        decreases records@.len() - i,
    {
        proof {
            known_by_number(records@, i as int);
        }
        let n: u64 = records[i].record_number;
        if !ending.contains(&n) {
            assert(!has_path(map, output.all_records@[i as int].record_number));
            return false;
        }
        i += 1;
    }
    true
}

/// The paths of the first records of a scan, with the times when their files were last
/// changed.
pub fn resolve_paths(output: &ScanOutput, display_limit: usize) -> (r: Vec<(String, String)>)
    requires
        forall|i: int|
            0 <= i < output.all_records@.len() && i < display_limit ==> has_path(
                record_map(output.all_records@),
                (#[trigger] output.all_records@[i]).record_number,
            ),
    ensures
        r@.len() == crate::rows::least(output.all_records@.len() as int, display_limit as int),
        forall|i: int|
            0 <= i < r@.len() ==> {
                &&& is_path(
                    record_map(output.all_records@),
                    output.all_records@[i].record_number,
                    (#[trigger] r@[i]).0@,
                )
                &&& ntfs_time::is_time_text(output.all_records@[i].mtime, r@[i].1@)
            },
{
    let records = &output.all_records;
    let ghost map = record_map(records@);
    let index = index_records(records);
    let mut cache: HashMap<u64, String> = HashMap::new();
    let mut r: Vec<(String, String)> = Vec::new();
    let mut i: usize = 0;
    while i < records.len() && i < display_limit
        invariant
            i <= records@.len(),
            i <= display_limit,
            records@ == output.all_records@,
            map == record_map(records@),
            gives_records(index@, records@),
            keeps_paths(cache@, map),
            forall|i: int|
                0 <= i < records@.len() && i < display_limit ==> has_path(
                    map,
                    (#[trigger] records@[i]).record_number,
                ),
            r@.len() == i,
            forall|k: int|
                0 <= k < i ==> {
                    &&& is_path(map, records@[k].record_number, (#[trigger] r@[k]).0@)
                    &&& ntfs_time::is_time_text(records@[k].mtime, r@[k].1@)
                },
        decreases records@.len() - i,
    {
        let record: u64 = records[i].record_number;
        assert(has_path(map, records@[i as int].record_number));
        let ghost hops = choose|hops: nat| #[trigger] path_within(map, record, hops) is Some;
        let path = build_path(record, records, &index, &mut cache, Ghost(hops));
        let time = format_ntfs_time(records[i].mtime);
        r.push((path, time));
        i += 1;
    }
    r
}

} // verus!
