//! What a scan of a whole volume lists of the files that the records tell of.

use crate::full_scan;
use crate::full_scan::{DeferredEntry, FullScanModel, ScanRules};
use crate::mft_scan::ScanResult;
use crate::ntfs_time;
use crate::outside;
use crate::search::FileModel;
use crate::text;
use crate::told_changes;
use crate::told_changes::{has_bit, put_together};
use vstd::prelude::*;

verus! {

/// Whether `chain` leads from the root directory, record 5, down through directories that are
/// known: each stands in the one before it.
pub open spec fn is_dir_chain(dirs: Map<u64, (u64, String)>, chain: Seq<u64>) -> bool {
    &&& chain.len() > 0
    &&& chain[0] == 5
    &&& dirs.contains_key(5)
    &&& dirs[5].0 == 5
    &&& dirs[5].1@ == "."@
    &&& forall|i: int|
        1 <= i < chain.len() ==> {
            let record = #[trigger] chain[i];
            &&& record != 0 && record != 5
            &&& dirs.contains_key(record)
            &&& dirs[record].0 == chain[i - 1]
            &&& chain[i - 1] != record
            &&& dirs[record].1@.len() > 0
            &&& dirs[record].1@ != "."@
            &&& dirs[record].1@ != ".."@
        }
}

/// The names of the directories along a chain, without that of the root.
pub open spec fn names_along(dirs: Map<u64, (u64, String)>, chain: Seq<u64>) -> Seq<Seq<char>> {
    chain.drop_first().map_values(|record: u64| dirs[record].1@)
}

proof fn chain_is_followed(dirs: Map<u64, (u64, String)>, chain: Seq<u64>, hops: nat)
    requires
        is_dir_chain(dirs, chain),
        chain.len() <= hops,
    ensures
        full_scan::dir_names(dirs, chain.last(), hops) == Some(names_along(dirs, chain)),
    decreases chain.len(),
{
    let n = chain.len() - 1;
    let record = chain[n];
    if n == 0 {
        assert(names_along(dirs, chain) =~= Seq::<Seq<char>>::empty());
    } else {
        let init = chain.drop_last();
        assert(is_dir_chain(dirs, init)) by {
            assert forall|i: int| 1 <= i < init.len() implies {
                let record = #[trigger] init[i];
                &&& record != 0 && record != 5
                &&& dirs.contains_key(record)
                &&& dirs[record].0 == init[i - 1]
                &&& init[i - 1] != record
                &&& dirs[record].1@.len() > 0
                &&& dirs[record].1@ != "."@
                &&& dirs[record].1@ != ".."@
            } by {
                assert(init[i] == chain[i] && init[i - 1] == chain[i - 1]);
            }
        }
        chain_is_followed(dirs, init, (hops - 1) as nat);
        assert(dirs[record].0 == chain[n - 1]);
        assert(init.last() == chain[n - 1]);
        if n - 1 > 0 {
            assert(chain[n - 1] != 0);
        }
        assert(names_along(dirs, chain) =~= names_along(dirs, init) + seq![dirs[record].1@]);
    }
}

/// The path of a directory is the drive and the names of the directories that lead to it from the
/// root, with a backslash before each; of the root it is the drive alone.
pub proof fn chain_gives_dir_path(dirs: Map<u64, (u64, String)>, drive: char, chain: Seq<u64>)
    requires
        is_dir_chain(dirs, chain),
        chain.len() <= 64,
    ensures
        full_scan::dir_path(dirs, drive, chain.last()) == Some(
            if chain.len() == 1 {
                seq![drive, ':']
            } else {
                seq![drive, ':', '\\'] + put_together(names_along(dirs, chain), '\\')
            },
        ),
{
    if chain.len() > 1 {
        chain_is_followed(dirs, chain, 64);
        told_changes::path_is_put_together(names_along(dirs, chain));
        assert(chain[chain.len() - 1] != 5 && chain[chain.len() - 1] != 0);
    }
}

/// A path is left out just where a name in it is that of the recycle bin, or that of the volume
/// information where system files are not asked for, in letters of either case.
pub proof fn left_out_by_names(names: Seq<Seq<char>>, include_system: bool)
    requires
        names.len() > 0,
        forall|i: int| 0 <= i < names.len() ==> !(#[trigger] names[i]).contains('\\'),
    ensures
        full_scan::is_excluded(put_together(names, '\\'), include_system) <==> exists|i: int|
            0 <= i < names.len() && {
                let name = outside::lowercased(#[trigger] names[i]);
                name == "$recycle.bin"@ || (name == "system volume information"@
                    && !include_system)
            },
        full_scan::is_special(put_together(names, '\\')) <==> exists|i: int|
            0 <= i < names.len() && (#[trigger] names[i]).len() >= 2 && names[i][0] == '$',
{
    told_changes::text_has_its_parts(names, '\\');
    let path = put_together(names, '\\');
    let parts = text::parts(path, '\\');
    if exists|i: int|
        0 <= i < names.len() && {
            let name = outside::lowercased(#[trigger] names[i]);
            name == "$recycle.bin"@ || (name == "system volume information"@ && !include_system)
        } {
        let i = choose|i: int|
            0 <= i < names.len() && {
                let name = outside::lowercased(#[trigger] names[i]);
                name == "$recycle.bin"@ || (name == "system volume information"@
                    && !include_system)
            };
        assert(full_scan::is_excluded_part(parts[i], include_system));
    }
    if full_scan::is_excluded(path, include_system) {
        let i = choose|i: int|
            0 <= i < parts.len() && full_scan::is_excluded_part(#[trigger] parts[i], include_system);
        assert(names[i] == parts[i]);
    }
    if exists|i: int|
        0 <= i < names.len() && (#[trigger] names[i]).len() >= 2 && names[i][0] == '$' {
        let i = choose|i: int|
            0 <= i < names.len() && (#[trigger] names[i]).len() >= 2 && names[i][0] == '$';
        assert(full_scan::is_special_part(parts[i]));
    }
    if full_scan::is_special(path) {
        let i = choose|i: int|
            0 <= i < parts.len() && full_scan::is_special_part(#[trigger] parts[i]);
        assert(names[i] == parts[i]);
    }
}

/// Whether a record tells of a file that a scan lists: it is not one of the first five, its name is
/// an ordinary one, and it is hidden or one of the system only where those are asked for.
pub open spec fn tells_of_file(r: ScanResult, rules: ScanRules) -> bool {
    &&& r.record_number >= 5
    &&& r.name@.len() > 0
    &&& r.name@[0] != '<' && r.name@[0] != '$'
    &&& r.name@ != "."@ && r.name@ != ".."@
    &&& has_bit(r.attributes, 0x2) ==> rules.include_hidden_files
    &&& has_bit(r.attributes, 0x4) ==> rules.include_system_files
}

proof fn listed_by_bits(r: ScanResult, rules: ScanRules)
    ensures
        full_scan::is_listed(r, rules) <==> {
            &&& !(r.name@.len() > 0 && r.name@[0] == '$')
            &&& r.name@ != "."@ && r.name@ != ".."@
            &&& has_bit(r.attributes, 0x2) ==> rules.include_hidden_files
            &&& has_bit(r.attributes, 0x4) ==> rules.include_system_files
        },
{
    let a = r.attributes;
    assert((a & 0x02 != 0 <==> (a / 0x2) % 2 == 1) && (a & 0x04 != 0 <==> (a / 0x4) % 2 == 1))
        by (bit_vector);
}

/// A file whose record comes when its directory is known is listed with its own name, size, number
/// and kind, in its directory, and with its time in seconds since 1970.
pub proof fn told_file_is_listed(
    m: FullScanModel,
    rules: ScanRules,
    r: ScanResult,
    dir: Seq<char>,
    seconds: i32,
    rest: int,
)
    requires
        tells_of_file(r, rules),
        r.parent_record != 0 && r.parent_record != r.record_number,
        ({
            let dirs = if r.is_directory {
                m.dirs.insert(r.record_number, (r.parent_record, r.name))
            } else {
                m.dirs
            };
            full_scan::dir_path(dirs, rules.drive_letter, r.parent_record) == Some(dir)
        }),
        !full_scan::is_excluded(dir.push('\\') + r.name@, rules.include_system_files),
        !full_scan::is_special(dir.push('\\') + r.name@),
        0 <= rest < 10_000_000,
        r.mtime == Some(((seconds + 11_644_473_600) * 10_000_000 + rest) as u64),
    ensures
        m.with_record(rules, r).files == m.files.push(
            FileModel {
                name: r.name@,
                size: r.size,
                path_id: m.table.interned(dir).1,
                file_id: r.record_number as u32,
                modified_time: seconds,
                is_directory: r.is_directory,
            },
        ),
{
    listed_by_bits(r, rules);
    ticks_count_seconds(seconds as int, rest);
    let t = r.mtime->0;
    assert(t as i64 == t as int);
}

/// A file that is hidden or one of the system is not listed where those are not asked for.
pub proof fn left_out_is_not_listed(m: FullScanModel, rules: ScanRules, r: ScanResult)
    requires
        (has_bit(r.attributes, 0x2) && !rules.include_hidden_files) || (has_bit(r.attributes, 0x4)
            && !rules.include_system_files) || r.record_number < 5,
    ensures
        m.with_record(rules, r).files == m.files,
        m.with_record(rules, r).deferred == m.deferred,
{
    listed_by_bits(r, rules);
}

/// Every directory is known from its record on, with its name and the directory that it stands in,
/// so that what comes later finds its way; a file whose directory is not known is put off, and not
/// lost.
pub proof fn directories_become_known(m: FullScanModel, rules: ScanRules, r: ScanResult)
    requires
        tells_of_file(r, rules),
    ensures
        ({
            let after = m.with_record(rules, r);
            &&& r.is_directory ==> after.dirs == m.dirs.insert(
                r.record_number,
                (r.parent_record, r.name),
            )
            &&& !r.is_directory ==> after.dirs == m.dirs
            &&& r.parent_record != 0 && r.parent_record != r.record_number && full_scan::dir_path(
                after.dirs,
                rules.drive_letter,
                r.parent_record,
            ) is None ==> {
                &&& after.files == m.files
                &&& after.deferred.len() == m.deferred.len() + 1
                &&& after.deferred.drop_last() == m.deferred
                &&& after.deferred.last().record_number == r.record_number
                &&& after.deferred.last().parent_record == r.parent_record
                &&& after.deferred.last().name == r.name
                &&& after.deferred.last().size == r.size
                &&& after.deferred.last().is_dir == r.is_directory
            }
        }),
{
    listed_by_bits(r, rules);
    let after = m.with_record(rules, r);
    if after.deferred.len() == m.deferred.len() + 1 {
        assert(after.deferred.drop_last() =~= m.deferred);
    }
}

/// A file that was put off is listed in the end, where its directory became known.
pub proof fn put_off_is_listed(
    m: FullScanModel,
    rules: ScanRules,
    e: DeferredEntry,
    dir: Seq<char>,
)
    requires
        e.parent_record != 0 && e.parent_record != e.record_number,
        full_scan::dir_path(m.dirs, rules.drive_letter, e.parent_record) == Some(dir),
        !full_scan::is_excluded(dir.push('\\') + e.name@, rules.include_system_files),
        !full_scan::is_special(dir.push('\\') + e.name@),
    ensures
        m.with_deferred(rules, seq![e]).files == m.files.push(
            FileModel {
                name: e.name@,
                size: e.size,
                path_id: m.table.interned(dir).1,
                file_id: e.record_number as u32,
                modified_time: e.mtime as i32,
                is_directory: e.is_dir,
            },
        ),
{
    reveal_with_fuel(FullScanModel::with_deferred, 2);
    assert(seq![e].drop_last() =~= seq![]);
}

/// A time of so many seconds since 1970, and a fraction of one, reads as so many seconds.
pub proof fn ticks_count_seconds(seconds: int, rest: int)
    requires
        -11_644_473_600 <= seconds,
        0 <= rest < 10_000_000,
    ensures
        ntfs_time::toward_zero((seconds + 11_644_473_600) * 10_000_000 + rest, 10_000_000)
            - ntfs_time::NTFS_EPOCH_DIFF == seconds,
{
    let s = seconds + 11_644_473_600;
    assert((s * 10_000_000 + rest) / 10_000_000 == s);
}

/// A year has a leap day every four years, but for three in four hundred.
pub proof fn years_have_their_days(year: int)
    requires
        year >= 1601,
    ensures
        ({
            let n = year - 1601;
            ntfs_time::days_before_year(year) == 365 * n + n / 4 - n / 100 + n / 400
        }),
    decreases year,
{
    if year > 1601 {
        years_have_their_days(year - 1);
        let n = year - 1601;
        assert(ntfs_time::is_leap(year - 1) <==> n % 4 == 0 && (n % 100 != 0 || n % 400 == 0));
    }
}

/// Times count from 1601 in the file system, and from 1970 elsewhere: the difference is the days
/// between.
pub proof fn epochs_lie_apart()
    ensures
        ntfs_time::NTFS_EPOCH_DIFF == ntfs_time::days_before_year(1970) * 86400,
{
    years_have_their_days(1970);
}

/// Months have 31 and 30 days by turns, with two long ones in July and August; February is shorter.
pub proof fn months_have_their_days(year: int, month: int)
    requires
        1 <= month <= 12,
    ensures
        month != 2 ==> ntfs_time::month_len(year, month) == 30 + (month + month / 8) % 2,
        ntfs_time::month_len(year, 2) == ntfs_time::year_len(year) - 337,
{
}

/// A file at a place that is known stands at the top where its directory is record 0 or its own.
pub proof fn top_file_has_path(dirs: Map<u64, (u64, String)>, drive: char, e: DeferredEntry)
    ensures
        e.parent_record == 0 || e.parent_record == e.record_number ==> full_scan::place_of(
            dirs,
            drive,
            e,
        ) == Some((seq![drive, ':', '\\'], seq![drive, ':', '\\'] + e.name@)),
        e.parent_record == 5 && e.record_number != 5 ==> full_scan::place_of(dirs, drive, e)
            == Some((seq![drive, ':'], seq![drive, ':', '\\'] + e.name@)),
{
    assert(seq![drive, ':'].push('\\') =~= seq![drive, ':', '\\']);
}

} // verus!
