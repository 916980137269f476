//! What a batch of journal records amounts to: which files are new, gone and changed, and under
//! which paths.

use crate::full_scan;
use crate::full_scan::ScanRules;
use crate::polling;
use crate::polling::{FileMetadata, PollModel};
use crate::search::ResultModel;
use crate::text;
use crate::usn_records::{RawUsnRecord, UsnModel};
use vstd::prelude::*;

verus! {

/// Whether a number has the bit of the given weight.
pub open spec fn has_bit(n: u32, weight: u32) -> bool {
    (n / weight) % 2 == 1
}

/// Whether a reason tells that a file is there under its name from now on: that it was made, or
/// has a new name.
pub open spec fn tells_new(reason: u32) -> bool {
    has_bit(reason, 0x100) || has_bit(reason, 0x2000)
}

/// Whether a reason tells that a file is gone under its name: that it was removed, or had an old
/// name.
pub open spec fn tells_gone(reason: u32) -> bool {
    has_bit(reason, 0x200) || has_bit(reason, 0x1000)
}

/// Whether a reason tells that a file was written, grew, was cut, or has other flags or times.
pub open spec fn tells_changed(reason: u32) -> bool {
    has_bit(reason, 0x1) || has_bit(reason, 0x2) || has_bit(reason, 0x4) || has_bit(reason, 0x8000)
}

/// The bits of a reason mean what the system means by them.
pub proof fn reasons_have_their_bits(reason: u32)
    ensures
        polling::is_new(reason) <==> tells_new(reason),
        polling::is_gone(reason) <==> tells_gone(reason),
        polling::is_changed(reason) <==> tells_changed(reason),
{
    let r = reason;
    assert((r & 0x100 != 0 <==> (r / 0x100) % 2 == 1) && (r & 0x2000 != 0 <==> (r / 0x2000) % 2
        == 1) && (r & 0x200 != 0 <==> (r / 0x200) % 2 == 1) && (r & 0x1000 != 0 <==> (r / 0x1000)
        % 2 == 1) && (r & 0x01 != 0 <==> (r / 0x1) % 2 == 1) && (r & 0x02 != 0 <==> (r / 0x2) % 2
        == 1) && (r & 0x04 != 0 <==> (r / 0x4) % 2 == 1) && (r & 0x8000 != 0 <==> (r / 0x8000) % 2
        == 1)) by (bit_vector);
}

/// Whether a file that is new is listed: its path does not lead to what is left out, it is hidden
/// or one of the system only where those are asked for, and its name does not begin with a dollar
/// sign.
pub open spec fn may_be_listed(rules: ScanRules, rec: UsnModel, path: Seq<char>) -> bool {
    &&& !full_scan::is_excluded(path, rules.include_system_files)
    &&& has_bit(rec.file_attributes, 0x2) ==> rules.include_hidden_files
    &&& has_bit(rec.file_attributes, 0x4) ==> rules.include_system_files
    &&& !(rec.file_name.len() > 0 && rec.file_name[0] == '$')
}

/// What is taken up is what may be listed.
proof fn taken_may_be_listed(rules: ScanRules, rec: UsnModel, path: Seq<char>)
    ensures
        polling::is_taken(rules, rec, path) <==> may_be_listed(rules, rec, path),
{
    crate::journal_layout::flags_have_their_bits(rec);
}

/// Whether a result is that of a record: with the name and the file of the record, the given path,
/// and the size, time and kind that were read.
pub open spec fn is_result_of(
    r: ResultModel,
    rec: UsnModel,
    path: Option<Seq<char>>,
    meta: FileMetadata,
) -> bool {
    &&& r.name == rec.file_name
    &&& path == Some(r.path)
    &&& r.size == meta.size
    &&& r.modified_time == meta.modified_time
    &&& r.file_id == rec.fid as u32
    &&& r.is_directory == meta.is_directory
}

/// What was taken up before a record, and with it.
proof fn one_record_more(
    rules: ScanRules,
    records: Seq<UsnModel>,
    paths: Seq<Option<Seq<char>>>,
    metas: Seq<FileMetadata>,
)
    requires
        records.len() > 0,
    ensures
        ({
            let n = records.len() - 1;
            let a = polling::batch_of(rules, records.drop_last(), paths, metas);
            let b = polling::batch_of(rules, records, paths, metas);
            &&& b == a.with_record(rules, records[n], paths[n], metas[n])
            &&& a.added.len() <= b.added.len() <= a.added.len() + 1
            &&& a.removed.len() <= b.removed.len() <= a.removed.len() + 1
            &&& a.updated.len() <= b.updated.len() <= a.updated.len() + 1
            &&& b.added.take(a.added.len() as int) == a.added
            &&& b.removed.take(a.removed.len() as int) == a.removed
            &&& b.updated.take(a.updated.len() as int) == a.updated
        }),
{
    let n = records.len() - 1;
    let a = polling::batch_of(rules, records.drop_last(), paths, metas);
    let b = polling::batch_of(rules, records, paths, metas);
    assert(b.added.take(a.added.len() as int) =~= a.added);
    assert(b.removed.take(a.removed.len() as int) =~= a.removed);
    assert(b.updated.take(a.updated.len() as int) =~= a.updated);
}

/// Whether the record at place `i` is the first that tells of its file.
pub open spec fn is_first_of_file(records: Seq<UsnModel>, i: int) -> bool {
    &&& 0 <= i < records.len()
    &&& forall|j: int| 0 <= j < i ==> (#[trigger] records[j]).fid != records[i].fid
}

/// A file that no record tells of was not added.
proof fn untold_is_not_added(
    rules: ScanRules,
    records: Seq<UsnModel>,
    paths: Seq<Option<Seq<char>>>,
    metas: Seq<FileMetadata>,
    fid: u64,
)
    requires
        forall|j: int| 0 <= j < records.len() ==> (#[trigger] records[j]).fid != fid,
    ensures
        !polling::batch_of(rules, records, paths, metas).added_fids.contains(fid),
    decreases records.len(),
{
    if records.len() > 0 {
        let init = records.drop_last();
        assert forall|j: int| 0 <= j < init.len() implies (#[trigger] init[j]).fid != fid by {
            assert(init[j] == records[j]);
        }
        untold_is_not_added(rules, init, paths, metas, fid);
        one_record_more(rules, records, paths, metas);
        assert(records[records.len() - 1].fid != fid);
    }
}

/// A file of which the first record tells that it is new is added, with the name and the path that
/// it has, where its path is known and it may be listed.
pub proof fn new_file_is_added(
    rules: ScanRules,
    records: Seq<UsnModel>,
    paths: Seq<Option<Seq<char>>>,
    metas: Seq<FileMetadata>,
    i: int,
)
    requires
        is_first_of_file(records, i),
        tells_new(records[i].reason),
        paths[i] is Some,
        may_be_listed(rules, records[i], paths[i]->0),
    ensures
        exists|k: int|
            #![trigger polling::batch_of(rules, records, paths, metas).added[k]]
            0 <= k < polling::batch_of(rules, records, paths, metas).added.len() && is_result_of(
                polling::batch_of(rules, records, paths, metas).added[k],
                records[i],
                paths[i],
                metas[i],
            ),
    decreases records.len(),
{
    let init = records.drop_last();
    let n = records.len() - 1;
    let a = polling::batch_of(rules, init, paths, metas);
    let b = polling::batch_of(rules, records, paths, metas);
    one_record_more(rules, records, paths, metas);
    if i < n {
        assert(is_first_of_file(init, i)) by {
            assert forall|j: int| 0 <= j < i implies (#[trigger] init[j]).fid != init[i].fid by {
                assert(records[j].fid != records[i].fid);
            }
        }
        new_file_is_added(rules, init, paths, metas, i);
        let k = choose|k: int|
            0 <= k < a.added.len() && is_result_of(
                #[trigger] a.added[k],
                records[i],
                paths[i],
                metas[i],
            );
        assert(b.added.take(a.added.len() as int)[k] == b.added[k]);
        assert(is_result_of(b.added[k], records[i], paths[i], metas[i]));
    } else {
        let rec = records[n];
        assert forall|j: int| 0 <= j < init.len() implies (#[trigger] init[j]).fid != rec.fid by {
            assert(records[j].fid != records[n].fid);
        }
        untold_is_not_added(rules, init, paths, metas, rec.fid);
        reasons_have_their_bits(rec.reason);
        taken_may_be_listed(rules, rec, paths[n]->0);
        assert(a.with_gone(rec, paths[n]).adds(rules, rec, paths[n]));
        let k = a.added.len() as int;
        assert(b.added[k] == polling::result_for(rec, paths[n]->0, metas[n]));
        assert(is_result_of(b.added[k], records[i], paths[i], metas[i]));
    }
}

/// A file that is gone by a record is removed.
pub proof fn gone_file_is_removed(
    rules: ScanRules,
    records: Seq<UsnModel>,
    paths: Seq<Option<Seq<char>>>,
    metas: Seq<FileMetadata>,
    i: int,
)
    requires
        0 <= i < records.len(),
        tells_gone(records[i].reason),
    ensures
        exists|k: int|
            #![trigger polling::batch_of(rules, records, paths, metas).removed[k]]
            0 <= k < polling::batch_of(rules, records, paths, metas).removed.len()
                && polling::batch_of(rules, records, paths, metas).removed[k].0 == records[i].fid,
    decreases records.len(),
{
    let init = records.drop_last();
    let n = records.len() - 1;
    let a = polling::batch_of(rules, init, paths, metas);
    let b = polling::batch_of(rules, records, paths, metas);
    one_record_more(rules, records, paths, metas);
    if i < n {
        assert(init[i] == records[i]);
        gone_file_is_removed(rules, init, paths, metas, i);
        let k = choose|k: int|
            0 <= k < a.removed.len() && (#[trigger] a.removed[k]).0 == records[i].fid;
        assert(b.removed.take(a.removed.len() as int)[k] == b.removed[k]);
        assert(b.removed[k].0 == records[i].fid);
    } else {
        let rec = records[n];
        reasons_have_their_bits(rec.reason);
        if a.removed_fids.contains(rec.fid) {
            noted_is_removed(rules, init, paths, metas, rec.fid);
            let k = choose|k: int|
                0 <= k < a.removed.len() && (#[trigger] a.removed[k]).0 == rec.fid;
            assert(b.removed.take(a.removed.len() as int)[k] == b.removed[k]);
            assert(b.removed[k].0 == rec.fid);
        } else {
            assert(b.removed[a.removed.len() as int].0 == rec.fid);
        }
    }
}

/// A file that is noted as gone is removed.
proof fn noted_is_removed(
    rules: ScanRules,
    records: Seq<UsnModel>,
    paths: Seq<Option<Seq<char>>>,
    metas: Seq<FileMetadata>,
    fid: u64,
)
    requires
        polling::batch_of(rules, records, paths, metas).removed_fids.contains(fid),
    ensures
        exists|k: int|
            #![trigger polling::batch_of(rules, records, paths, metas).removed[k]]
            0 <= k < polling::batch_of(rules, records, paths, metas).removed.len()
                && polling::batch_of(rules, records, paths, metas).removed[k].0 == fid,
    decreases records.len(),
{
    if records.len() > 0 {
        let init = records.drop_last();
        let n = records.len() - 1;
        let a = polling::batch_of(rules, init, paths, metas);
        let b = polling::batch_of(rules, records, paths, metas);
        one_record_more(rules, records, paths, metas);
        if a.removed_fids.contains(fid) {
            noted_is_removed(rules, init, paths, metas, fid);
            let k = choose|k: int| 0 <= k < a.removed.len() && (#[trigger] a.removed[k]).0 == fid;
            assert(b.removed.take(a.removed.len() as int)[k] == b.removed[k]);
            assert(b.removed[k].0 == fid);
        } else {
            assert(b.removed[a.removed.len() as int].0 == fid);
        }
    }
}

/// A file that changed by a record, which does not tell that it is new, is told of as changed, with
/// the size, time and kind that were read, where its path is known.
pub proof fn changed_file_is_updated(
    rules: ScanRules,
    records: Seq<UsnModel>,
    paths: Seq<Option<Seq<char>>>,
    metas: Seq<FileMetadata>,
    i: int,
)
    requires
        0 <= i < records.len(),
        tells_changed(records[i].reason),
        !tells_new(records[i].reason),
        paths[i] is Some,
    ensures
        exists|k: int|
            #![trigger polling::batch_of(rules, records, paths, metas).updated[k]]
            0 <= k < polling::batch_of(rules, records, paths, metas).updated.len() && {
                let told = polling::batch_of(rules, records, paths, metas).updated[k];
                told.0 == records[i].fid && is_result_of(told.1, records[i], paths[i], metas[i])
            },
    decreases records.len(),
{
    let init = records.drop_last();
    let n = records.len() - 1;
    let a = polling::batch_of(rules, init, paths, metas);
    let b = polling::batch_of(rules, records, paths, metas);
    one_record_more(rules, records, paths, metas);
    if i < n {
        assert(init[i] == records[i]);
        changed_file_is_updated(rules, init, paths, metas, i);
        let k = choose|k: int|
            0 <= k < a.updated.len() && {
                let told = #[trigger] a.updated[k];
                told.0 == records[i].fid && is_result_of(told.1, records[i], paths[i], metas[i])
            };
        assert(b.updated.take(a.updated.len() as int)[k] == b.updated[k]);
        assert(is_result_of(b.updated[k].1, records[i], paths[i], metas[i]));
    } else {
        let rec = records[n];
        reasons_have_their_bits(rec.reason);
        let k = a.updated.len() as int;
        assert(b.updated[k] == (rec.fid, polling::result_for(rec, paths[n]->0, metas[n])));
        assert(is_result_of(b.updated[k].1, records[i], paths[i], metas[i]));
    }
}

/// Whether one of the records tells that a file is new, which may be listed, and that is added so.
pub open spec fn is_told_new(
    rules: ScanRules,
    records: Seq<UsnModel>,
    paths: Seq<Option<Seq<char>>>,
    metas: Seq<FileMetadata>,
    added: ResultModel,
) -> bool {
    exists|i: int|
        0 <= i < records.len() && tells_new((#[trigger] records[i]).reason) && may_be_listed(
            rules,
            records[i],
            added.path,
        ) && is_result_of(added, records[i], paths[i], metas[i])
}

/// Whether one of the records tells that a file is gone, and has its path, where it is known.
pub open spec fn is_told_gone(
    records: Seq<UsnModel>,
    paths: Seq<Option<Seq<char>>>,
    removed: (u64, Seq<char>),
) -> bool {
    exists|i: int|
        0 <= i < records.len() && tells_gone((#[trigger] records[i]).reason) && records[i].fid
            == removed.0 && (paths[i] == Some(removed.1) || (paths[i] is None && removed.1.len()
            == 0))
}

/// Whether one of the records tells that a file changed so.
pub open spec fn is_told_changed(
    records: Seq<UsnModel>,
    paths: Seq<Option<Seq<char>>>,
    metas: Seq<FileMetadata>,
    updated: (u64, ResultModel),
) -> bool {
    exists|i: int|
        0 <= i < records.len() && tells_changed((#[trigger] records[i]).reason) && records[i].fid
            == updated.0 && is_result_of(updated.1, records[i], paths[i], metas[i])
}

/// Whether what a batch tells comes from its records: each file that is added from a record that
/// tells that it is new and may be listed, each that is removed from one that tells that it is
/// gone, and each that is changed from one that tells so.
pub open spec fn comes_from_records(
    rules: ScanRules,
    records: Seq<UsnModel>,
    paths: Seq<Option<Seq<char>>>,
    metas: Seq<FileMetadata>,
    b: PollModel,
) -> bool {
    &&& forall|k: int|
        0 <= k < b.added.len() ==> is_told_new(rules, records, paths, metas, #[trigger] b.added[k])
    &&& forall|k: int|
        0 <= k < b.removed.len() ==> is_told_gone(records, paths, #[trigger] b.removed[k])
    &&& forall|k: int|
        0 <= k < b.updated.len() ==> is_told_changed(records, paths, metas, #[trigger] b.updated[k])
}

/// What some of the records tell, all of them tell.
proof fn more_records_tell(
    rules: ScanRules,
    records: Seq<UsnModel>,
    paths: Seq<Option<Seq<char>>>,
    metas: Seq<FileMetadata>,
)
    requires
        records.len() > 0,
    ensures
        forall|r: ResultModel|
            is_told_new(rules, records.drop_last(), paths, metas, r) ==> #[trigger] is_told_new(
                rules,
                records,
                paths,
                metas,
                r,
            ),
        forall|r: (u64, Seq<char>)|
            is_told_gone(records.drop_last(), paths, r) ==> #[trigger] is_told_gone(
                records,
                paths,
                r,
            ),
        forall|r: (u64, ResultModel)|
            is_told_changed(records.drop_last(), paths, metas, r) ==> #[trigger] is_told_changed(
                records,
                paths,
                metas,
                r,
            ),
{
    let init = records.drop_last();
    assert forall|r: ResultModel| is_told_new(rules, init, paths, metas, r) implies #[trigger]
        is_told_new(rules, records, paths, metas, r) by {
        let i = choose|i: int|
            0 <= i < init.len() && tells_new((#[trigger] init[i]).reason) && may_be_listed(
                rules,
                init[i],
                r.path,
            ) && is_result_of(r, init[i], paths[i], metas[i]);
        assert(records[i] == init[i]);
    }
    assert forall|r: (u64, Seq<char>)| is_told_gone(init, paths, r) implies #[trigger]
        is_told_gone(records, paths, r) by {
        let i = choose|i: int|
            0 <= i < init.len() && tells_gone((#[trigger] init[i]).reason) && init[i].fid == r.0
                && (paths[i] == Some(r.1) || (paths[i] is None && r.1.len() == 0));
        assert(records[i] == init[i]);
    }
    assert forall|r: (u64, ResultModel)| is_told_changed(init, paths, metas, r) implies #[trigger]
        is_told_changed(records, paths, metas, r) by {
        let i = choose|i: int|
            0 <= i < init.len() && tells_changed((#[trigger] init[i]).reason) && init[i].fid == r.0
                && is_result_of(r.1, init[i], paths[i], metas[i]);
        assert(records[i] == init[i]);
    }
}

/// What a batch tells comes from its records: nothing is new, gone or changed that no record tells
/// of.
pub proof fn batch_comes_from_records(
    rules: ScanRules,
    records: Seq<UsnModel>,
    paths: Seq<Option<Seq<char>>>,
    metas: Seq<FileMetadata>,
)
    ensures
        comes_from_records(
            rules,
            records,
            paths,
            metas,
            polling::batch_of(rules, records, paths, metas),
        ),
    decreases records.len(),
{
    if records.len() > 0 {
        let init = records.drop_last();
        let n = records.len() - 1;
        let rec = records[n];
        let a = polling::batch_of(rules, init, paths, metas);
        let b = polling::batch_of(rules, records, paths, metas);
        batch_comes_from_records(rules, init, paths, metas);
        more_records_tell(rules, records, paths, metas);
        one_record_more(rules, records, paths, metas);
        reasons_have_their_bits(rec.reason);
        assert forall|k: int| 0 <= k < b.added.len() implies is_told_new(
            rules,
            records,
            paths,
            metas,
            #[trigger] b.added[k],
        ) by {
            if k < a.added.len() {
                assert(b.added.take(a.added.len() as int)[k] == b.added[k]);
                assert(is_told_new(rules, init, paths, metas, a.added[k]));
            } else {
                taken_may_be_listed(rules, rec, paths[n]->0);
                assert(is_result_of(b.added[k], records[n], paths[n], metas[n]));
            }
        }
        assert forall|k: int| 0 <= k < b.removed.len() implies is_told_gone(
            records,
            paths,
            #[trigger] b.removed[k],
        ) by {
            if k < a.removed.len() {
                assert(b.removed.take(a.removed.len() as int)[k] == b.removed[k]);
                assert(is_told_gone(init, paths, a.removed[k]));
            } else {
                assert(tells_gone(records[n].reason));
            }
        }
        assert forall|k: int| 0 <= k < b.updated.len() implies is_told_changed(
            records,
            paths,
            metas,
            #[trigger] b.updated[k],
        ) by {
            if k < a.updated.len() {
                assert(b.updated.take(a.updated.len() as int)[k] == b.updated[k]);
                assert(is_told_changed(init, paths, metas, a.updated[k]));
            } else {
                assert(is_result_of(b.updated[k].1, records[n], paths[n], metas[n]));
            }
        }
    }
}

/// The parts of a text between separators, put together with the separators, are the text.
pub open spec fn put_together(parts: Seq<Seq<char>>, c: char) -> Seq<char>
    decreases parts.len(),
{
    if parts.len() == 0 {
        seq![]
    } else if parts.len() == 1 {
        parts[0]
    } else {
        put_together(parts.drop_last(), c).push(c) + parts.last()
    }
}

/// The parts of a text between separators hold no separator, and make up the text with separators
/// between them.
pub proof fn parts_make_text(s: Seq<char>, c: char)
    ensures
        text::parts(s, c).len() > 0,
        put_together(text::parts(s, c), c) == s,
        forall|i: int|
            0 <= i < text::parts(s, c).len() ==> !(#[trigger] text::parts(s, c)[i]).contains(c),
    decreases s.len(),
{
    let all = text::parts(s, c);
    if s.len() == 0 {
        assert(all =~= seq![Seq::<char>::empty()]);
        assert(put_together(all, c) =~= s);
    } else {
        let init = s.drop_last();
        let before = text::parts(init, c);
        parts_make_text(init, c);
        assert(s =~= init.push(s.last()));
        if s.last() == c {
            assert(all.drop_last() =~= before);
            assert(put_together(all, c) =~= s);
        } else {
            let last = before.last();
            assert(before[before.len() - 1] == last);
            assert(all.drop_last() =~= before.drop_last());
            assert(all.last() == last.push(s.last()));
            if before.len() == 1 {
                assert(put_together(all, c) =~= s);
            } else {
                assert(put_together(all, c) =~= s);
            }
            assert(!all.last().contains(c)) by {
                if all.last().contains(c) {
                    let k = choose|k: int| 0 <= k < all.last().len() && all.last()[k] == c;
                    if k < last.len() {
                        assert(last[k] == c);
                    }
                }
            }
            assert forall|i: int| 0 <= i < all.len() implies !(#[trigger] all[i]).contains(c) by {
                if i < all.len() - 1 {
                    assert(all[i] == before[i]);
                }
            }
        }
    }
}

/// Parts without separators come out as they went in.
pub proof fn text_has_its_parts(names: Seq<Seq<char>>, c: char)
    requires
        names.len() > 0,
        forall|i: int| 0 <= i < names.len() ==> !(#[trigger] names[i]).contains(c),
    ensures
        text::parts(put_together(names, c), c) == names,
    decreases names.len(),
{
    if names.len() == 1 {
        let none = Seq::<char>::empty();
        assert(text::parts(none, c) =~= seq![none]);
        assert(none + names[0] =~= names[0]);
        one_part_more(none, names[0], c);
        assert(seq![none].drop_last().push(none + names[0]) =~= names);
    } else {
        let init = names.drop_last();
        assert forall|i: int| 0 <= i < init.len() implies !(#[trigger] init[i]).contains(c) by {
            assert(init[i] == names[i]);
        }
        text_has_its_parts(init, c);
        let before = put_together(init, c).push(c);
        assert(before.drop_last() =~= put_together(init, c));
        assert(!names[names.len() - 1].contains(c));
        one_part_more(before, names.last(), c);
        let none = Seq::<char>::empty();
        assert(text::parts(before, c) =~= init.push(none));
        assert(none + names.last() =~= names.last());
        assert(init.push(none).drop_last().push(none + names.last()) =~= names);
    }
}

/// What holds no separator goes on with the last part.
proof fn one_part_more(s: Seq<char>, w: Seq<char>, c: char)
    requires
        !w.contains(c),
    ensures
        text::parts(s, c).len() > 0,
        text::parts(s + w, c) == text::parts(s, c).drop_last().push(text::parts(s, c).last() + w),
    decreases w.len(),
{
    let before = text::parts(s, c);
    parts_make_text(s, c);
    if w.len() == 0 {
        assert(s + w =~= s);
        assert(before.last() + w =~= before.last());
        assert(before.drop_last().push(before.last()) =~= before);
    } else {
        let init = w.drop_last();
        assert(!init.contains(c)) by {
            if init.contains(c) {
                let k = choose|k: int| 0 <= k < init.len() && init[k] == c;
                assert(w[k] == c);
            }
        }
        one_part_more(s, init, c);
        assert((s + w).drop_last() =~= s + init);
        assert((s + w).last() == w[w.len() - 1]);
        let middle = before.drop_last().push(before.last() + init);
        assert(middle.drop_last() =~= before.drop_last());
        assert((before.last() + init).push(w.last()) =~= before.last() + w);
    }
}

/// Names that are joined to a path are put together with backslashes.
pub proof fn path_is_put_together(names: Seq<Seq<char>>)
    ensures
        full_scan::joined(names) == put_together(names, '\\'),
    decreases names.len(),
{
    if names.len() > 1 {
        path_is_put_together(names.drop_last());
    }
}

/// Whether `chain` leads from the top to a file by what the records of a batch tell: each stands in
/// the one before it, the first in nothing that is known, and all have ordinary names.
pub open spec fn is_chain(
    parents: Map<u64, u64>,
    names: Map<u64, String>,
    chain: Seq<u64>,
) -> bool {
    &&& chain.len() > 0
    &&& forall|i: int|
        0 <= i < chain.len() ==> {
            let fid = #[trigger] chain[i];
            &&& names.contains_key(fid)
            &&& names[fid]@.len() > 0
            &&& names[fid]@[0] != '$'
            &&& names[fid]@ != "."@
            &&& names[fid]@ != ".."@
        }
    &&& forall|i: int|
        1 <= i < chain.len() ==> {
            let fid = #[trigger] chain[i];
            &&& parents.contains_key(fid)
            &&& parents[fid] == chain[i - 1]
            &&& chain[i - 1] != fid
            &&& chain[i - 1] != 0
        }
    &&& !parents.contains_key(chain[0]) || parents[chain[0]] == chain[0] || parents[chain[0]] == 0
}

/// The names along a chain.
pub open spec fn chain_names(names: Map<u64, String>, chain: Seq<u64>) -> Seq<Seq<char>> {
    chain.map_values(|fid: u64| names[fid]@)
}

proof fn chain_is_followed(
    parents: Map<u64, u64>,
    names: Map<u64, String>,
    chain: Seq<u64>,
    hops: nat,
)
    requires
        is_chain(parents, names, chain),
        chain.len() <= hops,
    ensures
        polling::batch_names(parents, names, chain.last(), hops) == chain_names(names, chain),
    decreases chain.len(),
{
    let n = chain.len() - 1;
    let fid = chain[n];
    let own = seq![names[fid]@];
    if n == 0 {
        assert(polling::batch_names(parents, names, fid, hops) =~= chain_names(names, chain));
    } else {
        let init = chain.drop_last();
        assert(is_chain(parents, names, init)) by {
            assert forall|i: int| 0 <= i < init.len() implies {
                let fid = #[trigger] init[i];
                &&& names.contains_key(fid)
                &&& names[fid]@.len() > 0
                &&& names[fid]@[0] != '$'
                &&& names[fid]@ != "."@
                &&& names[fid]@ != ".."@
            } by {
                assert(init[i] == chain[i]);
            }
            assert forall|i: int| 1 <= i < init.len() implies {
                let fid = #[trigger] init[i];
                &&& parents.contains_key(fid)
                &&& parents[fid] == init[i - 1]
                &&& init[i - 1] != fid
                &&& init[i - 1] != 0
            } by {
                assert(init[i] == chain[i] && init[i - 1] == chain[i - 1]);
            }
        }
        chain_is_followed(parents, names, init, (hops - 1) as nat);
        assert(parents[fid] == chain[n - 1]);
        assert(init.last() == chain[n - 1]);
        assert(polling::batch_names(parents, names, fid, hops) =~= chain_names(names, chain));
    }
}

/// The path of a file by the changes of one batch is its drive and the names along the chain of
/// directories that leads to it, with a backslash before each.
pub proof fn chain_gives_path(
    parents: Map<u64, u64>,
    names: Map<u64, String>,
    drive: char,
    chain: Seq<u64>,
)
    requires
        is_chain(parents, names, chain),
        chain.len() <= 50,
    ensures
        polling::batch_path(parents, names, drive, chain.last()) == Some(
            seq![drive, ':', '\\'] + put_together(chain_names(names, chain), '\\'),
        ),
{
    chain_is_followed(parents, names, chain, 50);
    path_is_put_together(chain_names(names, chain));
}

/// The name and the directory of a file are those of the last record that tells of it.
pub proof fn last_record_names(records: Seq<RawUsnRecord>, i: int)
    requires
        0 <= i < records.len(),
        forall|j: int| i < j < records.len() ==> (#[trigger] records[j]).fid != records[i].fid,
    ensures
        polling::names_of(records).contains_key(records[i].fid),
        polling::names_of(records)[records[i].fid] == records[i].file_name,
        polling::parents_of(records).contains_key(records[i].fid),
        polling::parents_of(records)[records[i].fid] == records[i].parent_fid,
    decreases records.len(),
{
    let init = records.drop_last();
    if i < init.len() {
        assert(records[records.len() - 1].fid != records[i].fid);
        assert forall|j: int| i < j < init.len() implies (#[trigger] init[j]).fid != init[i].fid by {
            assert(init[j] == records[j]);
        }
        last_record_names(init, i);
    }
}

/// A file that no record tells of has no name and no directory in a batch.
pub proof fn untold_has_no_name(records: Seq<RawUsnRecord>, fid: u64)
    requires
        forall|j: int| 0 <= j < records.len() ==> (#[trigger] records[j]).fid != fid,
    ensures
        !polling::names_of(records).contains_key(fid),
        !polling::parents_of(records).contains_key(fid),
    decreases records.len(),
{
    if records.len() > 0 {
        let init = records.drop_last();
        assert(records[records.len() - 1].fid != fid);
        assert forall|j: int| 0 <= j < init.len() implies (#[trigger] init[j]).fid != fid by {
            assert(init[j] == records[j]);
        }
        untold_has_no_name(init, fid);
    }
}

} // verus!
