//! Following a volume by its change journal: where to read on, what the changes amount
//! to, and how the journal is made ready.

use crate::full_scan;
use crate::full_scan::{should_skip_path, ScanRules};
use crate::rows;
use crate::search::{ResultModel, SearchResult};
use crate::text::same_text;
use crate::usn_records::{RawUsnRecord, UsnModel};
use crate::usn_types::UsnResponse;
use std::collections::{HashMap, HashSet};
use vstd::prelude::*;

verus! {

broadcast use {
    vstd::string::group_string_axioms,
    vstd::std_specs::hash::group_hash_axioms,
};

/// How many directories a path is followed up.
pub const MAX_BATCH_PARENTS: usize = 50;

/// After how many seconds the place in the journal is saved again.
pub const SAVE_INTERVAL_SECS: u64 = 3600;

/// Where a poll begins to read: at the place that was read last, but not before the first
/// record that is still there, nor behind the last one.
pub open spec fn start_of(last: i64, lowest: i64, next: i64) -> int {
    rows::least(rows::most(last as int, lowest as int), next as int)
}

/// Where a poll begins to read; nothing where there is nothing new.
pub fn poll_start(last: i64, lowest: i64, next: i64) -> (r: Option<i64>)
    ensures
        match r {
            Some(start) => start == start_of(last, lowest, next) && start < next,
            None => start_of(last, lowest, next) >= next,
        },
{
    let from: i64 = if last > lowest {
        last
    } else {
        lowest
    };
    if from >= next {
        None
    } else {
        Some(from)
    }
}

/// A poll begins between the first record and the last, as near to the place that was read last as
/// can be.
pub proof fn start_is_valid(last: i64, lowest: i64, next: i64)
    requires
        lowest <= next,
    ensures
        lowest <= start_of(last, lowest, next) <= next,
        lowest <= last <= next ==> start_of(last, lowest, next) == last,
        last < lowest ==> start_of(last, lowest, next) == lowest,
        last > next ==> start_of(last, lowest, next) == next,
{
}

/// Whether the place in the journal is saved after a poll: it moved on, and was not saved
/// for long.
pub fn save_due(new_last: i64, last: i64, secs_since_save: u64) -> (r: bool)
    ensures
        r == (new_last > last && secs_since_save >= SAVE_INTERVAL_SECS),
{
    new_last > last && secs_since_save >= SAVE_INTERVAL_SECS
}

/// The names of a file and of the directories above it, from the top down, by the changes
/// of one batch, up to `hops` of them. Names that lead nowhere and special ones are left
/// out.
pub open spec fn batch_names(
    parents: Map<u64, u64>,
    names: Map<u64, String>,
    fid: u64,
    hops: nat,
) -> Seq<Seq<char>>
    decreases hops,
{
    if hops == 0 {
        seq![]
    } else {
        let own = if names.contains_key(fid) && names[fid]@ != "."@ && names[fid]@ != ".."@ && !(
        names[fid]@.len() > 0 && names[fid]@[0] == '$') {
            seq![names[fid]@]
        } else {
            seq![]
        };
        if parents.contains_key(fid) && parents[fid] != fid && parents[fid] != 0 {
            batch_names(parents, names, parents[fid], (hops - 1) as nat) + own
        } else {
            own
        }
    }
}

/// The path of a file by the changes of one batch; none where no name is left.
pub open spec fn batch_path(
    parents: Map<u64, u64>,
    names: Map<u64, String>,
    drive: char,
    fid: u64,
) -> Option<Seq<char>> {
    let found = batch_names(parents, names, fid, MAX_BATCH_PARENTS as nat);
    if found.len() == 0 {
        None
    } else {
        Some(seq![drive, ':', '\\'] + full_scan::joined(found))
    }
}

/// Texts from the last to the first.
spec fn upward(names: Seq<&String>) -> Seq<Seq<char>> {
    Seq::new(names.len(), |i: int| names[names.len() - 1 - i]@)
}

/// The path of a file by the changes of one batch.
pub fn resolve_path_from_batch(
    fid: u64,
    parent_map: &HashMap<u64, u64>,
    name_map: &HashMap<u64, String>,
    drive_letter: char,
) -> (r: Option<String>)
    ensures
        match batch_path(parent_map@, name_map@, drive_letter, fid) {
            Some(path) => r matches Some(p) && p@ == path,
            None => r is None,
        },
{
    let mut names: Vec<&String> = Vec::new();
    let mut cur: u64 = fid;
    let mut hop: usize = 0;
    let ghost whole = batch_names(parent_map@, name_map@, fid, MAX_BATCH_PARENTS as nat);
    assert(whole + upward(names@) =~= whole);
    while hop < MAX_BATCH_PARENTS
        invariant_except_break
            hop <= MAX_BATCH_PARENTS,
            whole == batch_names(
                parent_map@,
                name_map@,
                cur,
                (MAX_BATCH_PARENTS - hop) as nat,
            ) + upward(names@),
        ensures
            whole == upward(names@),
        decreases MAX_BATCH_PARENTS - hop,
    {
        let ghost before = names@;
        let ghost rest = batch_names(
            parent_map@,
            name_map@,
            cur,
            (MAX_BATCH_PARENTS - hop) as nat,
        );
        assert(upward(names@) =~= Seq::<Seq<char>>::empty() + upward(before));
        if let Some(name) = name_map.get(&cur) {
            let n = name.as_str();
            if !same_text(n, ".") && !same_text(n, "..") && !(n.unicode_len() > 0 && n.get_char(0)
                == '$') {
                names.push(name);
                assert(upward(names@) =~= seq![name@] + upward(before));
            }
        }
        let parent: u64 = match parent_map.get(&cur) {
            Some(p) => *p,
            None => 0,
        };
        if parent == cur || parent == 0 {
            assert(rest + upward(before) =~= upward(names@));
            break ;
        }
        assert(rest + upward(before) =~= batch_names(
            parent_map@,
            name_map@,
            parent,
            (MAX_BATCH_PARENTS - hop - 1) as nat,
        ) + upward(names@));
        cur = parent;
        hop += 1;
        proof {
            if hop == MAX_BATCH_PARENTS {
                assert(batch_names(parent_map@, name_map@, cur, 0) + upward(names@) =~= upward(
                    names@,
                ));
            }
        }
    }
    if names.len() == 0 {
        return None;
    }
    let mut path = String::new();
    path.push(drive_letter);
    path.push(':');
    path.push('\\');
    let ghost start = path@;
    assert(start =~= seq![drive_letter, ':', '\\']);
    let n: usize = names.len();
    let mut i: usize = 0;
    assert(whole.take(0) =~= seq![]);
    assert(path@ =~= start + full_scan::joined(whole.take(0)));
    while i < n
        invariant
            i <= n,
            n == names@.len(),
            whole == upward(names@),
            path@ == start + full_scan::joined(whole.take(i as int)),
        decreases n - i,
    {
        proof {
            let step = whole.take(i + 1);
            assert(step.drop_last() =~= whole.take(i as int));
            assert(step.last() == names@[n - 1 - i]@);
        }
        if i > 0 {
            path.push('\\');
        }
        path.append(names[n - 1 - i].as_str());
        assert(path@ =~= start + full_scan::joined(whole.take(i + 1)));
        i += 1;
    }
    assert(whole.take(n as int) =~= whole);
    Some(path)
}

/// Size, time and kind of a file.
#[derive(Clone, Copy, Debug, PartialEq, Eq, Structural)]
pub struct FileMetadata {
    pub size: u64,
    pub modified_time: i64,
    pub is_directory: bool,
}

/// A file was made.
pub const USN_REASON_FILE_CREATE: u32 = 0x100;

/// A file was removed.
pub const USN_REASON_FILE_DELETE: u32 = 0x200;

/// A file had this name before it was renamed.
pub const USN_REASON_RENAME_OLD_NAME: u32 = 0x1000;

/// A file has this name since it was renamed.
pub const USN_REASON_RENAME_NEW_NAME: u32 = 0x2000;

/// The contents of a file were written.
pub const USN_REASON_DATA_OVERWRITE: u32 = 0x01;

/// A file grew.
pub const USN_REASON_DATA_EXTEND: u32 = 0x02;

/// A file was cut.
pub const USN_REASON_DATA_TRUNCATION: u32 = 0x04;

/// The flags or times of a file were changed.
pub const USN_REASON_BASIC_INFO_CHANGE: u32 = 0x8000;

/// Whether a file is gone under its name.
pub open spec fn is_gone(reason: u32) -> bool {
    reason & USN_REASON_FILE_DELETE != 0 || reason & USN_REASON_RENAME_OLD_NAME != 0
}

/// Whether a file is there under its name from now on.
pub open spec fn is_new(reason: u32) -> bool {
    reason & USN_REASON_FILE_CREATE != 0 || reason & USN_REASON_RENAME_NEW_NAME != 0
}

/// Whether what is told of a file changed: its contents, its size, its flags or its times.
pub open spec fn is_changed(reason: u32) -> bool {
    ||| reason & USN_REASON_DATA_OVERWRITE != 0
    ||| reason & USN_REASON_DATA_EXTEND != 0
    ||| reason & USN_REASON_DATA_TRUNCATION != 0
    ||| reason & USN_REASON_BASIC_INFO_CHANGE != 0
}

/// Whether what is told of a file changed.
fn tells_of_change(reason: u32) -> (r: bool)
    ensures
        r == is_changed(reason),
{
    reason & USN_REASON_DATA_OVERWRITE != 0 || reason & USN_REASON_DATA_EXTEND != 0 || reason
        & USN_REASON_DATA_TRUNCATION != 0 || reason & USN_REASON_BASIC_INFO_CHANGE != 0
}

/// What a batch of changes amounts to so far.
#[verifier::ext_equal]
pub struct PollModel {
    pub added: Seq<ResultModel>,
    pub removed: Seq<(u64, Seq<char>)>,
    pub updated: Seq<(u64, ResultModel)>,
    /// The files that were added, unless they are gone since.
    pub added_fids: Set<u64>,
    pub removed_fids: Set<u64>,
}

/// The result for a changed file.
pub open spec fn result_for(rec: UsnModel, path: Seq<char>, meta: FileMetadata) -> ResultModel {
    ResultModel {
        name: rec.file_name,
        path,
        size: meta.size,
        modified_time: meta.modified_time,
        file_id: rec.fid as u32,
        is_directory: meta.is_directory,
    }
}

/// Whether a file that is new at `path` is taken up.
pub open spec fn is_taken(rules: ScanRules, rec: UsnModel, path: Seq<char>) -> bool {
    &&& !full_scan::is_excluded(path, rules.include_system_files)
    &&& rules.include_hidden_files || !rec.is_hidden()
    &&& rules.include_system_files || !rec.is_system()
    &&& !(rec.file_name.len() > 0 && rec.file_name[0] == '$')
}

impl PollModel {
    /// With a file noted as gone, once, under the path that is known of it. It can be new
    /// again after that.
    pub open spec fn with_gone(self, rec: UsnModel, path: Option<Seq<char>>) -> PollModel {
        if is_gone(rec.reason) {
            PollModel {
                removed: if self.removed_fids.contains(rec.fid) {
                    self.removed
                } else {
                    self.removed.push(
                        (
                            rec.fid,
                            match path {
                                Some(p) => p,
                                None => seq![],
                            },
                        ),
                    )
                },
                removed_fids: self.removed_fids.insert(rec.fid),
                added_fids: self.added_fids.remove(rec.fid),
                ..self
            }
        } else {
            self
        }
    }

    /// Whether a file that is new is added: it was not yet, its path is known, and it is
    /// taken up.
    pub open spec fn adds(self, rules: ScanRules, rec: UsnModel, path: Option<Seq<char>>) -> bool {
        &&& !self.added_fids.contains(rec.fid)
        &&& path matches Some(p)
        &&& is_taken(rules, rec, p)
    }

    /// With a file that is new added.
    pub open spec fn with_new(
        self,
        rules: ScanRules,
        rec: UsnModel,
        path: Option<Seq<char>>,
        meta: FileMetadata,
    ) -> PollModel {
        PollModel {
            added: if self.adds(rules, rec, path) {
                self.added.push(result_for(rec, path->0, meta))
            } else {
                self.added
            },
            added_fids: self.added_fids.insert(rec.fid),
            ..self
        }
    }

    /// With a change taken up. A file that is new but not added is not noted as changed
    /// either.
    pub open spec fn with_record(
        self,
        rules: ScanRules,
        rec: UsnModel,
        path: Option<Seq<char>>,
        meta: FileMetadata,
    ) -> PollModel {
        let gone = self.with_gone(rec, path);
        let came = if is_new(rec.reason) {
            gone.with_new(rules, rec, path, meta)
        } else {
            gone
        };
        if is_changed(rec.reason) && path is Some && (is_new(rec.reason) ==> gone.adds(
            rules,
            rec,
            path,
        )) {
            PollModel {
                updated: came.updated.push((rec.fid, result_for(rec, path->0, meta))),
                ..came
            }
        } else {
            came
        }
    }

    /// Whether size, time and kind of the file are needed to take up a change.
    pub open spec fn needs_metadata(
        self,
        rules: ScanRules,
        rec: UsnModel,
        path: Option<Seq<char>>,
    ) -> bool {
        if is_new(rec.reason) {
            self.with_gone(rec, path).adds(rules, rec, path)
        } else {
            is_changed(rec.reason) && path is Some
        }
    }
}

/// A batch of changes that is being taken up.
pub struct PollBatch {
    pub rules: ScanRules,
    pub parents: HashMap<u64, u64>,
    pub names: HashMap<u64, String>,
    pub added: Vec<SearchResult>,
    pub removed: Vec<(u64, String)>,
    pub updated: Vec<(u64, SearchResult)>,
    pub added_fids: HashSet<u64>,
    pub removed_fids: HashSet<u64>,
}

/// The models of removed files.
pub open spec fn removed_models(v: Seq<(u64, String)>) -> Seq<(u64, Seq<char>)> {
    v.map_values(|r: (u64, String)| (r.0, r.1@))
}

/// The models of changed files.
pub open spec fn updated_models(v: Seq<(u64, SearchResult)>) -> Seq<(u64, ResultModel)> {
    v.map_values(|u: (u64, SearchResult)| (u.0, u.1@))
}

impl View for PollBatch {
    type V = PollModel;

    open spec fn view(&self) -> PollModel {
        PollModel {
            added: rows::result_models(self.added@),
            removed: removed_models(self.removed@),
            updated: updated_models(self.updated@),
            added_fids: self.added_fids@,
            removed_fids: self.removed_fids@,
        }
    }
}

/// The directories of the files of a batch; of several changes of a file the last counts.
pub open spec fn parents_of(records: Seq<RawUsnRecord>) -> Map<u64, u64>
    decreases records.len(),
{
    if records.len() == 0 {
        Map::empty()
    } else {
        parents_of(records.drop_last()).insert(records.last().fid, records.last().parent_fid)
    }
}

/// The names of the files of a batch; of several changes of a file the last counts.
pub open spec fn names_of(records: Seq<RawUsnRecord>) -> Map<u64, String>
    decreases records.len(),
{
    if records.len() == 0 {
        Map::empty()
    } else {
        names_of(records.drop_last()).insert(records.last().fid, records.last().file_name)
    }
}

impl PollBatch {
    /// A batch of which nothing is taken up yet.
    pub fn new(rules: ScanRules, records: &Vec<RawUsnRecord>) -> (r: Self)
        ensures
            r.rules == rules,
            r.parents@ == parents_of(records@),
            r.names@ == names_of(records@),
            r@ == (PollModel {
                added: seq![],
                removed: seq![],
                updated: seq![],
                added_fids: Set::empty(),
                removed_fids: Set::empty(),
            }),
    {
        let mut parents: HashMap<u64, u64> = HashMap::new();
        let mut names: HashMap<u64, String> = HashMap::new();
        let mut i: usize = 0;
        assert(records@.take(0) =~= seq![]);
        while i < records.len()
            invariant
                i <= records@.len(),
                parents@ == parents_of(records@.take(i as int)),
                names@ == names_of(records@.take(i as int)),
            decreases records@.len() - i,
        {
            proof {
                let step = records@.take(i + 1);
                assert(step.drop_last() =~= records@.take(i as int));
                assert(step.last() == records@[i as int]);
            }
            parents.insert(records[i].fid, records[i].parent_fid);
            names.insert(records[i].fid, records[i].file_name.clone());
            i += 1;
        }
        assert(records@.take(i as int) =~= records@);
        let r = PollBatch {
            rules,
            parents,
            names,
            added: Vec::new(),
            removed: Vec::new(),
            updated: Vec::new(),
            added_fids: HashSet::new(),
            removed_fids: HashSet::new(),
        };
        assert(r@ =~= (PollModel {
            added: seq![],
            removed: seq![],
            updated: seq![],
            added_fids: Set::empty(),
            removed_fids: Set::empty(),
        }));
        r
    }

    /// Whether a change with this reason needs the path of its file.
    pub fn needs_path(reason: u32) -> (r: bool)
        ensures
            r == (is_gone(reason) || is_new(reason) || is_changed(reason)),
    {
        reason & USN_REASON_FILE_DELETE != 0 || reason & USN_REASON_RENAME_OLD_NAME != 0 || reason
            & USN_REASON_FILE_CREATE != 0 || reason & USN_REASON_RENAME_NEW_NAME != 0 || tells_of_change(reason)
    }

    /// The path of a file: that which the system found, else that which the batch gives.
    pub fn path_for(&self, fid: u64, resolved: Option<String>) -> (r: Option<String>)
        ensures
            match resolved {
                Some(p) => r == Some(p),
                None => match batch_path(
                    self.parents@,
                    self.names@,
                    self.rules.drive_letter,
                    fid,
                ) {
                    Some(path) => r matches Some(p) && p@ == path,
                    None => r is None,
                },
            },
    {
        match resolved {
            Some(p) => Some(p),
            None => resolve_path_from_batch(
                fid,
                &self.parents,
                &self.names,
                self.rules.drive_letter,
            ),
        }
    }

    /// Whether a file that is new at `path` is taken up.
    fn takes(&self, rec: &RawUsnRecord, path: &str) -> (r: bool)
        ensures
            r == is_taken(self.rules, rec@, path@),
    {
        let name = rec.file_name.as_str();
        !should_skip_path(path, self.rules.include_system_files) && (
        self.rules.include_hidden_files || !rec.is_hidden()) && (
        self.rules.include_system_files || !rec.is_system()) && !(name.unicode_len() > 0
            && name.get_char(0) == '$')
    }

    /// Whether size, time and kind of the file are needed to take up a change.
    pub fn wants_metadata(&self, rec: &RawUsnRecord, path: &Option<String>) -> (r: bool)
        ensures
            r == self@.needs_metadata(self.rules, rec@, crate::query::text_in(*path)),
    {
        let reason: u32 = rec.reason;
        let gone = reason & USN_REASON_FILE_DELETE != 0 || reason & USN_REASON_RENAME_OLD_NAME != 0;
        let new = reason & USN_REASON_FILE_CREATE != 0 || reason & USN_REASON_RENAME_NEW_NAME != 0;
        let changed = tells_of_change(reason);
        if new {
            let known = !gone && self.added_fids.contains(&rec.fid);
            match path {
                Some(p) => !known && self.takes(rec, p.as_str()),
                None => false,
            }
        } else {
            changed && path.is_some()
        }
    }

    /// Takes up a change of a file whose path, size, time and kind are as given.
    pub fn take_record(&mut self, rec: &RawUsnRecord, path: &Option<String>, meta: FileMetadata)
        ensures
            final(self)@ == old(self)@.with_record(
                old(self).rules,
                rec@,
                crate::query::text_in(*path),
                meta,
            ),
            final(self).rules == old(self).rules,
            final(self).parents == old(self).parents,
            final(self).names == old(self).names,
    {
        let ghost before = self@;
        let ghost model_path = crate::query::text_in(*path);
        let fid: u64 = rec.fid;
        let reason: u32 = rec.reason;
        if reason & USN_REASON_FILE_DELETE != 0 || reason & USN_REASON_RENAME_OLD_NAME != 0 {
            if self.removed_fids.insert(fid) {
                let gone_from = match path {
                    Some(p) => p.clone(),
                    None => String::new(),
                };
                let ghost removed = self.removed@;
                self.removed.push((fid, gone_from));
                assert(removed_models(self.removed@) =~= removed_models(removed).push(
                    (fid, gone_from@),
                ));
            }
            self.added_fids.remove(&fid);
        }
        assert(self@ =~= before.with_gone(rec@, model_path));
        let ghost gone = self@;
        if reason & USN_REASON_FILE_CREATE != 0 || reason & USN_REASON_RENAME_NEW_NAME != 0 {
            let first = self.added_fids.insert(fid);
            let adds = match path {
                Some(p) => first && self.takes(rec, p.as_str()),
                None => false,
            };
            assert(adds == gone.adds(self.rules, rec@, model_path));
            if !adds {
                assert(self@ =~= gone.with_new(self.rules, rec@, model_path, meta));
                return;
            }
            if let Some(p) = path {
                let result = SearchResult {
                    name: rec.file_name.clone(),
                    path: p.clone(),
                    size: meta.size,
                    modified_time: meta.modified_time,
                    file_id: #[verifier::truncate] (fid as u32),
                    is_directory: meta.is_directory,
                };
                let ghost added = self.added@;
                self.added.push(result);
                assert(rows::result_models(self.added@) =~= rows::result_models(added).push(
                    result_for(rec@, p@, meta),
                ));
            }
            assert(self@ =~= gone.with_new(self.rules, rec@, model_path, meta));
        }
        let ghost came = self@;
        if tells_of_change(reason) {
            if let Some(p) = path {
                let result = SearchResult {
                    name: rec.file_name.clone(),
                    path: p.clone(),
                    size: meta.size,
                    modified_time: meta.modified_time,
                    file_id: #[verifier::truncate] (fid as u32),
                    is_directory: meta.is_directory,
                };
                let ghost updated = self.updated@;
                self.updated.push((fid, result));
                assert(updated_models(self.updated@) =~= updated_models(updated).push(
                    (fid, result_for(rec@, p@, meta)),
                ));
            }
        }
        assert(self@ =~= before.with_record(self.rules, rec@, model_path, meta));
    }

    /// Whether the batch amounts to nothing.
    pub fn is_empty(&self) -> (r: bool)
        ensures
            r == (self@.added.len() == 0 && self@.removed.len() == 0 && self@.updated.len() == 0),
    {
        self.added.len() == 0 && self.removed.len() == 0 && self.updated.len() == 0
    }
}

/// A batch of changes with what the system told of each: the path, where it found one, and
/// size, time and kind.
pub open spec fn batch_of(
    rules: ScanRules,
    records: Seq<UsnModel>,
    paths: Seq<Option<Seq<char>>>,
    metas: Seq<FileMetadata>,
) -> PollModel
    decreases records.len(),
{
    if records.len() == 0 {
        PollModel {
            added: seq![],
            removed: seq![],
            updated: seq![],
            added_fids: Set::empty(),
            removed_fids: Set::empty(),
        }
    } else {
        let n = records.len() - 1;
        batch_of(rules, records.drop_last(), paths, metas).with_record(
            rules,
            records[n],
            paths[n],
            metas[n],
        )
    }
}

/// The paths of the files of a batch: those that the system found, else those that the
/// batch gives.
pub open spec fn paths_of(
    records: Seq<RawUsnRecord>,
    resolved: Seq<Option<String>>,
    drive: char,
) -> Seq<Option<Seq<char>>> {
    Seq::new(
        records.len(),
        |i: int|
            match resolved[i] {
                Some(p) => Some(p@),
                None => batch_path(parents_of(records), names_of(records), drive, records[i].fid),
            },
    )
}

/// What a batch of changes amounts to.
pub fn read_batch(
    rules: ScanRules,
    records: &Vec<RawUsnRecord>,
    resolved: Vec<Option<String>>,
    metas: &Vec<FileMetadata>,
) -> (r: PollBatch)
    requires
        resolved@.len() == records@.len(),
        metas@.len() == records@.len(),
    ensures
        r@ == batch_of(
            rules,
            crate::usn_records::usn_models(records@),
            paths_of(records@, resolved@, rules.drive_letter),
            metas@,
        ),
{
    let ghost models = crate::usn_records::usn_models(records@);
    let ghost paths = paths_of(records@, resolved@, rules.drive_letter);
    let mut batch = PollBatch::new(rules, records);
    let ghost found = resolved@;
    let mut resolved = resolved;
    let mut i: usize = 0;
    assert(models.take(0) =~= seq![]);
    while i < records.len()
        invariant
            i <= records@.len(),
            metas@.len() == records@.len(),
            resolved@.len() == records@.len(),
            found.len() == records@.len(),
            forall|k: int| i <= k < records@.len() ==> #[trigger] resolved@[k] == found[k],
            models == crate::usn_records::usn_models(records@),
            paths == paths_of(records@, found, rules.drive_letter),
            batch.rules == rules,
            batch.parents@ == parents_of(records@),
            batch.names@ == names_of(records@),
            batch@ == batch_of(rules, models.take(i as int), paths, metas@),
        decreases records@.len() - i,
    {
        proof {
            let step = models.take(i + 1);
            assert(step.drop_last() =~= models.take(i as int));
            assert(step[i as int] == records@[i as int]@);
        }
        let rec = &records[i];
        let told = resolved[i].take();
        let path = batch.path_for(rec.fid, told);
        assert(crate::query::text_in(path) == paths[i as int]);
        batch.take_record(rec, &path, metas[i]);
        i += 1;
    }
    assert(models.take(i as int) =~= models);
    batch
}

/// No file is reported as gone twice in a batch.
pub proof fn gone_once(
    rules: ScanRules,
    records: Seq<UsnModel>,
    paths: Seq<Option<Seq<char>>>,
    metas: Seq<FileMetadata>,
)
    ensures
        ({
            let b = batch_of(rules, records, paths, metas);
            &&& forall|i: int| 0 <= i < b.removed.len() ==> b.removed_fids.contains(
                (#[trigger] b.removed[i]).0,
            )
            &&& forall|i: int, j: int|
                0 <= i < j < b.removed.len() ==> (#[trigger] b.removed[i]).0 != (
                #[trigger] b.removed[j]).0
        }),
    decreases records.len(),
{
    if records.len() > 0 {
        gone_once(rules, records.drop_last(), paths, metas);
        let before = batch_of(rules, records.drop_last(), paths, metas);
        let b = batch_of(rules, records, paths, metas);
        let n = records.len() - 1;
        assert(b == before.with_record(rules, records[n], paths[n], metas[n]));
        assert(b.removed == before.with_gone(records[n], paths[n]).removed);
        assert(b.removed_fids == before.with_gone(records[n], paths[n]).removed_fids);
        assert(forall|i: int|
            0 <= i < before.removed.len() ==> #[trigger] b.removed[i] == before.removed[i]);
        assert forall|i: int| 0 <= i < b.removed.len() implies b.removed_fids.contains(
            (#[trigger] b.removed[i]).0,
        ) by {
            if i < before.removed.len() {
                assert(before.removed_fids.contains(before.removed[i].0));
            }
        }
        assert forall|i: int, j: int| 0 <= i < j < b.removed.len() implies (
        #[trigger] b.removed[i]).0 != (#[trigger] b.removed[j]).0 by {
            assert(before.removed_fids.contains(before.removed[i].0));
            if j < before.removed.len() {
                assert(before.removed[i].0 != before.removed[j].0);
            }
        }
    }
}

/// No hidden file is reported as new where hidden files are left out, and no file of the
/// system where those are, just as in a full scan.
pub proof fn left_out_are_not_new(
    b: PollModel,
    rules: ScanRules,
    rec: UsnModel,
    path: Option<Seq<char>>,
    meta: FileMetadata,
)
    requires
        (!rules.include_hidden_files && rec.is_hidden()) || (!rules.include_system_files
            && rec.is_system()),
    ensures
        b.with_record(rules, rec, path, meta).added == b.added,
{
}

/// Every file that is reported as new is one that is taken up, at a path where it is not
/// left out.
pub proof fn new_are_taken(
    rules: ScanRules,
    records: Seq<UsnModel>,
    paths: Seq<Option<Seq<char>>>,
    metas: Seq<FileMetadata>,
)
    ensures
        ({
            let b = batch_of(rules, records, paths, metas);
            forall|i: int| 0 <= i < b.added.len() ==> {
                &&& !full_scan::is_excluded((#[trigger] b.added[i]).path, rules.include_system_files)
                &&& !(b.added[i].name.len() > 0 && b.added[i].name[0] == '$')
            }
        }),
    decreases records.len(),
{
    if records.len() > 0 {
        new_are_taken(rules, records.drop_last(), paths, metas);
        let before = batch_of(rules, records.drop_last(), paths, metas);
        let b = batch_of(rules, records, paths, metas);
        let n = records.len() - 1;
        assert(b == before.with_record(rules, records[n], paths[n], metas[n]));
        assert(b.added.len() <= before.added.len() + 1);
        assert forall|i: int| 0 <= i < b.added.len() implies {
            &&& !full_scan::is_excluded((#[trigger] b.added[i]).path, rules.include_system_files)
            &&& !(b.added[i].name.len() > 0 && b.added[i].name[0] == '$')
        } by {
            if i < before.added.len() {
                assert(b.added[i] == before.added[i]);
            } else {
                assert(b.added[i] == result_for(records[n], paths[n]->0, metas[n]));
                assert(is_taken(rules, records[n], paths[n]->0));
            }
        }
    }
}

/// Size, time and kind of a file by what could be read: without a reader only the kind is
/// known, and of a file that is gone nothing.
pub fn metadata_or_default(
    has_reader: bool,
    found: Option<FileMetadata>,
    is_directory: bool,
) -> (r: FileMetadata)
    ensures
        r == (if !has_reader {
            FileMetadata { size: 0, modified_time: 0, is_directory }
        } else {
            match found {
                Some(m) => m,
                None => FileMetadata { size: 0, modified_time: 0, is_directory: false },
            }
        }),
{
    if !has_reader {
        FileMetadata { size: 0, modified_time: 0, is_directory }
    } else {
        match found {
            Some(m) => m,
            None => FileMetadata { size: 0, modified_time: 0, is_directory: false },
        }
    }
}

/// How far the journal was read after a poll; never back.
pub fn place_after(last: i64, new_last: i64) -> (r: i64)
    ensures
        r == rows::most(last as int, new_last as int),
{
    if new_last > last {
        new_last
    } else {
        last
    }
}

/// What is sent after a poll: the changes, where there are any.
pub fn poll_response(batch: PollBatch, last_usn: i64) -> (r: Option<UsnResponse>)
    ensures
        match r {
            Some(m) => m == (UsnResponse::IncrementalResult {
                drive_letter: batch.rules.drive_letter,
                added: batch.added,
                removed: batch.removed,
                updated: batch.updated,
                last_usn,
            }) && !(batch.added@.len() == 0 && batch.removed@.len() == 0 && batch.updated@.len()
                == 0),
            None => batch.added@.len() == 0 && batch.removed@.len() == 0 && batch.updated@.len()
                == 0,
        },
{
    if batch.is_empty() {
        return None;
    }
    Some(
        UsnResponse::IncrementalResult {
            drive_letter: batch.rules.drive_letter,
            added: batch.added,
            removed: batch.removed,
            updated: batch.updated,
            last_usn,
        },
    )
}

/// Why following a journal failed.
#[derive(Clone, Copy, Debug, PartialEq, Eq, Structural)]
pub enum WorkerFailure {
    NoVolume,
    NoPlace,
    QueryJournal,
    OpenHandle,
    ReadJournal,
    OpenForJournal,
    OpenVolume,
    CreateJournal,
    CreateAndQuery,
}

/// The text of a failure on a drive: with the system's error, where there is one.
pub open spec fn worker_failure_text(
    f: WorkerFailure,
    drive: char,
    error: Seq<char>,
) -> Seq<char> {
    match f {
        WorkerFailure::NoVolume => "No volume handle for drive "@.push(drive),
        WorkerFailure::NoPlace => "No last USN recorded for drive "@.push(drive),
        WorkerFailure::QueryJournal => "Failed to query journal for "@.push(drive) + ": "@ + error,
        WorkerFailure::OpenHandle => "Failed to open volume handle for drive "@.push(drive),
        WorkerFailure::ReadJournal => "Failed to read journal for "@.push(drive) + ": "@ + error,
        WorkerFailure::OpenForJournal => "Failed to open volume "@.push(drive) + " for journal: "@
            + error,
        WorkerFailure::OpenVolume => "Failed to open volume "@.push(drive) + ": "@ + error,
        WorkerFailure::CreateJournal => "Journal create failed for "@.push(drive) + ": "@ + error,
        WorkerFailure::CreateAndQuery => "Journal create+query failed for "@.push(drive) + ": "@
            + error,
    }
}

/// The text of a failure on a drive.
pub fn worker_failure(f: WorkerFailure, drive: char, error: &str) -> (r: String)
    ensures
        r@ == worker_failure_text(f, drive, error@),
{
    let mut r = match f {
        WorkerFailure::NoVolume => "No volume handle for drive ".to_string(),
        WorkerFailure::NoPlace => "No last USN recorded for drive ".to_string(),
        WorkerFailure::QueryJournal => "Failed to query journal for ".to_string(),
        WorkerFailure::OpenHandle => "Failed to open volume handle for drive ".to_string(),
        WorkerFailure::ReadJournal => "Failed to read journal for ".to_string(),
        WorkerFailure::OpenForJournal => "Failed to open volume ".to_string(),
        WorkerFailure::OpenVolume => "Failed to open volume ".to_string(),
        WorkerFailure::CreateJournal => "Journal create failed for ".to_string(),
        WorkerFailure::CreateAndQuery => "Journal create+query failed for ".to_string(),
    };
    r.push(drive);
    match f {
        WorkerFailure::NoVolume | WorkerFailure::NoPlace | WorkerFailure::OpenHandle => {},
        WorkerFailure::OpenForJournal => {
            r.append(" for journal: ");
            r.append(error);
        },
        _ => {
            r.append(": ");
            r.append(error);
        },
    }
    r
}

/// What making a journal ready does next.
#[derive(Clone, Copy, Debug, PartialEq, Eq, Structural)]
pub enum JournalStep {
    /// Asks for the state of the journal.
    Query,
    /// Makes the journal, or makes it larger.
    CreateOrUpdate,
    /// Ends with the place to read from.
    Done(i64),
    /// Ends because the journal could not be made.
    CreateFailed,
    /// Ends because the journal that was made could not be asked.
    QueryFailed,
}

/// How far making a journal ready has come.
#[derive(Clone, Copy, Debug, PartialEq, Eq, Structural)]
pub enum JournalStage {
    /// The state is asked for.
    Asked,
    /// The journal is made larger; it would be read from here.
    Growing(i64),
    /// The journal is made.
    Making,
}

/// What is done about the state of a journal that was asked for first: one that is
/// smaller than `wanted` is made larger, one that is not there is made.
pub fn after_first_query(state: Option<(u64, i64)>, wanted: u64) -> (r: (JournalStage, JournalStep))
    ensures
        match state {
            Some((size, next)) => if size < wanted {
                r == (JournalStage::Growing(next), JournalStep::CreateOrUpdate)
            } else {
                r == (JournalStage::Asked, JournalStep::Done(next))
            },
            None => r == (JournalStage::Making, JournalStep::CreateOrUpdate),
        },
{
    match state {
        Some((size, next)) => if size < wanted {
            (JournalStage::Growing(next), JournalStep::CreateOrUpdate)
        } else {
            (JournalStage::Asked, JournalStep::Done(next))
        },
        None => (JournalStage::Making, JournalStep::CreateOrUpdate),
    }
}

/// What is done when a journal was made, or could not be. One that could not be made
/// larger is used as it is.
pub fn after_create(stage: JournalStage, ok: bool) -> (r: JournalStep)
    ensures
        r == (if stage == JournalStage::Making && !ok {
            JournalStep::CreateFailed
        } else {
            JournalStep::Query
        }),
{
    if stage == JournalStage::Making && !ok {
        JournalStep::CreateFailed
    } else {
        JournalStep::Query
    }
}

/// What is done about the state of a journal that was made or made larger.
pub fn after_second_query(stage: JournalStage, next: Option<i64>) -> (r: JournalStep)
    ensures
        r == (match next {
            Some(next) => JournalStep::Done(next),
            None => match stage {
                JournalStage::Growing(before) => JournalStep::Done(before),
                _ => JournalStep::QueryFailed,
            },
        }),
{
    match next {
        Some(next) => JournalStep::Done(next),
        None => match stage {
            JournalStage::Growing(before) => JournalStep::Done(before),
            _ => JournalStep::QueryFailed,
        },
    }
}

} // verus!
