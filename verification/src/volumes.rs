//! The volumes of the machine: which there are, what is told of them, and how far their
//! index is.

use crate::changes;
use crate::changes::DeltaModel;
use crate::error::{AppError, Result};
use crate::named_order;
use crate::named_order::{sort_by_name, Named};
use crate::outside;
use crate::query;
use crate::sound_volumes;
use crate::text;
use crate::text::{same_ignoring_ascii_case, same_text};
use crate::volume_manager;
use crate::volume_manager::VolumeManager;
use crate::wide;
use crate::wide::text_in_buffer;
use vstd::prelude::*;

verus! {

broadcast use vstd::string::group_string_axioms;

/// A volume as the system describes it.
#[derive(Debug)]
pub struct VolumeInfo {
    pub drive_letter: String,
    pub volume_name: String,
    pub file_system: String,
    pub total_size: u64,
    pub free_space: u64,
}

/// A volume as it is told of.
#[derive(Debug)]
pub struct VolumeResponse {
    pub drive_letter: String,
    pub volume_name: String,
    pub file_system: String,
    pub total_size: u64,
    pub free_space: u64,
    pub file_count: usize,
}

impl From<VolumeInfo> for VolumeResponse {
    /// A volume of which no files are counted.
    fn from(v: VolumeInfo) -> Self {
        VolumeResponse {
            drive_letter: v.drive_letter,
            volume_name: v.volume_name,
            file_system: v.file_system,
            total_size: v.total_size,
            free_space: v.free_space,
            file_count: 0,
        }
    }
}

impl vstd::std_specs::convert::FromSpecImpl<VolumeInfo> for VolumeResponse {
    open spec fn obeys_from_spec() -> bool {
        true
    }

    open spec fn from_spec(v: VolumeInfo) -> VolumeResponse {
        VolumeResponse {
            drive_letter: v.drive_letter,
            volume_name: v.volume_name,
            file_system: v.file_system,
            total_size: v.total_size,
            free_space: v.free_space,
            file_count: 0,
        }
    }
}

impl Named for VolumeResponse {
    open spec fn called(&self) -> Seq<char> {
        self.drive_letter@
    }

    fn name_of(&self) -> (r: &str) {
        self.drive_letter.as_str()
    }
}

/// The letter of a drive.
pub open spec fn letter_at(i: int) -> char {
    (0x41 + i) as char
}

/// The drives among the first `n` letters whose bits are set, as they are named.
pub open spec fn drives_in(mask: u32, n: nat) -> Seq<Seq<char>>
    decreases n,
{
    if n == 0 {
        seq![]
    } else {
        let before = drives_in(mask, (n - 1) as nat);
        if mask & (1u32 << ((n - 1) as u32)) != 0 {
            before.push(seq![letter_at(n - 1), ':'])
        } else {
            before
        }
    }
}

/// The names of the drives whose bits are set, A first. Where no bit is set, the system
/// failed with the given code.
pub fn drives_from(mask: u32, code: u32) -> (r: Result<Vec<String>>)
    ensures
        match r {
            Ok(drives) => mask != 0 && query::strings(drives@) == drives_in(mask, 26),
            Err(e) => mask == 0 && e == AppError::WindowsApi(code),
        },
{
    if mask == 0 {
        return Err(AppError::WindowsApi(code));
    }
    let mut drives: Vec<String> = Vec::new();
    let mut i: u32 = 0;
    assert(query::strings(drives@) =~= seq![]);
    while i < 26
        invariant
            i <= 26,
            query::strings(drives@) == drives_in(mask, i as nat),
        decreases 26 - i,
    {
        let ghost before = drives@;
        if mask & (1u32 << i) != 0 {
            let mut name = String::new();
            name.push((0x41u8 + i as u8) as char);
            name.push(':');
            assert(name@ =~= seq![letter_at(i as int), ':']);
            drives.push(name);
            assert(query::strings(drives@) =~= query::strings(before).push(name@));
        }
        i += 1;
    }
    Ok(drives)
}

/// What the system is asked about a drive with.
pub fn root_path(drive_letter: &str) -> (r: String)
    ensures
        r@ == drive_letter@.push('\\'),
{
    let mut r = drive_letter.to_string();
    r.push('\\');
    r
}

/// What a buffer of the system holds.
pub open spec fn buffer_text(units: Seq<u16>) -> Seq<char> {
    outside::utf16_text(
        units.take(
            if wide::first_zero(units) == units.len() {
                0
            } else {
                wide::first_zero(units)
            },
        ),
    )
}

/// A volume by what the system tells of it.
pub fn volume_info(
    drive_letter: &str,
    volume_name: &Vec<u16>,
    file_system: &Vec<u16>,
    total_size: u64,
    free_space: u64,
) -> (r: VolumeInfo)
    ensures
        r.drive_letter@ == drive_letter@,
        r.volume_name@ == buffer_text(volume_name@),
        r.file_system@ == buffer_text(file_system@),
        r.total_size == total_size,
        r.free_space == free_space,
{
    VolumeInfo {
        drive_letter: drive_letter.to_string(),
        volume_name: text_in_buffer(volume_name),
        file_system: text_in_buffer(file_system),
        total_size,
        free_space,
    }
}

/// Volumes as they are told of.
pub open spec fn responses_of(volumes: Seq<VolumeInfo>) -> Seq<VolumeResponse> {
    volumes.map_values(
        |v: VolumeInfo|
            VolumeResponse {
                drive_letter: v.drive_letter,
                volume_name: v.volume_name,
                file_system: v.file_system,
                total_size: v.total_size,
                free_space: v.free_space,
                file_count: 0,
            },
    )
}

/// Volumes as they are told of, in the order of their letters.
pub fn get_volumes(volumes: Vec<VolumeInfo>) -> (r: Vec<VolumeResponse>)
    ensures
        r@ == named_order::in_name_order(responses_of(volumes@)),
{
    let ghost all = responses_of(volumes@);
    let mut list: Vec<VolumeResponse> = Vec::new();
    for v in it: volumes
        invariant
            it.seq() == volumes@,
            all == responses_of(volumes@),
            list@ == all.take(it.index()),
    {
        list.push(VolumeResponse::from(v));
        assert(list@ =~= all.take(it.index() + 1));
    }
    assert(list@ =~= all);
    sort_by_name(list)
}

/// How far the index of a volume is.
#[derive(Debug)]
pub enum VolumeState {
    Loading,
    Ready { file_count: usize },
    Error { message: String },
}

/// How far the index of a volume is, with the volume's name.
#[derive(Debug)]
pub struct VolumeStatus {
    pub drive_letter: String,
    pub state: VolumeState,
}

/// How far the index of a volume is.
pub enum StateModel {
    Loading,
    Ready(nat),
    Error(Seq<char>),
}

impl View for VolumeStatus {
    type V = (Seq<char>, StateModel);

    open spec fn view(&self) -> (Seq<char>, StateModel) {
        (
            self.drive_letter@,
            match self.state {
                VolumeState::Loading => StateModel::Loading,
                VolumeState::Ready { file_count } => StateModel::Ready(file_count as nat),
                VolumeState::Error { message } => StateModel::Error(message@),
            },
        )
    }
}

/// How far the index is, of all volumes.
#[derive(Debug)]
pub struct IndexStatus {
    pub status: String,
    pub file_count: usize,
    pub message: String,
    pub volumes: Vec<String>,
    pub scanning_volumes: Vec<String>,
    pub volume_statuses: Vec<VolumeStatus>,
}

/// Whether one of the names is `name`.
pub fn has_name(names: &Vec<String>, name: &str) -> (r: bool)
    ensures
        r == query::strings(names@).contains(name@),
{
    let ghost all = query::strings(names@);
    let mut i: usize = 0;
    while i < names.len()
        invariant
            i <= names@.len(),
            all == query::strings(names@),
            forall|k: int| 0 <= k < i ==> #[trigger] all[k] != name@,
        decreases names@.len() - i,
    {
        if same_text(names[i].as_str(), name) {
            assert(all[i as int] == name@);
            return true;
        }
        i += 1;
    }
    false
}

/// Names with `name` added, unless it is there.
pub open spec fn with_name(names: Seq<Seq<char>>, name: Seq<char>) -> Seq<Seq<char>> {
    if names.contains(name) {
        names
    } else {
        names.push(name)
    }
}

/// Names without `name`.
pub open spec fn without_name(names: Seq<Seq<char>>, name: Seq<char>) -> Seq<Seq<char>> {
    names.filter(|n: Seq<char>| n != name)
}

/// Adds a name, unless it is there. Tells whether it was added.
pub fn add_name(names: &mut Vec<String>, name: &str) -> (r: bool)
    ensures
        query::strings(final(names)@) == with_name(query::strings(old(names)@), name@),
        r == !query::strings(old(names)@).contains(name@),
{
    if has_name(names, name) {
        return false;
    }
    names.push(name.to_string());
    assert(query::strings(names@) =~= query::strings(old(names)@).push(name@));
    true
}

/// The names without `name`.
pub fn drop_name(names: &Vec<String>, name: &str) -> (r: Vec<String>)
    ensures
        query::strings(r@) == without_name(query::strings(names@), name@),
{
    let ghost all = query::strings(names@);
    let mut r: Vec<String> = Vec::new();
    let mut i: usize = 0;
    assert(query::strings(r@) =~= seq![]);
    assert(all.take(0) =~= seq![]);
    proof {
        reveal(Seq::filter);
    }
    while i < names.len()
        invariant
            i <= names@.len(),
            all == query::strings(names@),
            query::strings(r@) == without_name(all.take(i as int), name@),
        decreases names@.len() - i,
    {
        let ghost before = r@;
        proof {
            reveal(Seq::filter);
            let step = all.take(i + 1);
            assert(step.drop_last() =~= all.take(i as int));
            assert(step.last() == names@[i as int]@);
        }
        if !same_text(names[i].as_str(), name) {
            r.push(names[i].clone());
            assert(query::strings(r@) =~= query::strings(before).push(names@[i as int]@));
        }
        i += 1;
    }
    assert(all.take(i as int) =~= all);
    r
}

/// A name that was added and dropped again is gone, and the others are as they were.
pub proof fn dropping_undoes_adding(names: Seq<Seq<char>>, name: Seq<char>)
    ensures
        !without_name(with_name(names, name), name).contains(name),
        !names.contains(name) ==> without_name(with_name(names, name), name) == names,
{
    reveal(Seq::filter);
    let keeps = |n: Seq<char>| n != name;
    let added = with_name(names, name);
    assert(!without_name(added, name).contains(name)) by {
        if without_name(added, name).contains(name) {
            let i = choose|i: int|
                0 <= i < added.filter(keeps).len() && added.filter(keeps)[i] == name;
            added.lemma_filter_pred(keeps, i);
        }
    }
    if !names.contains(name) {
        assert(added.drop_last() =~= names);
        all_kept(names, name);
    }
}

/// Dropping a name that is not there changes nothing.
proof fn all_kept(names: Seq<Seq<char>>, name: Seq<char>)
    requires
        !names.contains(name),
    ensures
        without_name(names, name) == names,
    decreases names.len(),
{
    reveal(Seq::filter);
    if names.len() > 0 {
        assert forall|i: int| 0 <= i < names.len() - 1 implies names.drop_last()[i] != name by {
            assert(names[i] != name);
        }
        assert(names[names.len() - 1] != name);
        all_kept(names.drop_last(), name);
        assert(names =~= names.drop_last().push(names.last()));
    } else {
        assert(without_name(names, name) =~= names);
    }
}

/// The names of the volumes, in order.
pub open spec fn volumes_sorted(vm: VolumeManager) -> Seq<Seq<char>> {
    named_order::names_in_order(
        query::strings(vm.vol_names@).filter(|n: Seq<char>| n.len() > 0),
    )
}

/// How many files a volume has.
pub open spec fn files_of(vm: VolumeManager, v: Seq<char>) -> nat {
    if vm.volumes@.contains_key(v) {
        vm.volumes@[v].files@.len()
    } else {
        0
    }
}

/// How far the index of a volume is: a volume that is scanned is loading, else the last
/// scan may have failed.
pub open spec fn state_of(vm: VolumeManager, scanning: Seq<Seq<char>>, v: Seq<char>) -> StateModel {
    if scanning.contains(v) {
        StateModel::Loading
    } else if vm.scan_errors@.contains_key(v) {
        StateModel::Error(vm.scan_errors@[v]@)
    } else {
        StateModel::Ready(files_of(vm, v))
    }
}

/// What is said of the index.
pub open spec fn message_of(volumes: Seq<Seq<char>>, scanning: Seq<Seq<char>>) -> Seq<char> {
    if volumes.len() == 0 {
        "等待扫描..."@
    } else if scanning.len() > 0 {
        scanning[0] + " 加载中..."@
    } else {
        "就绪"@
    }
}

/// The names of the volumes, in order.
fn sorted_volumes(vm: &VolumeManager) -> (r: Vec<String>)
    ensures
        query::strings(r@) == volumes_sorted(*vm),
{
    let names = vm.volumes();
    proof {
        named_order::names_follow(names@);
        assert(named_order::names_of(names@) =~= query::strings(names@));
    }
    let r = sort_by_name(names);
    assert(named_order::names_of(r@) =~= query::strings(r@));
    r
}

/// How far the index of a volume is.
fn status_of(vm: &VolumeManager, scanning: &Vec<String>, v: &String) -> (r: VolumeStatus)
    requires
        vm.wf(),
    ensures
        r@ == (v@, state_of(*vm, query::strings(scanning@), v@)),
{
    let state = if has_name(scanning, v.as_str()) {
        VolumeState::Loading
    } else {
        match vm.scan_errors.get(v.as_str()) {
            Some(message) => VolumeState::Error { message: message.clone() },
            None => VolumeState::Ready { file_count: vm.get_file_count(v.as_str()) },
        }
    };
    VolumeStatus { drive_letter: v.clone(), state }
}

/// How far the index is, where the given volumes are being scanned.
pub fn get_index_status(vm: &VolumeManager, scanning: &Vec<String>) -> (r: IndexStatus)
    requires
        vm.wf(),
    ensures
        r.status@ == (if scanning@.len() == 0 {
            "ready"@
        } else {
            "scanning"@
        }),
        r.file_count == crate::rows::least(
            crate::merging::total_files(vm.volumes.slots@) as int,
            usize::MAX as int,
        ),
        r.message@ == message_of(volumes_sorted(*vm), query::strings(scanning@)),
        query::strings(r.volumes@) == volumes_sorted(*vm),
        query::strings(r.scanning_volumes@) == query::strings(scanning@),
        r.volume_statuses@.map_values(|s: VolumeStatus| s@) == volumes_sorted(*vm).map_values(
            |v: Seq<char>| (v, state_of(*vm, query::strings(scanning@), v)),
        ),
{
    let volumes = sorted_volumes(vm);
    let message = if volumes.len() == 0 {
        "等待扫描...".to_string()
    } else if scanning.len() > 0 {
        let mut m = scanning[0].clone();
        m.append(" 加载中...");
        m
    } else {
        "就绪".to_string()
    };
    let mut statuses: Vec<VolumeStatus> = Vec::new();
    let ghost busy = query::strings(scanning@);
    let mut i: usize = 0;
    while i < volumes.len()
        invariant
            i <= volumes@.len(),
            vm.wf(),
            busy == query::strings(scanning@),
            statuses@.len() == i,
            forall|k: int|
                0 <= k < i ==> (#[trigger] statuses@[k])@ == (
                    volumes@[k]@,
                    state_of(*vm, busy, volumes@[k]@),
                ),
        decreases volumes@.len() - i,
    {
        statuses.push(status_of(vm, scanning, &volumes[i]));
        i += 1;
    }
    let mut scanning_volumes: Vec<String> = Vec::new();
    let mut k: usize = 0;
    while k < scanning.len()
        invariant
            k <= scanning@.len(),
            scanning_volumes@.len() == k,
            forall|j: int| 0 <= j < k ==> (#[trigger] scanning_volumes@[j])@ == scanning@[j]@,
        decreases scanning@.len() - k,
    {
        scanning_volumes.push(scanning[k].clone());
        k += 1;
    }
    assert(query::strings(scanning_volumes@) =~= busy);
    assert(statuses@.map_values(|s: VolumeStatus| s@) =~= volumes_sorted(*vm).map_values(
        |v: Seq<char>| (v, state_of(*vm, busy, v)),
    )) by {
        assert forall|j: int| 0 <= j < volumes@.len() implies query::strings(
            volumes@,
        )[j] == #[trigger] volumes@[j]@ by {}
    }
    IndexStatus {
        status: if scanning.len() == 0 {
            "ready".to_string()
        } else {
            "scanning".to_string()
        },
        file_count: vm.total_file_count(),
        message,
        volumes,
        scanning_volumes,
        volume_statuses: statuses,
    }
}

/// What is told of a volume in the index.
pub open spec fn is_told_of(r: VolumeResponse, vm: VolumeManager, v: Seq<char>) -> bool {
    &&& r.drive_letter@ == v
    &&& r.volume_name@ == v
    &&& r.file_system@ == (if vm.volumes@.contains_key(v) {
        vm.volumes@[v].file_system@
    } else {
        seq![]
    })
    &&& r.total_size == 0
    &&& r.free_space == 0
    &&& r.file_count == files_of(vm, v)
}

/// The volumes in the index, in the order of their names.
pub fn get_monitored_volumes(vm: &VolumeManager) -> (r: Vec<VolumeResponse>)
    requires
        vm.wf(),
    ensures
        r@.len() == volumes_sorted(*vm).len(),
        forall|i: int|
            0 <= i < r@.len() ==> is_told_of(#[trigger] r@[i], *vm, volumes_sorted(*vm)[i]),
{
    let volumes = sorted_volumes(vm);
    let mut r: Vec<VolumeResponse> = Vec::new();
    let mut i: usize = 0;
    while i < volumes.len()
        invariant
            i <= volumes@.len(),
            vm.wf(),
            r@.len() == i,
            query::strings(volumes@) == volumes_sorted(*vm),
            forall|k: int|
                0 <= k < i ==> is_told_of(#[trigger] r@[k], *vm, volumes_sorted(*vm)[k]),
        decreases volumes@.len() - i,
    {
        let v = &volumes[i];
        assert(query::strings(volumes@)[i as int] == v@);
        let file_system = match vm.get_monitor(v.as_str()) {
            Some(m) => m.file_system.clone(),
            None => String::new(),
        };
        let ghost before = r@;
        r.push(
            VolumeResponse {
                drive_letter: v.clone(),
                volume_name: v.clone(),
                file_system,
                total_size: 0,
                free_space: 0,
                file_count: vm.get_file_count(v.as_str()),
            },
        );
        assert(is_told_of(r@[i as int], *vm, volumes_sorted(*vm)[i as int]));
        assert(forall|k: int| 0 <= k < i ==> r@[k] == #[trigger] before[k]);
        i += 1;
    }
    r
}

/// Whether a file system keeps a change journal.
pub open spec fn is_ntfs(file_system: Seq<char>) -> bool {
    text::ascii_lower(file_system) == text::ascii_lower("NTFS"@)
}

/// Whether a volume is followed by its change journal: only an administrator can, and
/// only NTFS keeps one.
pub fn uses_journal(is_admin: bool, file_system: &str) -> (r: bool)
    ensures
        r == (is_admin && is_ntfs(file_system@)),
{
    is_admin && same_ignoring_ascii_case(file_system, "NTFS")
}

/// Adds a volume without files to the index and notes its file system and how it is
/// followed.
pub fn register_volume(
    vm: &mut VolumeManager,
    volume: &str,
    is_admin: bool,
    file_system: String,
    include_hidden_files: bool,
    include_system_files: bool,
) -> (r: Result<()>)
    requires
        old(vm).wf(),
    ensures
        r is Ok,
        final(vm).wf(),
        final(vm).forgot(*old(vm)),
        final(vm).scan_errors == old(vm).scan_errors,
        query::strings(final(vm).vol_names@) == query::strings(old(vm).vol_names@).push(volume@),
        final(vm).volume_index@ == old(vm).volume_index@.insert(
            volume@,
            (old(vm).vol_names@.len() % 256) as u8,
        ),
        final(vm).volumes@ == old(vm).volumes@.insert(volume@, final(vm).volumes@[volume@]),
        ({
            let m = final(vm).volumes@[volume@];
            &&& m.drive_letter@ == volume@
            &&& m.files@ == Seq::<crate::search::FileEntry>::empty()
            &&& m.include_hidden_files == include_hidden_files
            &&& m.include_system_files == include_system_files
            &&& m.file_system@ == file_system@
            &&& m.use_usn == (is_admin && is_ntfs(file_system@))
            &&& m.path_table@.entries.len() == 1
            &&& m.path_table@.sound()
            &&& m.path_table@.ids == Map::<Seq<char>, u32>::empty()
            &&& m.fid_index is None
        }),
        final(vm).changes() == old(vm).changes().without(old(vm).vol_names@, volume@),
        old(vm).numbered() ==> final(vm).numbered(),
        old(vm).numbers_fit() && old(vm).vol_names@.len() < 256 ==> final(vm).numbers_fit(),
        old(vm).stands() && volume@.len() > 0 && old(vm).vol_names@.len() < 256
            ==> forall|today: i32| #[trigger] final(vm).is_sound(today),
{
    let journal = uses_journal(is_admin, file_system.as_str());
    let added = vm.add_volume(volume, journal, include_hidden_files, include_system_files);
    let ghost mid = *vm;
    match vm.get_monitor_mut(volume) {
        Some(m) => {
            m.file_system = file_system;
            if journal {
                m.use_usn = true;
            }
        },
        None => {},
    }
    assert(vm.volumes@ =~= old(vm).volumes@.insert(volume@, vm.volumes@[volume@]));
    proof {
        if old(vm).numbered() {
            volume_manager::numbers_stay(mid, *vm);
        }
        if old(vm).stands() && volume@.len() > 0 && old(vm).vol_names@.len() < 256 {
            sound_volumes::sound_numbers_fit(*old(vm));
            sound_volumes::new_is_sound(vm.volumes@[volume@]);
            sound_volumes::adding_stands(*old(vm), *vm, volume@);
        }
    }
    added
}

/// Whether `name` is that of a volume in the index. A name that is empty is that of a
/// volume that was removed.
pub open spec fn is_listed(names: Seq<Seq<char>>, name: Seq<char>) -> bool {
    name.len() > 0 && names.contains(name)
}

/// The names of the volumes in the index after those of the drives that are not among them
/// were added.
pub open spec fn names_after(names: Seq<Seq<char>>, drives: Seq<Seq<char>>) -> Seq<Seq<char>>
    decreases drives.len(),
{
    if drives.len() == 0 {
        names
    } else {
        let before = names_after(names, drives.drop_last());
        if is_listed(before, drives.last()) {
            before
        } else {
            before.push(drives.last())
        }
    }
}

/// The names that are listed are those that were, and the drives.
proof fn listed_after(names: Seq<Seq<char>>, drives: Seq<Seq<char>>, name: Seq<char>)
    ensures
        is_listed(names_after(names, drives), name) <==> is_listed(names, name) || (name.len() > 0
            && drives.contains(name)),
        names_after(names, drives).len() >= names.len(),
    decreases drives.len(),
{
    if drives.len() > 0 {
        let (init, last) = (drives.drop_last(), drives.last());
        listed_after(names, init, name);
        let before = names_after(names, init);
        let after = names_after(names, drives);
        assert(drives.contains(name) <==> init.contains(name) || last == name) by {
            if drives.contains(name) {
                let k = choose|k: int| 0 <= k < drives.len() && drives[k] == name;
                assert(k < init.len() ==> init[k] == name);
            }
            if init.contains(name) {
                let k = choose|k: int| 0 <= k < init.len() && init[k] == name;
                assert(drives[k] == name);
            }
            assert(drives[drives.len() - 1] == last);
        }
        if !is_listed(before, last) {
            assert(after.contains(name) <==> before.contains(name) || last == name) by {
                if after.contains(name) {
                    let k = choose|k: int| 0 <= k < after.len() && after[k] == name;
                    assert(k < before.len() ==> before[k] == name);
                }
                if before.contains(name) {
                    let k = choose|k: int| 0 <= k < before.len() && before[k] == name;
                    assert(after[k] == name);
                }
                assert(after[after.len() - 1] == last);
            }
        }
    }
}

/// The changes that are left after the drives that are not in the index were added: each
/// takes away those of its name.
pub open spec fn changes_after(
    d: DeltaModel,
    names: Seq<Seq<char>>,
    drives: Seq<Seq<char>>,
) -> DeltaModel
    decreases drives.len(),
{
    if drives.len() == 0 {
        d
    } else {
        let before = names_after(names, drives.drop_last());
        let left = changes_after(d, names, drives.drop_last());
        if is_listed(before, drives.last()) {
            left
        } else {
            left.without_named(before, drives.last())
        }
    }
}

/// The letters of volumes.
pub open spec fn letters_of(volumes: Seq<VolumeInfo>) -> Seq<Seq<char>> {
    volumes.map_values(|v: VolumeInfo| v.drive_letter@)
}

/// Whether no name is empty.
pub open spec fn all_named(names: Seq<Seq<char>>) -> bool {
    forall|i: int| 0 <= i < names.len() ==> (#[trigger] names[i]).len() > 0
}

/// Whether `now` has the volumes and numbers that are left of `before` when the drives
/// that are not in the index were added without files.
pub open spec fn has_drives(
    before: VolumeManager,
    now: VolumeManager,
    drives: Seq<Seq<char>>,
    include_hidden_files: bool,
    include_system_files: bool,
) -> bool {
    let names = query::strings(before.vol_names@);
    let adds = |v: Seq<char>| drives.contains(v) && !is_listed(names, v);
    &&& query::strings(now.vol_names@) == names_after(names, drives)
    &&& forall|v: Seq<char>| #[trigger]
        now.volumes@.contains_key(v) <==> before.volumes@.contains_key(v) || adds(v)
    &&& forall|v: Seq<char>| #[trigger]
        now.volumes@.contains_key(v) ==> if adds(v) {
            now.volumes@[v].is_new(v, include_hidden_files, include_system_files)
        } else {
            now.volumes@[v] == before.volumes@[v]
        }
    &&& forall|v: Seq<char>| #[trigger]
        now.volume_index@.contains_key(v) <==> before.volume_index@.contains_key(v) || adds(v)
    &&& forall|v: Seq<char>| #[trigger]
        now.volume_index@.contains_key(v) && !adds(v) ==> now.volume_index@[v]
            == before.volume_index@[v]
    &&& now.changes() == changes_after(before.changes(), names, drives)
    &&& before.numbered() ==> now.numbered()
    &&& before.numbers_fit() && now.vol_names@.len() <= 256 ==> now.numbers_fit()
}

/// Adds the volumes that are not in the index yet, and lists all of them in the order of
/// their letters.
pub fn refresh_volumes(
    vm: &mut VolumeManager,
    volumes: Vec<VolumeInfo>,
    is_admin: bool,
    include_hidden_files: bool,
    include_system_files: bool,
) -> (r: Vec<VolumeResponse>)
    requires
        old(vm).wf(),
    ensures
        final(vm).wf(),
        has_drives(
            *old(vm),
            *final(vm),
            letters_of(volumes@),
            include_hidden_files,
            include_system_files,
        ),
        final(vm).scan_errors == old(vm).scan_errors,
        if final(vm).vol_names@.len() == old(vm).vol_names@.len() {
            *final(vm) == *old(vm)
        } else {
            &&& final(vm).search_cache is None
            &&& final(vm).sorted_indices_map@ == crate::sort_cache::CacheModel::empty()
            &&& final(vm).cache_generation == old(vm).cache_generation
            &&& final(vm).blank_orders() == volume_manager::no_orders()
            &&& final(vm).same_request(*old(vm))
        },
        old(vm).stands() && final(vm).vol_names@.len() <= 256 && all_named(letters_of(volumes@))
            ==> final(vm).stands(),
        r@ == named_order::in_name_order(responses_of(volumes@)),
{
    let ghost letters = letters_of(volumes@);
    let ghost names = query::strings(vm.vol_names@);
    let mut i: usize = 0;
    assert(letters.take(0) =~= seq![]);
    while i < volumes.len()
        invariant
            i <= volumes@.len(),
            vm.wf(),
            letters == letters_of(volumes@),
            names == query::strings(old(vm).vol_names@),
            has_drives(
                *old(vm),
                *vm,
                letters.take(i as int),
                include_hidden_files,
                include_system_files,
            ),
            vm.scan_errors == old(vm).scan_errors,
            names.len() <= vm.vol_names@.len(),
            if vm.vol_names@.len() == names.len() {
                *vm == *old(vm)
            } else {
                &&& vm.search_cache is None
                &&& vm.sorted_indices_map@ == crate::sort_cache::CacheModel::empty()
                &&& vm.cache_generation == old(vm).cache_generation
                &&& vm.blank_orders() == volume_manager::no_orders()
                &&& vm.same_request(*old(vm))
            },
            old(vm).stands() && vm.vol_names@.len() <= 256 && all_named(letters) ==> vm.stands(),
        decreases volumes@.len() - i,
    {
        let letter = volumes[i].drive_letter.as_str();
        let ghost mid = *vm;
        let ghost before = letters.take(i as int);
        let ghost step = letters.take(i + 1);
        proof {
            assert(step.drop_last() =~= before);
            assert(step.last() == letter@);
            assert(letters[i as int] == letter@);
            assert forall|v: Seq<char>| #[trigger]
                step.contains(v) <==> before.contains(v) || v == letter@ by {
                if step.contains(v) {
                    let k = choose|k: int| 0 <= k < step.len() && step[k] == v;
                    assert(k < i ==> before[k] == v);
                }
                if before.contains(v) {
                    let k = choose|k: int| 0 <= k < before.len() && before[k] == v;
                    assert(step[k] == v);
                }
                assert(step[i as int] == letter@);
            }
            listed_after(names, before, letter@);
        }
        let present = vm.volumes();
        let known = has_name(&present, letter);
        proof {
            let all = query::strings(vm.vol_names@);
            let named = |n: Seq<char>| n.len() > 0;
            if all.filter(named).contains(letter@) {
                all.lemma_filter_contains_rev(named, letter@);
                let f = all.filter(named);
                let k = choose|k: int| 0 <= k < f.len() && f[k] == letter@;
                all.lemma_filter_pred(named, k);
            }
            if is_listed(all, letter@) {
                let k = choose|k: int| 0 <= k < all.len() && all[k] == letter@;
                all.lemma_filter_contains(named, k);
            }
            assert(known == is_listed(all, letter@));
        }
        proof {
            changes::without_by_name(vm.changes(), vm.vol_names@, letter@);
        }
        if !known {
            let _ = vm.add_volume(letter, is_admin, include_hidden_files, include_system_files);
            proof {
                assert(query::strings(vm.vol_names@).len() == vm.vol_names@.len());
                assert(query::strings(mid.vol_names@).len() == mid.vol_names@.len());
                if mid.stands() && vm.vol_names@.len() <= 256 && all_named(letters) {
                    assert(letters[i as int].len() > 0);
                    assert(vm.is_sound(0));
                }
            }
        }
        proof {
            assert(query::strings(vm.vol_names@).len() == vm.vol_names@.len());
            assert(query::strings(mid.vol_names@).len() == mid.vol_names@.len());
            if known {
                drives_stay(
                    *old(vm),
                    *vm,
                    before,
                    step,
                    letter@,
                    include_hidden_files,
                    include_system_files,
                );
            }
        }
        i += 1;
    }
    assert(letters.take(i as int) =~= letters);
    assert(query::strings(vm.vol_names@).len() == vm.vol_names@.len());
    get_volumes(volumes)
}

/// A drive that is listed adds nothing.
proof fn drives_stay(
    before: VolumeManager,
    now: VolumeManager,
    drives: Seq<Seq<char>>,
    step: Seq<Seq<char>>,
    letter: Seq<char>,
    include_hidden_files: bool,
    include_system_files: bool,
)
    requires
        has_drives(before, now, drives, include_hidden_files, include_system_files),
        step.len() > 0,
        step.drop_last() == drives,
        step.last() == letter,
        forall|v: Seq<char>| #[trigger]
            step.contains(v) <==> drives.contains(v) || v == letter,
        is_listed(query::strings(now.vol_names@), letter),
    ensures
        has_drives(before, now, step, include_hidden_files, include_system_files),
{
    let names = query::strings(before.vol_names@);
    listed_after(names, drives, letter);
    assert forall|v: Seq<char>| (drives.contains(v) && !is_listed(names, v)) == (
    #[trigger] step.contains(v) && !is_listed(names, v)) by {
        assert(step.contains(v) <==> drives.contains(v) || v == letter);
    }
}

} // verus!
