//! Starting the program, and what it does from time to time.

use crate::config::Config;
use crate::query;
use crate::query_lines;
use crate::search::SearchResult;
use crate::text;
use crate::text::same_text;
use crate::volume_manager::VolumeManager;
use crate::volumes;
use crate::volumes::{has_name, uses_journal, VolumeInfo};
use vstd::prelude::*;

verus! {

broadcast use vstd::string::group_string_axioms;

/// What the arguments of the program say.
#[derive(Clone, Copy, Debug, PartialEq, Eq, Structural)]
pub struct LaunchFlags {
    /// No window is shown.
    pub silent: bool,
    /// The program was started again with more rights.
    pub elevated: bool,
}

/// What the arguments of the program say.
pub fn parse_arguments(args: &Vec<String>) -> (r: LaunchFlags)
    ensures
        r.silent == (query::strings(args@).contains("-s"@) || query::strings(args@).contains(
            "-S"@,
        )),
        r.elevated == query::strings(args@).contains("--elevated"@),
{
    LaunchFlags {
        silent: has_name(args, "-s") || has_name(args, "-S"),
        elevated: has_name(args, "--elevated"),
    }
}

/// Whether the program asks for more rights: it has none, nobody started it silently or
/// because it asked before, and the settings want the journal.
pub fn wants_elevation(is_admin: bool, flags: LaunchFlags, config: &Option<Config>) -> (r: bool)
    ensures
        r == (!is_admin && !flags.silent && !flags.elevated && (*config matches Some(c)
            && c.index_settings.enable_usn_journal)),
{
    !is_admin && !flags.silent && !flags.elevated && match config {
        Some(c) => c.index_settings.enable_usn_journal,
        None => false,
    }
}

/// The arguments in one text, with blanks between them.
pub open spec fn spaced(args: Seq<Seq<char>>) -> Seq<char>
    decreases args.len(),
{
    if args.len() == 0 {
        seq![]
    } else if args.len() == 1 {
        args[0]
    } else {
        spaced(args.drop_last()).push(' ') + args.last()
    }
}

/// What the program is started again with: its own arguments, and a note that it was
/// started again.
pub fn relaunch_parameters(args: &Vec<String>) -> (r: String)
    ensures
        r@ == (if spaced(query::strings(args@)).len() == 0 {
            "--elevated"@
        } else {
            spaced(query::strings(args@)).push(' ') + "--elevated"@
        }),
{
    let ghost all = query::strings(args@);
    let mut params = String::new();
    let mut i: usize = 0;
    assert(all.take(0) =~= seq![]);
    while i < args.len()
        invariant
            i <= args@.len(),
            all == query::strings(args@),
            params@ == spaced(all.take(i as int)),
        decreases args@.len() - i,
    {
        let ghost before = params@;
        proof {
            let step = all.take(i + 1);
            assert(step.drop_last() =~= all.take(i as int));
            assert(step.last() == args@[i as int]@);
        }
        if i > 0 {
            params.push(' ');
        }
        params.append(args[i].as_str());
        assert(params@ =~= spaced(all.take(i + 1)));
        i += 1;
    }
    assert(all.take(i as int) =~= all);
    if !params.as_str().is_empty() {
        params.push(' ');
    }
    params.append("--elevated");
    assert(params@ =~= (if spaced(all).len() == 0 {
        "--elevated"@
    } else {
        spaced(all).push(' ') + "--elevated"@
    }));
    params
}

/// Whether the system started the program again; the code says why not.
pub fn relaunch_result(code: i32) -> (r: Result<(), i32>)
    ensures
        r == (if code > 32 {
            Ok(())
        } else {
            Err(code)
        }),
{
    if code > 32 {
        Ok(())
    } else {
        Err(code)
    }
}

/// What starts the program with the system.
pub fn startup_command(exe_path: &str) -> (r: String)
    ensures
        r@ == seq!['"'] + exe_path@ + "\" -s"@,
{
    let mut r = String::new();
    r.push('"');
    r.append(exe_path);
    r.append("\" -s");
    assert(r@ =~= seq!['"'] + exe_path@ + "\" -s"@);
    r
}

/// Whether the note that starts the program with the system has to be written: there is
/// none, or another one.
pub fn must_write_startup(present: &Option<String>, command: &str) -> (r: bool)
    ensures
        r == !(*present matches Some(p) && p@ == command@),
{
    match present {
        Some(p) => !same_text(p.as_str(), command),
        None => true,
    }
}

/// What an instance of the program does that may not be the only one.
#[derive(Clone, Copy, Debug, PartialEq, Eq, Structural)]
pub enum InstanceStep {
    /// It runs.
    Run,
    /// It waits for the other instance to end.
    Wait,
    /// It shows the window of the other instance and ends.
    GiveWay,
}

/// What an instance of the program does: one that takes over from another waits for it to
/// end, up to the deadline.
pub fn instance_step(other_runs: bool, takeover: bool, past_deadline: bool) -> (r: InstanceStep)
    ensures
        r == (if !other_runs {
            InstanceStep::Run
        } else if takeover && !past_deadline {
            InstanceStep::Wait
        } else {
            InstanceStep::GiveWay
        }),
{
    if !other_runs {
        InstanceStep::Run
    } else if takeover && !past_deadline {
        InstanceStep::Wait
    } else {
        InstanceStep::GiveWay
    }
}

/// A volume that the program starts with.
#[derive(Debug)]
pub struct StartVolume {
    pub name: String,
    /// Whether it is followed by its journal.
    pub journal: bool,
}

/// The names of volumes that the program starts with.
pub open spec fn start_names(v: Seq<StartVolume>) -> Seq<Seq<char>> {
    v.map_values(|s: StartVolume| s.name@)
}

/// The volumes that the program starts with: those that the settings name; else, for an
/// administrator, all; else C.
pub fn start_volumes(config: &Option<Config>, is_admin: bool, present: &Vec<VolumeInfo>) -> (r: Vec<
    StartVolume,
>)
    ensures
        match *config {
            Some(c) if c.monitored_volumes@.len() > 0 => {
                &&& start_names(r@) == query::strings(c.monitored_volumes@)
                &&& forall|i: int| 0 <= i < r@.len() ==> (#[trigger] r@[i]).journal == is_admin
            },
            _ => if is_admin {
                &&& r@.len() == present@.len()
                &&& forall|i: int|
                    0 <= i < r@.len() ==> (#[trigger] r@[i]).name@ == present@[i].drive_letter@
                        && r@[i].journal == volumes::is_ntfs(present@[i].file_system@)
            } else {
                start_names(r@) == seq!["C:"@] && !r@[0].journal
            },
        },
{
    let mut r: Vec<StartVolume> = Vec::new();
    if let Some(c) = config {
        if c.monitored_volumes.len() > 0 {
            let mut i: usize = 0;
            while i < c.monitored_volumes.len()
                invariant
                    i <= c.monitored_volumes@.len(),
                    r@.len() == i,
                    forall|k: int|
                        0 <= k < i ==> (#[trigger] r@[k]).name@ == c.monitored_volumes@[k]@
                            && r@[k].journal == is_admin,
                decreases c.monitored_volumes@.len() - i,
            {
                r.push(StartVolume { name: c.monitored_volumes[i].clone(), journal: is_admin });
                i += 1;
            }
            assert(start_names(r@) =~= query::strings(c.monitored_volumes@));
            return r;
        }
    }
    if is_admin {
        let mut i: usize = 0;
        while i < present.len()
            invariant
                i <= present@.len(),
                is_admin,
                r@.len() == i,
                forall|k: int|
                    0 <= k < i ==> (#[trigger] r@[k]).name@ == present@[k].drive_letter@
                        && r@[k].journal == volumes::is_ntfs(present@[k].file_system@),
            decreases present@.len() - i,
        {
            r.push(
                StartVolume {
                    name: present[i].drive_letter.clone(),
                    journal: uses_journal(is_admin, present[i].file_system.as_str()),
                },
            );
            i += 1;
        }
        r
    } else {
        r.push(StartVolume { name: "C:".to_string(), journal: false });
        assert(start_names(r@) =~= seq!["C:"@]);
        r
    }
}

/// What the task that follows the journals does next.
#[derive(Clone, Copy, Debug, PartialEq, Eq, Structural)]
pub enum PollStep {
    /// It does nothing for so many seconds.
    Sleep(u64),
    /// It asks every volume for changes, and again after so many seconds.
    Poll(u64),
}

/// What the task that follows the journals does next. It asks at the interval of the
/// settings, or every half minute where there are none; not while somebody searches, and
/// not at all where the interval is 0.
pub fn poll_step(config: &Option<Config>, is_searching: bool) -> (r: PollStep)
    ensures
        r == ({
            let interval = match *config {
                Some(c) => c.index_settings.update_interval as u64,
                None => 30,
            };
            if interval == 0 {
                PollStep::Sleep(60)
            } else if is_searching {
                PollStep::Sleep(5)
            } else {
                PollStep::Poll(interval)
            }
        }),
{
    let interval: u64 = match config {
        Some(c) => c.index_settings.update_interval as u64,
        None => 30,
    };
    if interval == 0 {
        PollStep::Sleep(60)
    } else if is_searching {
        PollStep::Sleep(5)
    } else {
        PollStep::Poll(interval)
    }
}

/// What the task that walks volumes again does next.
#[derive(Clone, Copy, Debug, PartialEq, Eq, Structural)]
pub enum WalkStep {
    /// It waits for its next turn, and the time of the next walk stays or is forgotten.
    Skip { forget: bool },
    /// It walks; the next walk is so many seconds after.
    Walk(u64),
}

/// How many seconds lie between two walks of a volume.
pub const WALK_INTERVAL_SECS: u64 = 300;

/// What the task that walks volumes again does next, where the next walk is due or not. It
/// walks every five minutes; not while somebody searches, and not at all where the interval
/// of the settings is 0.
pub fn walk_step(config: &Option<Config>, due: bool, is_searching: bool) -> (r: WalkStep)
    ensures
        r == (if *config matches Some(c) && c.index_settings.update_interval == 0 {
            WalkStep::Skip { forget: true }
        } else if !due || is_searching {
            WalkStep::Skip { forget: false }
        } else {
            WalkStep::Walk(WALK_INTERVAL_SECS)
        }),
{
    let is_off = match config {
        Some(c) => c.index_settings.update_interval == 0,
        None => false,
    };
    if is_off {
        WalkStep::Skip { forget: true }
    } else if !due || is_searching {
        WalkStep::Skip { forget: false }
    } else {
        WalkStep::Walk(WALK_INTERVAL_SECS)
    }
}

/// Whether a volume that is in the index is walked, because it is not followed by its
/// journal.
pub open spec fn is_walked(vm: VolumeManager, v: Seq<char>) -> bool {
    vm.volumes@.contains_key(v) && !vm.volumes@[v].use_usn
}

/// Whether one of the volumes is walked.
pub fn any_walked(vm: &VolumeManager, volumes: &Vec<String>) -> (r: bool)
    requires
        vm.wf(),
    ensures
        r == exists|i: int|
            0 <= i < volumes@.len() && is_walked(*vm, (#[trigger] volumes@[i])@),
{
    let mut i: usize = 0;
    while i < volumes.len()
        invariant
            i <= volumes@.len(),
            vm.wf(),
            forall|k: int| 0 <= k < i ==> !is_walked(*vm, (#[trigger] volumes@[k])@),
        decreases volumes@.len() - i,
    {
        if let Some(m) = vm.get_monitor(volumes[i].as_str()) {
            if !m.use_usn {
                assert(is_walked(*vm, volumes@[i as int]@));
                return true;
            }
        }
        i += 1;
    }
    false
}

/// Whether every volume has files, so that changes can be asked for.
pub fn all_ready(vm: &VolumeManager, volumes: &Vec<String>) -> (r: bool)
    requires
        vm.wf(),
    ensures
        r == forall|i: int|
            0 <= i < volumes@.len() ==> volumes::files_of(*vm, (#[trigger] volumes@[i])@) > 0,
{
    let mut i: usize = 0;
    while i < volumes.len()
        invariant
            i <= volumes@.len(),
            vm.wf(),
            forall|k: int|
                0 <= k < i ==> volumes::files_of(*vm, (#[trigger] volumes@[k])@) > 0,
        decreases volumes@.len() - i,
    {
        if vm.get_file_count(volumes[i].as_str()) == 0 {
            assert(!(volumes::files_of(*vm, volumes@[i as int]@) > 0));
            return false;
        }
        i += 1;
    }
    true
}

/// The ids of the files that a batch of changes is about: the added, then the removed,
/// then the changed ones.
pub open spec fn changed_ids(
    added: Seq<SearchResult>,
    removed: Seq<(u64, String)>,
    updated: Seq<(u64, SearchResult)>,
) -> Seq<u32> {
    added.map_values(|r: SearchResult| r.file_id) + removed.map_values(
        |r: (u64, String)| r.0 as u32,
    ) + updated.map_values(|u: (u64, SearchResult)| u.0 as u32)
}

/// The ids of the files that a batch of changes is about.
pub fn changed_fids(
    added: &Vec<SearchResult>,
    removed: &Vec<(u64, String)>,
    updated: &Vec<(u64, SearchResult)>,
) -> (r: Vec<u32>)
    ensures
        r@ == changed_ids(added@, removed@, updated@),
{
    let mut r: Vec<u32> = Vec::new();
    let mut i: usize = 0;
    while i < added.len()
        invariant
            i <= added@.len(),
            r@ == added@.take(i as int).map_values(|r: SearchResult| r.file_id),
        decreases added@.len() - i,
    {
        r.push(added[i].file_id);
        assert(r@ =~= added@.take(i + 1).map_values(|r: SearchResult| r.file_id));
        i += 1;
    }
    assert(added@.take(i as int) =~= added@);
    let ghost first = r@;
    let mut j: usize = 0;
    assert(r@ =~= first + removed@.take(0).map_values(|r: (u64, String)| r.0 as u32));
    while j < removed.len()
        invariant
            j <= removed@.len(),
            r@ == first + removed@.take(j as int).map_values(|r: (u64, String)| r.0 as u32),
        decreases removed@.len() - j,
    {
        r.push(#[verifier::truncate] (removed[j].0 as u32));
        assert(r@ =~= first + removed@.take(j + 1).map_values(|r: (u64, String)| r.0 as u32));
        j += 1;
    }
    assert(removed@.take(j as int) =~= removed@);
    let ghost second = r@;
    let mut k: usize = 0;
    assert(r@ =~= second + updated@.take(0).map_values(|u: (u64, SearchResult)| u.0 as u32));
    while k < updated.len()
        invariant
            k <= updated@.len(),
            r@ == second + updated@.take(k as int).map_values(
                |u: (u64, SearchResult)| u.0 as u32,
            ),
        decreases updated@.len() - k,
    {
        r.push(#[verifier::truncate] (updated[k].0 as u32));
        assert(r@ =~= second + updated@.take(k + 1).map_values(
            |u: (u64, SearchResult)| u.0 as u32,
        ));
        k += 1;
    }
    assert(updated@.take(k as int) =~= updated@);
    assert(r@ =~= changed_ids(added@, removed@, updated@));
    r
}

/// By how many files a volume grew, and by how many it shrank.
pub fn count_change(before: usize, after: usize) -> (r: (usize, usize))
    ensures
        r.0 == (if after > before {
            after - before
        } else {
            0
        }),
        r.1 == (if before > after {
            before - after
        } else {
            0
        }),
        after - before == r.0 - r.1,
{
    if after >= before {
        (after - before, 0)
    } else {
        (0, before - after)
    }
}

/// The arguments that the program is started again with are its own, in their order, and one more
/// behind them, where no argument is blank or holds a blank.
pub proof fn arguments_come_back(args: Seq<Seq<char>>)
    requires
        forall|i: int|
            0 <= i < args.len() ==> (#[trigger] args[i]).len() > 0 && query_lines::is_unbroken(
                args[i],
            ),
    ensures
        args.len() > 0 ==> spaced(args).len() > 0,
        text::words(
            if spaced(args).len() == 0 {
                "--elevated"@
            } else {
                spaced(args).push(' ') + "--elevated"@
            },
        ) == args.push("--elevated"@),
{
    reveal_strlit("--elevated");
    let more = "--elevated"@;
    assert(query_lines::is_unbroken(more));
    spaced_words(args);
    if args.len() == 0 {
        query_lines::one_word(more);
        assert(seq![more] =~= args.push(more));
    } else {
        query_lines::one_word_more(spaced(args), ' ', more);
    }
}

proof fn spaced_words(args: Seq<Seq<char>>)
    requires
        forall|i: int|
            0 <= i < args.len() ==> (#[trigger] args[i]).len() > 0 && query_lines::is_unbroken(
                args[i],
            ),
    ensures
        text::words(spaced(args)) == args,
        args.len() > 0 ==> spaced(args).len() > 0,
    decreases args.len(),
{
    if args.len() == 0 {
        assert(text::words(spaced(args)) =~= args);
    } else if args.len() == 1 {
        query_lines::one_word(args[0]);
        assert(seq![args[0]] =~= args);
    } else {
        let (init, last) = (args.drop_last(), args[args.len() - 1]);
        spaced_words(init);
        query_lines::one_word_more(spaced(init), ' ', last);
        assert(init.push(last) =~= args);
    }
}

/// The ids that a batch of changes is about are those of its added, removed and changed files, and
/// no others.
pub proof fn changed_are_named(
    added: Seq<SearchResult>,
    removed: Seq<(u64, String)>,
    updated: Seq<(u64, SearchResult)>,
    id: u32,
)
    ensures
        changed_ids(added, removed, updated).contains(id) <==> {
            ||| exists|i: int| 0 <= i < added.len() && (#[trigger] added[i]).file_id == id
            ||| exists|i: int| 0 <= i < removed.len() && (#[trigger] removed[i]).0 as u32 == id
            ||| exists|i: int| 0 <= i < updated.len() && (#[trigger] updated[i]).0 as u32 == id
        },
{
    let all = changed_ids(added, removed, updated);
    let (a, b) = (added.len() as int, removed.len() as int);
    if all.contains(id) {
        let k = choose|k: int| 0 <= k < all.len() && all[k] == id;
        if k < a {
            assert(added[k].file_id == id);
        } else if k < a + b {
            assert(removed[k - a].0 as u32 == id);
        } else {
            assert(updated[k - a - b].0 as u32 == id);
        }
    }
    if exists|i: int| 0 <= i < added.len() && (#[trigger] added[i]).file_id == id {
        let i = choose|i: int| 0 <= i < added.len() && (#[trigger] added[i]).file_id == id;
        assert(all[i] == id);
    }
    if exists|i: int| 0 <= i < removed.len() && (#[trigger] removed[i]).0 as u32 == id {
        let i = choose|i: int| 0 <= i < removed.len() && (#[trigger] removed[i]).0 as u32 == id;
        assert(all[a + i] == id);
    }
    if exists|i: int| 0 <= i < updated.len() && (#[trigger] updated[i]).0 as u32 == id {
        let i = choose|i: int| 0 <= i < updated.len() && (#[trigger] updated[i]).0 as u32 == id;
        assert(all[a + b + i] == id);
    }
}

} // verus!
