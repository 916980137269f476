//! The log files: where they are, when one is full, which are removed, and what a line
//! looks like.

use crate::sorting;
use crate::sorting::{merge_sort, SortOrder};
use crate::text;
use crate::text::{chars_of, contains_part, ends_with_char, has_prefix, has_suffix};
use vstd::prelude::*;

verus! {

broadcast use vstd::string::group_string_axioms;

/// How many bytes a log file may have.
pub const MAX_LOG_FILE_SIZE: u64 = 5242880;

/// How many log files are kept, backups among them.
pub const MAX_LOG_FILES: usize = 7;

/// The path of something in a directory.
pub open spec fn inside(dir: Seq<char>, name: Seq<char>) -> Seq<char> {
    if dir.len() == 0 || dir.last() == '\\' || dir.last() == '/' {
        dir + name
    } else {
        dir.push('\\') + name
    }
}

/// The path of something in a directory.
fn join(dir: &str, name: &str) -> (r: String)
    ensures
        r@ == inside(dir@, name@),
{
    let mut r = dir.to_string();
    if !dir.is_empty() && !ends_with_char(dir, '\\') && !ends_with_char(dir, '/') {
        r.push('\\');
    }
    r.append(name);
    r
}

/// The directory of the log files: in the directory for the data of programs, or where
/// that is not known, in that of the user.
pub fn log_dir_path(data_dir: Option<String>, user_profile: Option<String>) -> (r: Option<String>)
    ensures
        match (data_dir, user_profile) {
            (Some(d), _) => r matches Some(dir) && dir@ == inside(
                inside(d@, "everyFile"@),
                "logs"@,
            ),
            (None, Some(u)) => r matches Some(dir) && dir@ == inside(
                inside(inside(inside(u@, "AppData"@), "Roaming"@), "everyFile"@),
                "logs"@,
            ),
            (None, None) => r is None,
        },
{
    let base = match data_dir {
        Some(d) => d,
        None => match user_profile {
            Some(u) => join(join(u.as_str(), "AppData").as_str(), "Roaming"),
            None => {
                return None;
            },
        },
    };
    Some(join(join(base.as_str(), "everyFile").as_str(), "logs"))
}

/// The name of the log file of a day.
pub fn log_file_name(date: &str) -> (r: String)
    ensures
        r@ == "everyFile-"@ + date@ + ".log"@,
{
    let mut r = "everyFile-".to_string();
    r.append(date);
    r.append(".log");
    r
}

/// The name that the full log file of a day gets at a moment.
pub fn backup_name(date: &str, moment: &str) -> (r: String)
    ensures
        r@ == "everyFile-"@ + date@ + seq!['.'] + moment@ + ".log.bak"@,
{
    let mut r = "everyFile-".to_string();
    r.append(date);
    r.push('.');
    r.append(moment);
    r.append(".log.bak");
    assert(r@ =~= "everyFile-"@ + date@ + seq!['.'] + moment@ + ".log.bak"@);
    r
}

/// Whether a log file is full; one whose size cannot be told is not.
pub fn is_full(size: Option<u64>) -> (r: bool)
    ensures
        r == (size matches Some(n) && n >= MAX_LOG_FILE_SIZE),
{
    match size {
        Some(n) => n >= MAX_LOG_FILE_SIZE,
        None => false,
    }
}

/// Whether a file of this name is a log file or the backup of one.
pub open spec fn is_log(name: Seq<char>) -> bool {
    text::begins_with(name, "everyFile-"@) && (text::finishes_with(name, ".log"@)
        || text::finishes_with(name, ".log.bak"@))
}

/// Whether a file of this name is a log file or the backup of one.
pub fn is_log_name(name: &str) -> (r: bool)
    ensures
        r == is_log(name@),
{
    let chars = chars_of(name);
    has_prefix(&chars, "everyFile-") && (has_suffix(&chars, ".log") || has_suffix(
        &chars,
        ".log.bak",
    ))
}

/// The log file of a day counts as one, and so does its backup.
pub proof fn log_names(date: Seq<char>, moment: Seq<char>)
    ensures
        is_log("everyFile-"@ + date + ".log"@),
        is_log("everyFile-"@ + date + seq!['.'] + moment + ".log.bak"@),
{
    reveal_strlit("everyFile-");
    reveal_strlit(".log");
    reveal_strlit(".log.bak");
    let name = "everyFile-"@ + date + ".log"@;
    assert(name.subrange(0, 10) =~= "everyFile-"@);
    assert(name.subrange(name.len() - 4, name.len() as int) =~= ".log"@);
    let backup = "everyFile-"@ + date + seq!['.'] + moment + ".log.bak"@;
    assert(backup.subrange(0, 10) =~= "everyFile-"@);
    assert(backup.subrange(backup.len() - 8, backup.len() as int) =~= ".log.bak"@);
}

/// The order of files by the times of their last change, the newest first. Files whose
/// time is not known come last, and files of one time stay as they stood.
struct ByAge<'a> {
    times: &'a Vec<Option<u64>>,
}

/// How new a file is.
pub open spec fn newness(times: Seq<Option<u64>>, i: usize) -> int {
    if i < times.len() {
        match times[i as int] {
            Some(t) => t as int,
            None => -1,
        }
    } else {
        -2
    }
}

/// Whether the file `a` comes no later than the file `b`.
pub open spec fn no_older(times: Seq<Option<u64>>, a: usize, b: usize) -> bool {
    newness(times, a) > newness(times, b) || (newness(times, a) == newness(times, b) && a <= b)
}

impl<'a> SortOrder<usize> for ByAge<'a> {
    closed spec fn covers(&self, a: usize) -> bool {
        a < self.times@.len()
    }

    closed spec fn leq(&self, a: usize, b: usize) -> bool {
        no_older(self.times@, a, b)
    }

    proof fn total(&self) {
    }

    fn le(&self, a: &usize, b: &usize) -> (r: bool) {
        match (self.times[*a], self.times[*b]) {
            (Some(x), Some(y)) => x > y || (x == y && *a <= *b),
            (Some(_), None) => true,
            (None, Some(_)) => false,
            (None, None) => *a <= *b,
        }
    }
}

/// The places of files, the newest first.
pub open spec fn by_age(times: Seq<Option<u64>>) -> Seq<usize> {
    Seq::new(times.len(), |i: int| i as usize).sort_by(
        |a: usize, b: usize| no_older(times, a, b),
    )
}

/// The places of the log files that are removed: all but the newest, of which as many stay
/// as are kept.
pub fn expired_logs(times: &Vec<Option<u64>>) -> (r: Vec<usize>)
    ensures
        r@ == (if times@.len() <= MAX_LOG_FILES {
            seq![]
        } else {
            by_age(times@).skip(MAX_LOG_FILES as int)
        }),
{
    let mut places: Vec<usize> = Vec::new();
    let mut i: usize = 0;
    while i < times.len()
        invariant
            i <= times@.len(),
            places@ == Seq::new(i as nat, |k: int| k as usize),
        decreases times@.len() - i,
    {
        places.push(i);
        assert(places@ =~= Seq::new((i + 1) as nat, |k: int| k as usize));
        i += 1;
    }
    let order = ByAge { times };
    let sorted = merge_sort(&order, &places);
    proof {
        sorting::in_order_sorts(order, places@);
        assert(places@ =~= Seq::new(times@.len(), |i: int| i as usize));
        let f = |a: usize, b: usize| order.leq(a, b);
        let g = |a: usize, b: usize| no_older(times@, a, b);
        assert(f =~= g);
    }
    let mut r: Vec<usize> = Vec::new();
    let mut k: usize = MAX_LOG_FILES;
    if sorted.len() <= MAX_LOG_FILES {
        return r;
    }
    while k < sorted.len()
        invariant
            MAX_LOG_FILES <= k <= sorted@.len(),
            r@ == sorted@.subrange(MAX_LOG_FILES as int, k as int),
        decreases sorted@.len() - k,
    {
        r.push(sorted[k]);
        assert(r@ =~= sorted@.subrange(MAX_LOG_FILES as int, k + 1));
        k += 1;
    }
    assert(r@ =~= sorted@.skip(MAX_LOG_FILES as int));
    r
}

/// A log file that is kept is no older than one that is removed, where the times of both are known,
/// and no file counts twice.
pub proof fn newest_are_kept(times: Seq<Option<u64>>, kept: int, removed: int)
    requires
        0 <= kept < MAX_LOG_FILES <= removed < times.len(),
    ensures
        by_age(times).len() == times.len(),
        no_older(times, by_age(times)[kept], by_age(times)[removed]),
        by_age(times)[kept] < times.len(),
        by_age(times)[removed] < times.len(),
        match (times[by_age(times)[kept] as int], times[by_age(times)[removed] as int]) {
            (Some(a), Some(b)) => a >= b,
            (None, Some(_)) => false,
            _ => true,
        },
        times.len() <= usize::MAX ==> by_age(times).no_duplicates(),
{
    broadcast use vstd::seq_lib::group_to_multiset_ensures;

    let places = Seq::new(times.len(), |i: int| i as usize);
    let leq = |a: usize, b: usize| no_older(times, a, b);
    places.lemma_sort_by_ensures(leq);
    assert(places.len() == places.to_multiset().len());
    assert(by_age(times).len() == by_age(times).to_multiset().len());
    assert(leq(by_age(times)[kept], by_age(times)[removed]));
    let sorted = by_age(times);
    assert forall|i: int| 0 <= i < sorted.len() implies #[trigger] sorted[i] < times.len() by {
        assert(sorted.contains(sorted[i]));
        vstd::seq_lib::to_multiset_contains(sorted, sorted[i]);
        vstd::seq_lib::to_multiset_contains(places, sorted[i]);
    }
    if times.len() <= usize::MAX {
        assert(places.no_duplicates());
        places.lemma_multiset_has_no_duplicates();
        sorted.lemma_multiset_has_no_duplicates_conv();
    }
}

/// How important a line is.
#[derive(Clone, Copy, Debug, PartialEq, Eq, Structural)]
pub enum LogLevel {
    Error,
    Warn,
    Info,
    Debug,
    Trace,
}

/// Writes lines to the console and to the log file.
#[derive(Clone, Copy, Debug)]
pub struct DualLogger;

/// The name of a level, filled up to five characters.
pub open spec fn level_text(level: LogLevel) -> Seq<char> {
    match level {
        LogLevel::Error => "ERROR"@,
        LogLevel::Warn => "WARN "@,
        LogLevel::Info => "INFO "@,
        LogLevel::Debug => "DEBUG"@,
        LogLevel::Trace => "TRACE"@,
    }
}

impl DualLogger {
    /// Whether lines of this level are written.
    pub fn enabled(&self, level: LogLevel) -> (r: bool)
        ensures
            r == (level == LogLevel::Error || level == LogLevel::Warn || level == LogLevel::Info),
    {
        level == LogLevel::Error || level == LogLevel::Warn || level == LogLevel::Info
    }

    /// Whether a line from `target` is written. The worker that follows the journals would
    /// write too many.
    pub fn takes(&self, level: LogLevel, target: &str) -> (r: bool)
        ensures
            r == ((level == LogLevel::Error || level == LogLevel::Warn || level == LogLevel::Info)
                && !text::has_part(target@, "usn_worker"@)),
    {
        self.enabled(level) && !contains_part(&chars_of(target), &chars_of("usn_worker"))
    }

    /// A line.
    pub fn line(&self, moment: &str, level: LogLevel, target: &str, message: &str) -> (r: String)
        ensures
            r@ == moment@ + seq![' '] + level_text(level) + seq![' ', '['] + target@ + seq![
                ']',
                ' ',
            ] + message@,
    {
        let mut r = moment.to_string();
        r.push(' ');
        r.append(
            match level {
                LogLevel::Error => "ERROR",
                LogLevel::Warn => "WARN ",
                LogLevel::Info => "INFO ",
                LogLevel::Debug => "DEBUG",
                LogLevel::Trace => "TRACE",
            },
        );
        r.push(' ');
        r.push('[');
        r.append(target);
        r.push(']');
        r.push(' ');
        r.append(message);
        assert(r@ =~= moment@ + seq![' '] + level_text(level) + seq![' ', '['] + target@ + seq![
            ']',
            ' ',
        ] + message@);
        r
    }
}

/// What counts as a log file begins with the name of the program and ends as logs or their backups
/// do.
pub proof fn logs_are_named(name: Seq<char>)
    requires
        is_log(name),
    ensures
        exists|day: Seq<char>|
            name == #[trigger] ("everyFile-"@ + day) + ".log"@ || name == ("everyFile-"@ + day)
                + ".log.bak"@,
{
    reveal_strlit("everyFile-");
    reveal_strlit(".log");
    reveal_strlit(".log.bak");
    let (start, n) = ("everyFile-"@, name.len() as int);
    let end = if text::finishes_with(name, ".log"@) {
        ".log"@
    } else {
        ".log.bak"@
    };
    assert(name.subrange(0, 10) == start);
    assert(name.subrange(n - end.len(), n) == end);
    assert forall|i: int| 0 <= i < 10 implies #[trigger] name[i] == start[i] by {
        assert(name.subrange(0, 10)[i] == name[i]);
    }
    assert(name[n - end.len()] == end[0]);
    let day = name.subrange(10, n - end.len());
    assert(name =~= start + day + end);
}

} // verus!
