//! What a search returns, what the index stores of a file, and what a search may
//! be asked for.

use crate::ntfs_time;
use crate::outside;
use crate::text;
use crate::text::decimal_text;
use vstd::prelude::*;

verus! {

broadcast use vstd::string::group_string_axioms;

/// A file as it is handed to a user: with its whole path.
#[derive(Debug)]
pub struct SearchResult {
    pub name: String,
    pub path: String,
    pub size: u64,
    pub modified_time: i64,
    pub file_id: u32,
    pub is_directory: bool,
}

/// What a `SearchResult` holds.
#[verifier::ext_equal]
pub struct ResultModel {
    pub name: Seq<char>,
    pub path: Seq<char>,
    pub size: u64,
    pub modified_time: i64,
    pub file_id: u32,
    pub is_directory: bool,
}

impl View for SearchResult {
    type V = ResultModel;

    open spec fn view(&self) -> ResultModel {
        ResultModel {
            name: self.name@,
            path: self.path@,
            size: self.size,
            modified_time: self.modified_time,
            file_id: self.file_id,
            is_directory: self.is_directory,
        }
    }
}

impl Clone for SearchResult {
    fn clone(&self) -> (r: Self)
        ensures
            r == *self,
    {
        SearchResult {
            name: self.name.clone(),
            path: self.path.clone(),
            size: self.size,
            modified_time: self.modified_time,
            file_id: self.file_id,
            is_directory: self.is_directory,
        }
    }
}

/// A file as the index stores it: its directory by id, its time in 32 bits.
#[derive(Debug)]
pub struct FileEntry {
    pub name: String,
    pub size: u64,
    pub path_id: u32,
    pub file_id: u32,
    pub modified_time: i32,
    pub is_directory: bool,
}

/// What a `FileEntry` holds.
#[verifier::ext_equal]
pub struct FileModel {
    pub name: Seq<char>,
    pub size: u64,
    pub path_id: u32,
    pub file_id: u32,
    pub modified_time: i32,
    pub is_directory: bool,
}

impl View for FileEntry {
    type V = FileModel;

    open spec fn view(&self) -> FileModel {
        FileModel {
            name: self.name@,
            size: self.size,
            path_id: self.path_id,
            file_id: self.file_id,
            modified_time: self.modified_time,
            is_directory: self.is_directory,
        }
    }
}

impl Clone for FileEntry {
    fn clone(&self) -> (r: Self)
        ensures
            r == *self,
    {
        FileEntry {
            name: self.name.clone(),
            size: self.size,
            path_id: self.path_id,
            file_id: self.file_id,
            modified_time: self.modified_time,
            is_directory: self.is_directory,
        }
    }
}

/// `n` divided by `d`, rounded to the nearest whole number, and to the even one of two
/// that are as near.
pub open spec fn nearest_quotient(n: nat, d: nat) -> nat {
    if 2 * (n % d) < d || (2 * (n % d) == d && (n / d) % 2 == 0) {
        n / d
    } else {
        n / d + 1
    }
}

/// The distance of the whole numbers near `n` that 53 binary digits can write.
pub open spec fn double_step(n: nat) -> nat
    decreases n,
{
    if n < 0x20000000000000 {
        1
    } else {
        2 * double_step(n / 2)
    }
}

/// The number nearest to `n` that 53 binary digits can write.
pub open spec fn nearest_double(n: nat) -> nat {
    nearest_quotient(n, double_step(n)) * double_step(n)
}

/// The largest unit that a size reaches: how many bytes it has, and its name.
pub open spec fn unit_of(size: u64) -> (nat, Seq<char>) {
    if size >= 1024 * 1024 * 1024 {
        (1024 * 1024 * 1024, " GB"@)
    } else if size >= 1024 * 1024 {
        (1024 * 1024, " MB"@)
    } else if size >= 1024 {
        (1024, " KB"@)
    } else {
        (1, " B"@)
    }
}

/// A size as text: in bytes, or in the largest unit that it reaches, rounded to tenths.
pub open spec fn size_text(size: u64) -> Seq<char> {
    let unit = unit_of(size);
    if unit.0 == 1 {
        text::decimal(size as nat) + unit.1
    } else {
        let tenths = nearest_quotient(10 * nearest_double(size as nat), unit.0);
        text::decimal(tenths / 10) + seq!['.', text::digit_of(tenths % 10)] + unit.1
    }
}

/// The steps stay small, and the nearest number is near.
proof fn double_is_near(n: nat)
    ensures
        1 <= double_step(n),
        double_step(n) > 1 ==> double_step(n) * 0x10000000000000 <= n,
    decreases n,
{
    if n >= 0x20000000000000 {
        double_is_near(n / 2);
    }
}

/// `n` divided by `d`, rounded to the nearest whole number, and to the even one of two
/// that are as near.
fn divide_nearest(n: u128, d: u128) -> (r: u128)
    requires
        0 < d <= u64::MAX,
        n <= 0x1_0000_0000_0000_0000_0000,
    ensures
        r == nearest_quotient(n as nat, d as nat),
{
    let q: u128 = n / d;
    let rest: u128 = n % d;
    assert(q <= n) by (nonlinear_arith)
        requires
            q == n / d,
            d > 0,
    ;
    if 2 * rest < d || (2 * rest == d && q % 2 == 0) {
        q
    } else {
        q + 1
    }
}

/// The number nearest to `n` that 53 binary digits can write.
fn round_to_double(n: u64) -> (r: u128)
    ensures
        r == nearest_double(n as nat),
        r <= 0x2_0000_0000_0000_0000,
{
    let mut step: u128 = 1;
    let mut rest: u64 = n;
    while rest >= 0x20000000000000
        invariant
            double_step(n as nat) == step * double_step(rest as nat),
            1 <= step,
            step * rest <= n,
        decreases rest,
    {
        proof {
            let (s, x, d) = (step as int, rest as int, double_step((rest / 2) as nat) as int);
            assert(s * (2 * d) == (2 * s) * d) by (nonlinear_arith);
            assert((2 * s) * (x / 2) <= s * x) by (nonlinear_arith)
                requires
                    s >= 1,
                    2 * (x / 2) <= x,
            ;
            assert(s <= s * x) by (nonlinear_arith)
                requires
                    s >= 1,
                    x >= 1,
            ;
        }
        step = step * 2;
        rest = rest / 2;
    }
    proof {
        assert(double_step(rest as nat) == 1);
        assert(step * double_step(rest as nat) == step) by (nonlinear_arith)
            requires
                double_step(rest as nat) == 1,
        ;
        double_is_near(n as nat);
        if step > 1 {
            assert(step <= n) by (nonlinear_arith)
                requires
                    step * 0x10000000000000 <= n,
                    step >= 1,
            ;
        }
    }
    let q: u128 = divide_nearest(n as u128, step);
    proof {
        let (m, s, k) = (n as int, step as int, q as int);
        vstd::arithmetic::div_mod::lemma_fundamental_div_mod(m, s);
        assert((m / s) * s <= m) by (nonlinear_arith)
            requires
                m == s * (m / s) + m % s,
                m % s >= 0,
        ;
        assert(k * s <= (m / s) * s + s) by (nonlinear_arith)
            requires
                k <= m / s + 1,
                s >= 1,
        ;
    }
    q * step
}

/// The time text of a number of seconds from the beginning of 1970: the beginning of
/// 1970 where no date can be given.
pub open spec fn time_text(seconds: i64) -> Seq<char> {
    match outside::utc_time_text(seconds, "%Y/%m/%d %H:%M:%S"@) {
        Some(t) => t,
        None => "1970/01/01 00:00:00"@,
    }
}

impl SearchResult {
    /// The size as text.
    pub fn formatted_size(&self) -> (r: String)
        ensures
            r@ == size_text(self.size),
    {
        Self::format_size_static(self.size)
    }

    /// A number of bytes as text: in the largest unit that it reaches, rounded to tenths.
    pub fn format_size_static(size: u64) -> (r: String)
        ensures
            r@ == size_text(size),
    {
        if size < 1024 {
            let mut r = decimal_text(size);
            r.append(" B");
            return r;
        }
        let unit: u128 = if size >= 1073741824 {
            1073741824
        } else if size >= 1048576 {
            1048576
        } else {
            1024
        };
        let tenths: u128 = divide_nearest(10 * round_to_double(size), unit);
        assert(tenths <= u64::MAX) by {
            let m = 10 * nearest_double(size as nat);
            assert(m / (unit as nat) <= 0x500_0000_0000_0000) by (nonlinear_arith)
                requires
                    m <= 0x14_0000_0000_0000_0000,
                    unit >= 1024,
            ;
        }
        let mut r = decimal_text((tenths / 10) as u64);
        r.push('.');
        r.append(decimal_text((tenths % 10) as u64).as_str());
        proof {
            assert(text::decimal((tenths % 10) as nat) =~= seq![
                text::digit_of((tenths % 10) as nat),
            ]);
        }
        let ghost digits = r@;
        if size >= 1073741824 {
            r.append(" GB");
        } else if size >= 1048576 {
            r.append(" MB");
        } else {
            r.append(" KB");
        }
        assert(digits =~= text::decimal((tenths / 10) as nat) + seq![
            '.',
            text::digit_of((tenths % 10) as nat),
        ]);
        r
    }

    /// The time of the last change, as text.
    pub fn formatted_modified_time(&self) -> (r: String)
        ensures
            r@ == time_text(self.modified_time),
    {
        Self::format_time_static(self.modified_time)
    }

    /// A number of seconds from the beginning of 1970, as text: its UTC date and time of day.
    pub fn format_time_static(timestamp: i64) -> (r: String)
        ensures
            r@ == time_text(timestamp),
            ntfs_time::is_common_time(timestamp) ==> ntfs_time::is_time_text(
                Some(ntfs_time::ticks_of(timestamp)),
                r@,
            ),
    {
        Self::time_or_epoch(outside::utc_time(timestamp, "%Y/%m/%d %H:%M:%S"))
    }

    /// `time`, or the beginning of 1970 where there is none.
    pub fn time_or_epoch(time: Option<String>) -> (r: String)
        ensures
            r@ == (match time {
                Some(t) => t@,
                None => "1970/01/01 00:00:00"@,
            }),
    {
        match time {
            Some(t) => t,
            None => "1970/01/01 00:00:00".to_string(),
        }
    }
}

/// What a search hands out of a stored file whose path is `path`.
pub open spec fn result_of(f: FileModel, path: Seq<char>) -> ResultModel {
    ResultModel {
        name: f.name,
        path,
        size: f.size,
        modified_time: f.modified_time as i64,
        file_id: f.file_id,
        is_directory: f.is_directory,
    }
}

impl FileEntry {
    /// The stored file with its path, as a search hands it out.
    pub fn to_search_result(&self, full_path: String) -> (r: SearchResult)
        ensures
            r@ == result_of(self@, full_path@),
    {
        SearchResult {
            name: self.name.clone(),
            path: full_path,
            size: self.size,
            modified_time: self.modified_time as i64,
            file_id: self.file_id,
            is_directory: self.is_directory,
        }
    }

    /// A file to store; of the time, the lowest 32 bits are kept.
    pub fn new(
        name: String,
        path_id: u32,
        size: u64,
        modified_time: i64,
        file_id: u32,
        is_directory: bool,
    ) -> (r: Self)
        ensures
            r == (FileEntry {
                name,
                size,
                path_id,
                file_id,
                modified_time: modified_time as i32,
                is_directory,
            }),
    {
        FileEntry {
            name,
            path_id,
            size,
            modified_time: #[verifier::truncate] (modified_time as i32),
            file_id,
            is_directory,
        }
    }
}

/// A time that fits 32 bits is stored and handed out unchanged.
pub proof fn stored_time_reads_back(t: i64)
    requires
        i32::MIN <= t <= i32::MAX,
    ensures
        (t as i32) as i64 == t,
{
}

/// What the results are sorted by.
#[derive(Clone, Copy, Debug, PartialEq, Eq, Structural)]
pub enum SortBy {
    Name,
    Path,
    Size,
    ModifiedTime,
    Score,
}

/// Which end of the order comes first.
#[derive(Clone, Copy, Debug, PartialEq, Eq, Structural)]
pub enum SortDirection {
    Ascending,
    Descending,
}

/// What a search is asked for besides its query.
#[derive(Clone, Copy, Debug, PartialEq, Eq, Structural)]
pub struct SearchOptions {
    pub sort_by: SortBy,
    pub sort_direction: SortDirection,
    pub limit: usize,
    pub load_all: bool,
    pub files_only: bool,
    pub directories_only: bool,
    pub case_sensitive: bool,
    pub match_full_path: bool,
    pub min_size: Option<u64>,
    pub max_size: Option<u64>,
}

impl Default for SearchOptions {
    fn default() -> (r: Self)
        ensures
            r == (SearchOptions {
                sort_by: SortBy::Score,
                sort_direction: SortDirection::Descending,
                limit: 1000000,
                load_all: false,
                files_only: false,
                directories_only: false,
                case_sensitive: false,
                match_full_path: false,
                min_size: None,
                max_size: None,
            }),
    {
        SearchOptions {
            sort_by: SortBy::Score,
            sort_direction: SortDirection::Descending,
            limit: 1000000,
            load_all: false,
            files_only: false,
            directories_only: false,
            case_sensitive: false,
            match_full_path: false,
            min_size: None,
            max_size: None,
        }
    }
}

} // verus!
