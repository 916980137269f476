//! Search requests: what is asked for in words, and what is answered.

use crate::outside;
use crate::search::{SearchOptions, SearchResult, SortBy, SortDirection};
use crate::text::same_text;
use crate::volume_manager::VolumeManager;
use vstd::prelude::*;

verus! {

broadcast use vstd::string::group_string_axioms;

/// What the results are sorted by, in words.
pub open spec fn sort_by_in(s: Seq<char>) -> SortBy {
    if s == "name"@ {
        SortBy::Name
    } else if s == "path"@ {
        SortBy::Path
    } else if s == "size"@ {
        SortBy::Size
    } else if s == "modified"@ || s == "modified_time"@ {
        SortBy::ModifiedTime
    } else {
        SortBy::Score
    }
}

/// Which end of the order comes first, in words.
pub open spec fn sort_direction_in(s: Seq<char>) -> SortDirection {
    if s == "asc"@ {
        SortDirection::Ascending
    } else {
        SortDirection::Descending
    }
}

/// What the results are sorted by.
pub fn parse_sort_by(s: &str) -> (r: SortBy)
    ensures
        r == sort_by_in(s@),
{
    if same_text(s, "name") {
        SortBy::Name
    } else if same_text(s, "path") {
        SortBy::Path
    } else if same_text(s, "size") {
        SortBy::Size
    } else if same_text(s, "modified") || same_text(s, "modified_time") {
        SortBy::ModifiedTime
    } else {
        SortBy::Score
    }
}

/// Which end of the order comes first.
pub fn parse_sort_direction(s: &str) -> (r: SortDirection)
    ensures
        r == sort_direction_in(s@),
{
    if same_text(s, "asc") {
        SortDirection::Ascending
    } else {
        SortDirection::Descending
    }
}

/// A search that is asked for.
#[derive(Debug)]
pub struct SearchParams {
    pub query: String,
    pub sort_by: Option<String>,
    pub sort_direction: Option<String>,
    pub files_only: Option<bool>,
    pub directories_only: Option<bool>,
    pub min_size: Option<u64>,
    pub max_size: Option<u64>,
}

/// The first results of a search, and the number of all of them.
#[derive(Debug)]
pub struct SearchResponse {
    pub total: usize,
    pub results: Vec<SearchResult>,
}

/// A range of the results of the last search, and the number of all of them.
#[derive(Debug)]
pub struct RecordsRangeResponse {
    pub results: Vec<SearchResult>,
    pub total: usize,
    pub start: usize,
    pub end: usize,
}

/// The options of a search that is asked for. Unless it says otherwise, it is for files,
/// and the best come first.
pub open spec fn options_of(params: SearchParams) -> SearchOptions {
    SearchOptions {
        sort_by: match params.sort_by {
            Some(s) => sort_by_in(s@),
            None => SortBy::Score,
        },
        sort_direction: match params.sort_direction {
            Some(s) => sort_direction_in(s@),
            None => SortDirection::Descending,
        },
        limit: 1000000,
        load_all: false,
        files_only: match params.files_only {
            Some(b) => b,
            None => true,
        },
        directories_only: match params.directories_only {
            Some(b) => b,
            None => false,
        },
        case_sensitive: false,
        match_full_path: false,
        min_size: params.min_size,
        max_size: params.max_size,
    }
}

impl SearchParams {
    /// The options of the search.
    pub fn options(&self) -> (r: SearchOptions)
        ensures
            r == options_of(*self),
    {
        let mut options = SearchOptions::default();
        if let Some(s) = &self.sort_by {
            options.sort_by = parse_sort_by(s.as_str());
        }
        if let Some(s) = &self.sort_direction {
            options.sort_direction = parse_sort_direction(s.as_str());
        }
        options.files_only = match self.files_only {
            Some(b) => b,
            None => true,
        };
        options.directories_only = match self.directories_only {
            Some(b) => b,
            None => false,
        };
        options.min_size = self.min_size;
        options.max_size = self.max_size;
        options
    }
}

/// What is said where the results of the last search cannot be read any more.
pub open spec fn expired() -> Seq<char> {
    "Cache expired or empty. Please search again."@
}

/// Searches as asked for on the day `today`, where the last search is `age` seconds old.
pub fn search_files_on(vm: &mut VolumeManager, params: &SearchParams, age: u64, today: i32) -> (r:
    SearchResponse)
    requires
        old(vm).wf(),
        old(vm).numbered(),
        crate::merging::total_files(old(vm).volumes.slots@) <= u32::MAX,
    ensures
        final(vm).wf(),
        old(vm).was_searched(
            *final(vm),
            params.query@,
            options_of(*params),
            age,
            today,
            (r.results, r.total),
        ),
{
    let options = params.options();
    let (results, total) = vm.search_on(params.query.as_str(), &options, age, today);
    SearchResponse { total, results }
}

/// Searches as asked for, by the clock.
pub fn search_files(vm: &mut VolumeManager, params: &SearchParams) -> (r: SearchResponse)
    requires
        old(vm).wf(),
        old(vm).numbered(),
        crate::merging::total_files(old(vm).volumes.slots@) <= u32::MAX,
    ensures
        final(vm).wf(),
        exists|age: u64, today: i32|
            old(vm).was_searched(
                *final(vm),
                params.query@,
                options_of(*params),
                age,
                today,
                (r.results, r.total),
            ),
{
    let options = params.options();
    let found = vm.search_with_options(params.query.as_str(), &options);
    let ghost pair = found;
    let r = SearchResponse { total: found.1, results: found.0 };
    assert((r.results, r.total) == pair);
    r
}

/// The answer to a request for a range, by what was read of it.
pub fn range_response(page: Option<(Vec<SearchResult>, usize)>, start: usize, end: usize) -> (r:
    Result<RecordsRangeResponse, String>)
    ensures
        match page {
            Some(p) => r == Ok::<RecordsRangeResponse, String>(
                RecordsRangeResponse { results: p.0, total: p.1, start, end },
            ),
            None => r matches Err(e) && e@ == expired(),
        },
{
    match page {
        Some((results, total)) => Ok(RecordsRangeResponse { results, total, start, end }),
        None => Err("Cache expired or empty. Please search again.".to_string()),
    }
}

/// What was read of the last search for an answer.
pub open spec fn page_in(r: Result<RecordsRangeResponse, String>) -> Option<
    (Vec<SearchResult>, usize),
> {
    match r {
        Ok(a) => Some((a.results, a.total)),
        Err(_) => None,
    }
}

/// Whether an answer is well made: it repeats the range, or says that the search is too
/// old.
pub open spec fn is_answer(
    r: Result<RecordsRangeResponse, String>,
    start: usize,
    end: usize,
) -> bool {
    match r {
        Ok(a) => a.start == start && a.end == end,
        Err(e) => e@ == expired(),
    }
}

/// The range `start` to `end` of the last search on the day `today`, where that search is
/// `age` seconds old.
pub fn get_records_range_on(
    vm: &mut VolumeManager,
    start: usize,
    end: usize,
    sort_by: &str,
    sort_direction: &str,
    age: u64,
    today: i32,
) -> (r: Result<RecordsRangeResponse, String>)
    requires
        old(vm).wf(),
    ensures
        final(vm).wf(),
        is_answer(r, start, end),
        old(vm).slice_was_read(
            *final(vm),
            sort_by_in(sort_by@),
            sort_direction_in(sort_direction@),
            start,
            end,
            age,
            today,
            page_in(r),
        ),
{
    let page = vm.get_cached_slice_at(
        parse_sort_by(sort_by),
        parse_sort_direction(sort_direction),
        start,
        end,
        age,
        today,
    );
    range_response(page, start, end)
}

/// The range `start` to `end` of the last search, by the clock.
pub fn get_records_range(
    vm: &mut VolumeManager,
    start: usize,
    end: usize,
    sort_by: &str,
    sort_direction: &str,
) -> (r: Result<RecordsRangeResponse, String>)
    requires
        old(vm).wf(),
    ensures
        final(vm).wf(),
        is_answer(r, start, end),
        exists|age: u64, today: i32|
            old(vm).slice_was_read(
                *final(vm),
                sort_by_in(sort_by@),
                sort_direction_in(sort_direction@),
                start,
                end,
                age,
                today,
                page_in(r),
            ),
{
    let page = vm.get_cached_slice(
        parse_sort_by(sort_by),
        parse_sort_direction(sort_direction),
        start,
        end,
    );
    range_response(page, start, end)
}

/// The range `start` to `end` of the last search, by the clock.
pub fn get_sorted_range(
    vm: &mut VolumeManager,
    sort_by: &str,
    sort_direction: &str,
    start: usize,
    end: usize,
) -> (r: Result<RecordsRangeResponse, String>)
    requires
        old(vm).wf(),
    ensures
        final(vm).wf(),
        is_answer(r, start, end),
        exists|age: u64, today: i32|
            old(vm).slice_was_read(
                *final(vm),
                sort_by_in(sort_by@),
                sort_direction_in(sort_direction@),
                start,
                end,
                age,
                today,
                page_in(r),
            ),
{
    get_records_range(vm, start, end, sort_by, sort_direction)
}

/// The letter of the drive that is polled for a volume.
pub open spec fn letter_of(volume: Seq<char>) -> char {
    if volume.len() > 0 {
        volume[0]
    } else {
        'C'
    }
}

/// The letter of the drive that is polled for a volume: that which its name begins with.
pub fn drive_letter_of(volume: &str) -> (r: char)
    ensures
        r == letter_of(volume@),
{
    if volume.unicode_len() > 0 {
        volume.get_char(0)
    } else {
        'C'
    }
}

/// The options of a search whose results are exported.
pub open spec fn export_options(files_only: bool, directories_only: bool) -> SearchOptions {
    SearchOptions {
        sort_by: SortBy::Score,
        sort_direction: SortDirection::Descending,
        limit: 1000000,
        load_all: false,
        files_only,
        directories_only,
        case_sensitive: false,
        match_full_path: false,
        min_size: None,
        max_size: None,
    }
}

/// Whether `after` and `r` are left and given when every result for a query is asked for on
/// the day `today`, where the last search is `age` seconds old: the query is searched for,
/// and the whole of what was found is read, the best first.
pub open spec fn were_all_found(
    before: VolumeManager,
    after: VolumeManager,
    query: Seq<char>,
    files_only: bool,
    directories_only: bool,
    age: u64,
    today: i32,
    r: Vec<SearchResult>,
) -> bool {
    exists|mid: VolumeManager, first: (Vec<SearchResult>, usize), n: usize| #[trigger]
        before.was_searched(
            mid,
            query,
            export_options(files_only, directories_only),
            age,
            today,
            first,
        ) && #[trigger] mid.slice_was_read(
            after,
            SortBy::Score,
            SortDirection::Descending,
            0,
            first.1,
            0,
            today,
            Some((r, n)),
        )
}

/// Every result for a query, on the day `today` and where the last search is `age`
/// seconds old.
pub fn all_results_on(
    vm: &mut VolumeManager,
    query: &str,
    files_only: bool,
    directories_only: bool,
    age: u64,
    today: i32,
) -> (r: Vec<SearchResult>)
    requires
        old(vm).wf(),
        old(vm).numbered(),
        crate::merging::total_files(old(vm).volumes.slots@) <= u32::MAX,
    ensures
        final(vm).wf(),
        were_all_found(*old(vm), *final(vm), query@, files_only, directories_only, age, today, r),
{
    let mut options = SearchOptions::default();
    options.files_only = files_only;
    options.directories_only = directories_only;
    let first = vm.search_on(query, &options, age, today);
    let total: usize = first.1;
    let ghost mid = *vm;
    let page = vm.get_cached_slice_at(
        SortBy::Score,
        SortDirection::Descending,
        0,
        total,
        0,
        today,
    );
    match page {
        Some((results, n)) => {
            assert(old(vm).was_searched(mid, query@, options, age, today, first));
            assert(mid.slice_was_read(
                *vm,
                SortBy::Score,
                SortDirection::Descending,
                0,
                total,
                0,
                today,
                Some((results, n)),
            ));
            results
        },
        None => {
            assert(mid.search_cache is Some);
            Vec::new()
        },
    }
}

/// Every result for a query, by the clock.
pub fn all_results(
    vm: &mut VolumeManager,
    query: &str,
    files_only: bool,
    directories_only: bool,
) -> (r: Vec<SearchResult>)
    requires
        old(vm).wf(),
        old(vm).numbered(),
        crate::merging::total_files(old(vm).volumes.slots@) <= u32::MAX,
    ensures
        final(vm).wf(),
        exists|age: u64, today: i32|
            were_all_found(
                *old(vm),
                *final(vm),
                query@,
                files_only,
                directories_only,
                age,
                today,
                r,
            ),
{
    let age: u64 = match &vm.search_cache {
        Some(c) => outside::seconds_since(&c.created_at),
        None => 0,
    };
    let today: i32 = outside::today_from_ce();
    all_results_on(vm, query, files_only, directories_only, age, today)
}

} // verus!
