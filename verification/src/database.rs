//! What is asked of the database of files, and what is made of its rows.

use crate::outside;
use crate::outside::parse_time;
use crate::search::{ResultModel, SearchResult};
use vstd::prelude::*;

verus! {

broadcast use vstd::string::group_string_axioms;

/// The pattern for texts that hold the query.
pub fn search_pattern(query: &str) -> (r: String)
    ensures
        r@ == seq!['%'] + query@ + seq!['%'],
{
    let mut r = String::new();
    r.push('%');
    r.append(query);
    r.push('%');
    assert(r@ =~= seq!['%'] + query@ + seq!['%']);
    r
}

/// A row of the table of files.
#[derive(Debug)]
pub struct FileRow {
    pub file_id: u32,
    pub name: String,
    pub path: String,
    pub size: u64,
    pub modified_time: Option<String>,
    pub is_directory: i32,
}

/// The seconds that a text for a time stands for; 0 where it cannot be read.
pub open spec fn stored_seconds(text: Option<Seq<char>>) -> i64 {
    match text {
        Some(t) => match outside::parsed_time(t, "%Y-%m-%d %H:%M:%S"@) {
            Some(seconds) => seconds,
            None => 0,
        },
        None => 0,
    }
}

impl FileRow {
    /// The file of the row, whose time was read as given.
    pub fn with_time(self, time: Option<i64>) -> (r: SearchResult)
        ensures
            r@ == (ResultModel {
                name: self.name@,
                path: self.path@,
                size: self.size,
                modified_time: match time {
                    Some(seconds) => seconds,
                    None => 0,
                },
                file_id: self.file_id,
                is_directory: self.is_directory != 0,
            }),
    {
        SearchResult {
            name: self.name,
            path: self.path,
            size: self.size,
            modified_time: match time {
                Some(seconds) => seconds,
                None => 0,
            },
            file_id: self.file_id,
            is_directory: self.is_directory != 0,
        }
    }

    /// The file of the row.
    pub fn into_result(self) -> (r: SearchResult)
        ensures
            r@ == (ResultModel {
                name: self.name@,
                path: self.path@,
                size: self.size,
                modified_time: stored_seconds(crate::query::text_in(self.modified_time)),
                file_id: self.file_id,
                is_directory: self.is_directory != 0,
            }),
    {
        let time: Option<i64> = match &self.modified_time {
            Some(t) => parse_time(t.as_str(), "%Y-%m-%d %H:%M:%S"),
            None => None,
        };
        self.with_time(time)
    }
}

/// How far a journal was read and which journal that was, by the row of the table;
/// from the beginning where there is none.
pub fn usn_state_of(row: Option<(i64, i64)>) -> (r: (i64, u64))
    ensures
        r == (match row {
            Some((last_usn, journal_id)) => (
                last_usn,
                if journal_id > 0 {
                    journal_id as u64
                } else {
                    0
                },
            ),
            None => (0, 0),
        }),
{
    match row {
        Some((last_usn, journal_id)) => {
            let id: u64 = if journal_id > 0 {
                journal_id as u64
            } else {
                0
            };
            (last_usn, id)
        },
        None => (0, 0),
    }
}

} // verus!
