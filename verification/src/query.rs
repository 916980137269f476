//! The query language: words that filter by name, glob, regular expression, size,
//! date, path and kind, read from one line of text.

use crate::globs;
use crate::globs::Glob;
use crate::outside;
use crate::query_lines;
use crate::search::{FileEntry, SearchResult};
use crate::text;
use crate::text::{chars_of, contains_part, has_prefix, has_suffix, split_words, string_from};
use regex::Regex;
use vstd::prelude::*;

verus! {

broadcast use vstd::string::group_string_axioms;

/// A query, read into its filters.
pub struct SearchQuery {
    pub keywords: Vec<String>,
    pub keywords_lower: Vec<String>,
    pub glob_patterns: Vec<Glob>,
    pub size_filter: Option<SizeFilter>,
    pub date_filter: Option<DateFilter>,
    pub path_filter: Option<String>,
    pub path_filter_lower: Option<String>,
    pub path_filter_dir_only: bool,
    pub regex_pattern: Option<Regex>,
}

/// A bound on the size of a file.
#[derive(Clone, Copy, Debug, PartialEq, Eq, Structural)]
pub struct SizeFilter {
    pub operator: SizeOperator,
    pub value: u64,
}

/// How a size is held against the bound.
#[derive(Clone, Copy, Debug, PartialEq, Eq, Structural)]
pub enum SizeOperator {
    GreaterThan,
    LessThan,
    Equal,
    GreaterOrEqual,
    LessOrEqual,
}

/// A bound on the time of a file. The moments are seconds from the beginning of
/// 1970; `date` is the first of the day, and without it nothing is filtered.
#[derive(Clone, Copy, Debug, PartialEq, Eq, Structural)]
pub struct DateFilter {
    pub date_type: DateType,
    pub operator: DateOperator,
    pub date: Option<i64>,
    pub start: Option<i64>,
    pub end: Option<i64>,
}

/// How a time is held against the day.
#[derive(Clone, Copy, Debug, PartialEq, Eq, Structural)]
pub enum DateOperator {
    Equal,
    GreaterThan,
    LessThan,
    GreaterOrEqual,
    LessOrEqual,
}

/// Which of a file's times a date filter was written for.
#[derive(Clone, Copy, Debug, PartialEq, Eq, Structural)]
pub enum DateType {
    Created,
    Modified,
    Accessed,
}

/// A comparison sign.
#[derive(Clone, Copy, Debug, PartialEq, Eq, Structural)]
pub enum Sign {
    Greater,
    Less,
    Equal,
    GreaterOrEqual,
    LessOrEqual,
}

/// What stands in each of the strings.
pub open spec fn strings(v: Seq<String>) -> Seq<Seq<char>> {
    v.map_values(|s: String| s@)
}

/// What a `SearchQuery` holds.
#[verifier::ext_equal]
pub struct QueryModel {
    pub keywords: Seq<Seq<char>>,
    pub keywords_lower: Seq<Seq<char>>,
    pub globs: Seq<Seq<char>>,
    pub size: Option<SizeFilter>,
    pub date: Option<DateFilter>,
    pub path: Option<Seq<char>>,
    pub path_lower: Option<Seq<char>>,
    pub dir_only: bool,
    pub regex: Option<Seq<char>>,
}

/// The text of an optional string.
pub open spec fn text_in(s: Option<String>) -> Option<Seq<char>> {
    match s {
        Some(s) => Some(s@),
        None => None,
    }
}

impl View for SearchQuery {
    type V = QueryModel;

    open spec fn view(&self) -> QueryModel {
        QueryModel {
            keywords: strings(self.keywords@),
            keywords_lower: strings(self.keywords_lower@),
            globs: self.glob_patterns@.map_values(|g: Glob| g@),
            size: self.size_filter,
            date: self.date_filter,
            path: text_in(self.path_filter),
            path_lower: text_in(self.path_filter_lower),
            dir_only: self.path_filter_dir_only,
            regex: match self.regex_pattern {
                Some(r) => Some(outside::regex_text(r)),
                None => None,
            },
        }
    }
}

/// The sign at the beginning of `s`.
pub open spec fn sign_of(s: Seq<char>) -> Option<Sign> {
    if text::begins_with(s, ">="@) {
        Some(Sign::GreaterOrEqual)
    } else if text::begins_with(s, "<="@) {
        Some(Sign::LessOrEqual)
    } else if text::begins_with(s, ">"@) {
        Some(Sign::Greater)
    } else if text::begins_with(s, "<"@) {
        Some(Sign::Less)
    } else if text::begins_with(s, "="@) {
        Some(Sign::Equal)
    } else {
        None
    }
}

/// How many characters a sign has.
pub open spec fn sign_len(s: Option<Sign>) -> int {
    match s {
        Some(Sign::GreaterOrEqual) => 2,
        Some(Sign::LessOrEqual) => 2,
        Some(_) => 1,
        None => 0,
    }
}

/// The sign of a size filter; a bare size is the least that passes.
pub open spec fn size_operator(s: Option<Sign>) -> SizeOperator {
    match s {
        Some(Sign::Greater) => SizeOperator::GreaterThan,
        Some(Sign::Less) => SizeOperator::LessThan,
        Some(Sign::Equal) => SizeOperator::Equal,
        Some(Sign::GreaterOrEqual) => SizeOperator::GreaterOrEqual,
        Some(Sign::LessOrEqual) => SizeOperator::LessOrEqual,
        None => SizeOperator::GreaterOrEqual,
    }
}

/// The sign of a date filter; a bare date is the day that passes.
pub open spec fn date_operator(s: Option<Sign>) -> DateOperator {
    match s {
        Some(Sign::Greater) => DateOperator::GreaterThan,
        Some(Sign::Less) => DateOperator::LessThan,
        Some(Sign::Equal) => DateOperator::Equal,
        Some(Sign::GreaterOrEqual) => DateOperator::GreaterOrEqual,
        Some(Sign::LessOrEqual) => DateOperator::LessOrEqual,
        None => DateOperator::Equal,
    }
}

/// `n` units of `unit` bytes, up to what 64 bits can count: no file is larger.
pub open spec fn scaled(n: Option<u64>, unit: nat) -> Option<u64> {
    match n {
        Some(v) => Some(
            if v * unit <= u64::MAX {
                (v * unit) as u64
            } else {
                u64::MAX
            },
        ),
        None => None,
    }
}

/// `n` units of `unit` bytes, up to what 64 bits can count.
fn scale(n: u64, unit: u64) -> (r: u64)
    ensures
        Some(r) == scaled(Some(n), unit as nat),
{
    match n.checked_mul(unit) {
        Some(r) => r,
        None => u64::MAX,
    }
}

/// The number of bytes that `upper` writes: a number, with `GB`, `MB`, `KB` or `B`
/// behind it or with no unit.
pub open spec fn bytes_in(upper: Seq<char>) -> Option<u64> {
    if text::finishes_with(upper, "GB"@) {
        scaled(text::number_in(upper.take(upper.len() - 2)), 1024 * 1024 * 1024)
    } else if text::finishes_with(upper, "MB"@) {
        scaled(text::number_in(upper.take(upper.len() - 2)), 1024 * 1024)
    } else if text::finishes_with(upper, "KB"@) {
        scaled(text::number_in(upper.take(upper.len() - 2)), 1024)
    } else if text::finishes_with(upper, "B"@) {
        text::number_in(upper.take(upper.len() - 1))
    } else {
        text::number_in(upper)
    }
}

/// The size filter that the word `part` writes behind its `size:`.
pub open spec fn size_filter_in(part: Seq<char>) -> Option<SizeFilter> {
    let body = text::trimmed(part.skip(5));
    let sign = sign_of(body);
    match bytes_in(outside::uppercased(text::trimmed(body.skip(sign_len(sign))))) {
        Some(value) => Some(SizeFilter { operator: size_operator(sign), value }),
        None => None,
    }
}

/// The kind of time that a date word names, and where its date begins.
pub open spec fn date_prefix(part: Seq<char>) -> Option<(DateType, int)> {
    if text::begins_with(part, "datemodified:"@) {
        Some((DateType::Modified, 13))
    } else if text::begins_with(part, "dm:"@) {
        Some((DateType::Modified, 3))
    } else if text::begins_with(part, "datecreated:"@) {
        Some((DateType::Created, 12))
    } else if text::begins_with(part, "dc:"@) {
        Some((DateType::Created, 3))
    } else if text::begins_with(part, "dateaccessed:"@) {
        Some((DateType::Accessed, 13))
    } else if text::begins_with(part, "da:"@) {
        Some((DateType::Accessed, 3))
    } else {
        None
    }
}

/// The day that `date` names, counted from the first of January of the year 1 as day
/// 1, where the present day is `today`.
pub open spec fn day_in(date: Seq<char>, today: i32) -> Option<int> {
    if date == "today"@ {
        Some(today as int)
    } else if date == "yesterday"@ {
        Some(today - 1)
    } else if let Some(d) = outside::parsed_date(date, "%Y%m%d"@) {
        Some(d as int)
    } else if let Some(d) = outside::parsed_date(date, "%Y-%m-%d"@) {
        Some(d as int)
    } else if let Some(d) = outside::parsed_date(date, "%Y/%m/%d"@) {
        Some(d as int)
    } else {
        None
    }
}

/// The first second of a day, from the beginning of 1970, in UTC.
pub open spec fn day_start(day: int) -> int {
    (day - 719163) * 86400
}

/// The date filter for a day, or one that lets everything pass where there is none.
pub open spec fn date_filter_for(
    date_type: DateType,
    operator: DateOperator,
    day: Option<int>,
) -> DateFilter {
    match day {
        Some(d) => DateFilter {
            date_type,
            operator,
            date: Some(day_start(d) as i64),
            start: Some(day_start(d) as i64),
            end: Some((day_start(d) + 86399) as i64),
        },
        None => DateFilter { date_type, operator, date: None, start: None, end: None },
    }
}

/// The date filter that the word `part` writes behind its prefix.
pub open spec fn date_filter_in(part: Seq<char>, today: i32) -> Option<DateFilter> {
    match date_prefix(part) {
        Some((date_type, from)) => {
            let body = text::trimmed(part.skip(from));
            let sign = sign_of(body);
            Some(
                date_filter_for(
                    date_type,
                    date_operator(sign),
                    day_in(body.skip(sign_len(sign)), today),
                ),
            )
        },
        None => None,
    }
}

/// Whether `s` holds a character that glob patterns are made with.
pub open spec fn has_glob_char(s: Seq<char>) -> bool {
    exists|i: int|
        0 <= i < s.len() && (#[trigger] s[i] == '*' || s[i] == '?' || s[i] == '[' || s[i] == ']')
}

impl QueryModel {
    /// The query of an empty line.
    pub open spec fn empty() -> QueryModel {
        QueryModel {
            keywords: seq![],
            keywords_lower: seq![],
            globs: seq![],
            size: None,
            date: None,
            path: None,
            path_lower: None,
            dir_only: false,
            regex: None,
        }
    }

    /// The query with one more word.
    pub open spec fn with_word(self, word: Seq<char>, today: i32) -> QueryModel {
        if text::begins_with(word, "size:"@) {
            QueryModel { size: size_filter_in(word), ..self }
        } else if date_prefix(word) is Some {
            QueryModel { date: date_filter_in(word, today), ..self }
        } else if text::begins_with(word, "path:"@) {
            QueryModel {
                path: Some(word.skip(5)),
                path_lower: Some(outside::lowercased(word.skip(5))),
                ..self
            }
        } else if text::begins_with(word, "regex:"@) {
            if outside::regex_compiles(word.skip(6)) {
                QueryModel { regex: Some(word.skip(6)), ..self }
            } else {
                self
            }
        } else if word == ":folders"@ || word == ":folder"@ {
            QueryModel { dir_only: true, ..self }
        } else if has_glob_char(word) && outside::glob_compiles(globs::portable(word)) {
            QueryModel { globs: self.globs.push(globs::portable(word)), ..self }
        } else {
            QueryModel {
                keywords: self.keywords.push(word),
                keywords_lower: self.keywords_lower.push(outside::lowercased(word)),
                ..self
            }
        }
    }

    /// The query that the words write.
    pub open spec fn of_words(words: Seq<Seq<char>>, today: i32) -> QueryModel
        decreases words.len(),
    {
        if words.len() == 0 {
            QueryModel::empty()
        } else {
            QueryModel::of_words(words.drop_last(), today).with_word(words.last(), today)
        }
    }

    /// The query that a line of text writes, where the present day is `today`.
    pub open spec fn of_text(line: Seq<char>, today: i32) -> QueryModel {
        QueryModel::of_words(text::words(line), today)
    }

    /// Whether a file passes every filter. `keywords` and `path_part` are the keywords and the
    /// part of the path in lower case, `low_name` and `low_path` those in which they are
    /// sought. What holds them as they were written passes too.
    pub open spec fn passes(
        self,
        keywords: Seq<Seq<char>>,
        path_part: Option<Seq<char>>,
        name: Seq<char>,
        low_name: Seq<char>,
        path: Seq<char>,
        low_path: Seq<char>,
        size: u64,
        time: i64,
        is_directory: bool,
    ) -> bool {
        &&& holds_all(name, low_name, self.keywords, keywords)
        &&& forall|i: int|
            0 <= i < self.globs.len() ==> outside::glob_matches(
                #[trigger] self.globs[i],
                globs::slashed(name),
            )
        &&& self.size matches Some(f) ==> size_passes(f, size)
        &&& self.date matches Some(f) ==> date_passes(f, time)
        &&& path_part matches Some(p) ==> holds_path(path, low_path, self.path, p)
        &&& self.dir_only ==> is_directory
        &&& self.regex matches Some(e) ==> outside::regex_matches(e, name)
    }

    /// Whether a file that is handed out passes every filter; letters of either case
    /// are the same.
    pub open spec fn accepts_result(self, f: crate::search::ResultModel) -> bool {
        self.passes(
            self.keywords.map_values(|k: Seq<char>| outside::lowercased(k)),
            match self.path {
                Some(p) => Some(outside::lowercased(p)),
                None => None,
            },
            f.name,
            outside::lowercased(f.name),
            f.path,
            outside::lowercased(f.path),
            f.size,
            f.modified_time,
            f.is_directory,
        )
    }

    /// Whether a stored file passes every filter; letters of either case are the same.
    pub open spec fn accepts_entry(self, f: crate::search::FileModel, path: Seq<char>) -> bool {
        self.passes(
            self.keywords_lower,
            self.path_lower,
            f.name,
            outside::lowercased(f.name),
            path,
            outside::lowercased(path),
            f.size,
            f.modified_time as i64,
            f.is_directory,
        )
    }
}

/// Whether every keyword stands in a name, either in lower case or as it was written.
pub open spec fn holds_all(
    name: Seq<char>,
    low_name: Seq<char>,
    keywords: Seq<Seq<char>>,
    low_keywords: Seq<Seq<char>>,
) -> bool {
    forall|i: int|
        0 <= i < low_keywords.len() ==> text::has_part(low_name, #[trigger] low_keywords[i]) || (i
            < keywords.len() && text::has_part(name, keywords[i]))
}

/// Whether a part stands in a path, either in lower case or as it was written.
pub open spec fn holds_path(
    path: Seq<char>,
    low_path: Seq<char>,
    part: Option<Seq<char>>,
    low_part: Seq<char>,
) -> bool {
    text::has_part(low_path, low_part) || (part matches Some(p) && text::has_part(path, p))
}

/// Whether a size is within the bound.
pub open spec fn size_passes(f: SizeFilter, size: u64) -> bool {
    match f.operator {
        SizeOperator::GreaterThan => size > f.value,
        SizeOperator::LessThan => size < f.value,
        SizeOperator::Equal => size == f.value,
        SizeOperator::GreaterOrEqual => size >= f.value,
        SizeOperator::LessOrEqual => size <= f.value,
    }
}

/// Whether a time is within the bound: the day is `date` and the 86399 seconds that
/// follow.
pub open spec fn date_passes(f: DateFilter, time: i64) -> bool {
    match f.date {
        Some(day) => match f.operator {
            DateOperator::Equal => day <= time <= day + 86399,
            DateOperator::GreaterThan => time > day + 86399,
            DateOperator::LessThan => time < day,
            DateOperator::GreaterOrEqual => time >= day,
            DateOperator::LessOrEqual => time <= day + 86399,
        },
        None => true,
    }
}

impl SizeFilter {
    /// Whether `size` is within the bound.
    pub fn matches(&self, size: u64) -> (r: bool)
        ensures
            r == size_passes(*self, size),
    {
        match self.operator {
            SizeOperator::GreaterThan => size > self.value,
            SizeOperator::LessThan => size < self.value,
            SizeOperator::Equal => size == self.value,
            SizeOperator::GreaterOrEqual => size >= self.value,
            SizeOperator::LessOrEqual => size <= self.value,
        }
    }
}

impl DateFilter {
    /// Whether `time` is within the bound.
    pub fn matches(&self, time: i64) -> (r: bool)
        ensures
            r == date_passes(*self, time),
    {
        match self.date {
            Some(day) => {
                let last: i64 = if day <= i64::MAX - 86399 {
                    day + 86399
                } else {
                    i64::MAX
                };
                match self.operator {
                    DateOperator::Equal => time >= day && time <= last,
                    DateOperator::GreaterThan => time > last,
                    DateOperator::LessThan => time < day,
                    DateOperator::GreaterOrEqual => time >= day,
                    DateOperator::LessOrEqual => time <= last,
                }
            },
            None => true,
        }
    }
}

/// The sign at the beginning of `s`, and the characters behind it.
fn cut_sign(s: &Vec<char>) -> (r: (Option<Sign>, usize))
    ensures
        r.0 == sign_of(s@),
        r.1 == sign_len(r.0),
        r.1 <= s@.len(),
{
    proof {
        reveal_strlit(">=");
        reveal_strlit("<=");
        reveal_strlit(">");
        reveal_strlit("<");
        reveal_strlit("=");
    }
    if has_prefix(s, ">=") {
        (Some(Sign::GreaterOrEqual), 2)
    } else if has_prefix(s, "<=") {
        (Some(Sign::LessOrEqual), 2)
    } else if has_prefix(s, ">") {
        (Some(Sign::Greater), 1)
    } else if has_prefix(s, "<") {
        (Some(Sign::Less), 1)
    } else if has_prefix(s, "=") {
        (Some(Sign::Equal), 1)
    } else {
        (None, 0)
    }
}

/// Whether `s` is `word`.
fn is_word(s: &Vec<char>, word: &str) -> (r: bool)
    ensures
        r == (s@ == word@),
{
    let w = chars_of(word);
    if w.len() != s.len() {
        return false;
    }
    if text::part_at(s, &w, 0) {
        assert(s@.subrange(0, s@.len() as int) =~= s@);
        true
    } else {
        assert(s@.subrange(0, s@.len() as int) =~= s@);
        false
    }
}

/// Whether every keyword stands in a name, either in lower case or as it was written.
fn name_holds_all(
    name: &Vec<char>,
    low_name: &Vec<char>,
    keywords: &Vec<String>,
    low_keywords: &Vec<String>,
) -> (r: bool)
    ensures
        r == holds_all(name@, low_name@, strings(keywords@), strings(low_keywords@)),
{
    let mut i: usize = 0;
    while i < low_keywords.len()
        invariant
            i <= low_keywords@.len(),
            forall|j: int|
                0 <= j < i ==> text::has_part(low_name@, #[trigger] strings(low_keywords@)[j]) || (j
                    < strings(keywords@).len() && text::has_part(name@, strings(keywords@)[j])),
        decreases low_keywords@.len() - i,
    {
        if !contains_part(low_name, &chars_of(low_keywords[i].as_str())) && !(i < keywords.len()
            && contains_part(name, &chars_of(keywords[i].as_str()))) {
            assert(!text::has_part(low_name@, strings(low_keywords@)[i as int]));
            return false;
        }
        i += 1;
    }
    true
}

impl SearchQuery {
    /// Whether `s` holds a character that glob patterns are made with.
    pub fn contains_glob_chars(s: &Vec<char>) -> (r: bool)
        ensures
            r == has_glob_char(s@),
    {
        let mut i: usize = 0;
        while i < s.len()
            invariant
                i <= s@.len(),
                forall|j: int|
                    0 <= j < i ==> !(#[trigger] s@[j] == '*' || s@[j] == '?' || s@[j] == '['
                        || s@[j] == ']'),
            decreases s@.len() - i,
        {
            let c: char = s[i];
            if c == '*' || c == '?' || c == '[' || c == ']' {
                return true;
            }
            i += 1;
        }
        false
    }

    /// The query that a line of text writes on the present day.
    pub fn parse(query_str: &str) -> (r: Self)
        ensures
            exists|today: i32| r@ == #[trigger] QueryModel::of_text(query_str@, today),
    {
        let today: i32 = outside::today_from_ce();
        Self::parse_on(query_str, today)
    }

    /// The query that a line of text writes where the present day is `today`, counted
    /// from the first of January of the year 1 as day 1.
    pub fn parse_on(query_str: &str, today: i32) -> (r: Self)
        ensures
            r@ == QueryModel::of_text(query_str@, today),
    {
        let parts = split_words(query_str);
        let ghost words = text::words(query_str@);
        let mut q = SearchQuery {
            keywords: Vec::new(),
            keywords_lower: Vec::new(),
            glob_patterns: Vec::new(),
            size_filter: None,
            date_filter: None,
            path_filter: None,
            path_filter_lower: None,
            path_filter_dir_only: false,
            regex_pattern: None,
        };
        let mut i: usize = 0;
        proof {
            assert(words.take(0) =~= seq![]);
            assert(q@ =~= QueryModel::empty());
        }
        while i < parts.len()
            invariant
                i <= parts@.len(),
                parts@.len() == words.len(),
                forall|k: int| 0 <= k < parts@.len() ==> (#[trigger] parts@[k])@ == words[k],
                q@ == QueryModel::of_words(words.take(i as int), today),
            decreases parts@.len() - i,
        {
            q.take_word(&parts[i], today);
            proof {
                assert(words.take(i + 1).drop_last() =~= words.take(i as int));
            }
            i += 1;
        }
        assert(words.take(i as int) =~= words);
        q
    }

    /// Reads one word into the query.
    fn take_word(&mut self, part: &Vec<char>, today: i32)
        ensures
            final(self)@ == old(self)@.with_word(part@, today),
    {
        let ghost before = self@;
        proof {
            reveal_strlit("size:");
            reveal_strlit("path:");
            reveal_strlit("regex:");
        }
        if has_prefix(part, "size:") {
            self.size_filter = Self::parse_size_filter(part);
            assert(self@ =~= before.with_word(part@, today));
        } else if Self::date_prefix_of(part).is_some() {
            self.date_filter = Self::parse_date_filter(part, today);
            assert(self@ =~= before.with_word(part@, today));
        } else if has_prefix(part, "path:") {
            let path = string_from(part, 5, part.len());
            assert(path@ =~= part@.skip(5));
            self.path_filter_lower = Some(outside::to_lowercase(path.as_str()));
            self.path_filter = Some(path);
            assert(self@ =~= before.with_word(part@, today));
        } else if has_prefix(part, "regex:") {
            let expression = string_from(part, 6, part.len());
            assert(expression@ =~= part@.skip(6));
            if let Ok(re) = outside::regex_new(expression.as_str()) {
                self.regex_pattern = Some(re);
            }
            assert(self@ =~= before.with_word(part@, today));
        } else if is_word(part, ":folders") || is_word(part, ":folder") {
            self.path_filter_dir_only = true;
            assert(self@ =~= before.with_word(part@, today));
        } else {
            let word = string_from(part, 0, part.len());
            assert(word@ =~= part@);
            if Self::contains_glob_chars(part) {
                if let Some(glob) = Glob::new(word.as_str()) {
                    self.glob_patterns.push(glob);
                    assert(self@.globs =~= before.globs.push(globs::portable(part@)));
                    assert(self@ =~= before.with_word(part@, today));
                    return;
                }
            }
            self.keywords_lower.push(outside::to_lowercase(word.as_str()));
            self.keywords.push(word);
            assert(self@.keywords =~= before.keywords.push(part@));
            assert(self@.keywords_lower =~= before.keywords_lower.push(
                outside::lowercased(part@),
            ));
            assert(self@ =~= before.with_word(part@, today));
        }
    }

    /// Whether a file that is handed out passes every filter.
    pub fn matches(&self, file: &SearchResult) -> (r: bool)
        ensures
            r == self@.accepts_result(file@),
    {
        let mut keywords: Vec<String> = Vec::new();
        let mut i: usize = 0;
        while i < self.keywords.len()
            invariant
                i <= self.keywords@.len(),
                keywords@.len() == i,
                forall|j: int|
                    0 <= j < i ==> (#[trigger] keywords@[j])@ == outside::lowercased(
                        self.keywords@[j]@,
                    ),
            decreases self.keywords@.len() - i,
        {
            keywords.push(outside::to_lowercase(self.keywords[i].as_str()));
            i += 1;
        }
        assert(strings(keywords@) =~= self@.keywords.map_values(
            |k: Seq<char>| outside::lowercased(k),
        ));
        let path_part: Option<String> = match &self.path_filter {
            Some(p) => Some(outside::to_lowercase(p.as_str())),
            None => None,
        };
        let name = outside::to_lowercase(file.name.as_str());
        let path = outside::to_lowercase(file.path.as_str());
        self.check(
            &keywords,
            &path_part,
            file.name.as_str(),
            &chars_of(name.as_str()),
            file.path.as_str(),
            &chars_of(path.as_str()),
            file.size,
            file.modified_time,
            file.is_directory,
        )
    }

    /// Whether a stored file whose path is `full_path` passes every filter. Where the
    /// query does not filter by path, `full_path` may be empty.
    pub fn matches_entry(&self, entry: &FileEntry, full_path: &str) -> (r: bool)
        ensures
            r == self@.accepts_entry(entry@, full_path@),
    {
        let low_name: Vec<char> = if self.keywords_lower.len() > 0 {
            chars_of(outside::to_lowercase(entry.name.as_str()).as_str())
        } else {
            Vec::new()
        };
        let low_path: Vec<char> = if self.path_filter_lower.is_some() {
            chars_of(outside::to_lowercase(full_path).as_str())
        } else {
            Vec::new()
        };
        self.check(
            &self.keywords_lower,
            &self.path_filter_lower,
            entry.name.as_str(),
            &low_name,
            full_path,
            &low_path,
            entry.size,
            entry.modified_time as i64,
            entry.is_directory,
        )
    }

    /// Whether a file passes every filter.
    fn check(
        &self,
        keywords: &Vec<String>,
        path_part: &Option<String>,
        name: &str,
        low_name: &Vec<char>,
        path: &str,
        low_path: &Vec<char>,
        size: u64,
        time: i64,
        is_directory: bool,
    ) -> (r: bool)
        ensures
            r == self@.passes(
                strings(keywords@),
                text_in(*path_part),
                name@,
                low_name@,
                path@,
                low_path@,
                size,
                time,
                is_directory,
            ),
    {
        let globs = self.globs_match(name);
        let regex = match &self.regex_pattern {
            Some(e) => outside::regex_is_match(e, name),
            None => true,
        };
        self.check_with(
            keywords,
            path_part,
            &chars_of(name),
            low_name,
            &chars_of(path),
            low_path,
            size,
            time,
            is_directory,
            globs,
            regex,
        )
    }

    /// Whether every glob pattern matches `name`.
    fn globs_match(&self, name: &str) -> (r: bool)
        ensures
            r == (forall|i: int|
                0 <= i < self@.globs.len() ==> outside::glob_matches(
                    #[trigger] self@.globs[i],
                    globs::slashed(name@),
                )),
    {
        let mut i: usize = 0;
        while i < self.glob_patterns.len()
            invariant
                i <= self.glob_patterns@.len(),
                forall|j: int|
                    0 <= j < i ==> outside::glob_matches(
                        #[trigger] self@.globs[j],
                        globs::slashed(name@),
                    ),
            decreases self.glob_patterns@.len() - i,
        {
            if !self.glob_patterns[i].matches(name) {
                assert(!outside::glob_matches(self@.globs[i as int], globs::slashed(name@)));
                return false;
            }
            i += 1;
        }
        true
    }

    /// Whether a file passes every filter, given whether its name matches the glob
    /// patterns and the regular expression.
    pub fn check_with(
        &self,
        keywords: &Vec<String>,
        path_part: &Option<String>,
        name: &Vec<char>,
        low_name: &Vec<char>,
        path: &Vec<char>,
        low_path: &Vec<char>,
        size: u64,
        time: i64,
        is_directory: bool,
        globs: bool,
        regex: bool,
    ) -> (r: bool)
        ensures
            r == {
                &&& holds_all(name@, low_name@, self@.keywords, strings(keywords@))
                &&& globs
                &&& self.size_filter matches Some(f) ==> size_passes(f, size)
                &&& self.date_filter matches Some(f) ==> date_passes(f, time)
                &&& *path_part matches Some(p) ==> holds_path(path@, low_path@, self@.path, p@)
                &&& self.path_filter_dir_only ==> is_directory
                &&& regex
            },
    {
        if !name_holds_all(name, low_name, &self.keywords, keywords) {
            return false;
        }
        if !globs {
            return false;
        }
        if let Some(f) = &self.size_filter {
            if !f.matches(size) {
                return false;
            }
        }
        if let Some(f) = &self.date_filter {
            if !f.matches(time) {
                return false;
            }
        }
        if let Some(p) = path_part {
            let as_written = match &self.path_filter {
                Some(w) => contains_part(path, &chars_of(w.as_str())),
                None => false,
            };
            if !as_written && !contains_part(low_path, &chars_of(p.as_str())) {
                return false;
            }
        }
        if self.path_filter_dir_only && !is_directory {
            return false;
        }
        regex
    }

    /// The size filter that the word `part` writes behind its `size:`.
    pub fn parse_size_filter(part: &Vec<char>) -> (r: Option<SizeFilter>)
        requires
            text::begins_with(part@, "size:"@),
        ensures
            r == size_filter_in(part@),
    {
        proof {
            reveal_strlit("size:");
        }
        let body = text::trim_from(part, 5);
        let (sign, len) = cut_sign(&body);
        let number = text::trim_from(&body, len);
        let digits = string_from(&number, 0, number.len());
        assert(digits@ =~= number@);
        let operator = match sign {
            Some(Sign::Greater) => SizeOperator::GreaterThan,
            Some(Sign::Less) => SizeOperator::LessThan,
            Some(Sign::Equal) => SizeOperator::Equal,
            Some(Sign::GreaterOrEqual) => SizeOperator::GreaterOrEqual,
            Some(Sign::LessOrEqual) => SizeOperator::LessOrEqual,
            None => SizeOperator::GreaterOrEqual,
        };
        match Self::parse_size_value(digits.as_str()) {
            Some(value) => Some(SizeFilter { operator, value }),
            None => None,
        }
    }

    /// The number of bytes that a size with or without a unit writes.
    pub fn parse_size_value(value_str: &str) -> (r: Option<u64>)
        ensures
            r == bytes_in(outside::uppercased(value_str@)),
            forall|n: u64, unit: Seq<char>|
                #![trigger text::decimal(n as nat) + unit]
                value_str@ == text::decimal(n as nat) + unit && query_lines::unit_bytes(unit) > 0 && n
                    * query_lines::unit_bytes(unit) <= u64::MAX ==> r == Some(
                    (n * query_lines::unit_bytes(unit)) as u64,
                ),
    {
        let upper = outside::to_uppercase(value_str);
        proof {
            assert forall|n: u64, unit: Seq<char>|
                #![trigger text::decimal(n as nat) + unit]
                value_str@ == text::decimal(n as nat) + unit && query_lines::unit_bytes(unit) > 0 && n
                    * query_lines::unit_bytes(unit) <= u64::MAX implies bytes_in(upper@) == Some(
                (n * query_lines::unit_bytes(unit)) as u64,
            ) by {
                reveal_strlit("");
                reveal_strlit("B");
                reveal_strlit("KB");
                reveal_strlit("MB");
                reveal_strlit("GB");
                let d = text::decimal(n as nat);
                let s = value_str@;
                text::decimal_reads_back(n as nat);
                assert forall|i: int| 0 <= i < s.len() implies (#[trigger] s[i] as u32) < 128
                    && outside::ascii_upper_char(s[i]) == s[i] by {
                    if i < d.len() {
                        assert(text::is_digit(d[i]));
                    } else {
                        assert(s[i] == unit[i - d.len()]);
                    }
                }
                assert(outside::all_ascii(s));
                assert(upper@ =~= s);
                query_lines::size_is_number_of_units(n, unit);
            }
        }
        Self::parse_upper_size(&chars_of(upper.as_str()))
    }

    /// The number of bytes that a size in upper case, with or without a unit, writes.
    pub fn parse_upper_size(upper: &Vec<char>) -> (r: Option<u64>)
        ensures
            r == bytes_in(upper@),
    {
        proof {
            reveal_strlit("GB");
            reveal_strlit("MB");
            reveal_strlit("KB");
            reveal_strlit("B");
        }
        let n: usize = upper.len();
        if has_suffix(upper, "GB") {
            match text::parse_number(upper, n - 2) {
                Some(v) => Some(scale(v, 1073741824)),
                None => None,
            }
        } else if has_suffix(upper, "MB") {
            match text::parse_number(upper, n - 2) {
                Some(v) => Some(scale(v, 1048576)),
                None => None,
            }
        } else if has_suffix(upper, "KB") {
            match text::parse_number(upper, n - 2) {
                Some(v) => Some(scale(v, 1024)),
                None => None,
            }
        } else if has_suffix(upper, "B") {
            text::parse_number(upper, n - 1)
        } else {
            assert(upper@.take(n as int) =~= upper@);
            text::parse_number(upper, n)
        }
    }

    /// The kind of time that a date word names, and where its date begins.
    fn date_prefix_of(part: &Vec<char>) -> (r: Option<(DateType, usize)>)
        ensures
            match (r, date_prefix(part@)) {
                (Some((t, n)), Some((u, m))) => t == u && n == m && n <= part@.len(),
                (None, None) => true,
                _ => false,
            },
    {
        proof {
            reveal_strlit("datemodified:");
            reveal_strlit("dm:");
            reveal_strlit("datecreated:");
            reveal_strlit("dc:");
            reveal_strlit("dateaccessed:");
            reveal_strlit("da:");
        }
        if has_prefix(part, "datemodified:") {
            Some((DateType::Modified, 13))
        } else if has_prefix(part, "dm:") {
            Some((DateType::Modified, 3))
        } else if has_prefix(part, "datecreated:") {
            Some((DateType::Created, 12))
        } else if has_prefix(part, "dc:") {
            Some((DateType::Created, 3))
        } else if has_prefix(part, "dateaccessed:") {
            Some((DateType::Accessed, 13))
        } else if has_prefix(part, "da:") {
            Some((DateType::Accessed, 3))
        } else {
            None
        }
    }

    /// The date filter that the word `part` writes, where the present day is `today`.
    pub fn parse_date_filter(part: &Vec<char>, today: i32) -> (r: Option<DateFilter>)
        ensures
            r == date_filter_in(part@, today),
    {
        let (date_type, from) = match Self::date_prefix_of(part) {
            Some((t, n)) => (t, n),
            None => {
                return None;
            },
        };
        let body = text::trim_from(part, from);
        let (sign, len) = cut_sign(&body);
        let operator = match sign {
            Some(Sign::Greater) => DateOperator::GreaterThan,
            Some(Sign::Less) => DateOperator::LessThan,
            Some(Sign::Equal) => DateOperator::Equal,
            Some(Sign::GreaterOrEqual) => DateOperator::GreaterOrEqual,
            Some(Sign::LessOrEqual) => DateOperator::LessOrEqual,
            None => DateOperator::Equal,
        };
        let date = string_from(&body, len, body.len());
        assert(date@ =~= body@.skip(len as int));
        let day: Option<i64> = if text::same_text(date.as_str(), "today") {
            Some(today as i64)
        } else if text::same_text(date.as_str(), "yesterday") {
            Some(today as i64 - 1)
        } else if let Some(d) = outside::parse_date(date.as_str(), "%Y%m%d") {
            Some(d as i64)
        } else if let Some(d) = outside::parse_date(date.as_str(), "%Y-%m-%d") {
            Some(d as i64)
        } else if let Some(d) = outside::parse_date(date.as_str(), "%Y/%m/%d") {
            Some(d as i64)
        } else {
            None
        };
        Some(Self::filter_for_day(date_type, operator, day))
    }

    /// The date filter for a day, counted from the first of January of the year 1 as
    /// day 1, or one that lets everything pass where there is none.
    pub fn filter_for_day(date_type: DateType, operator: DateOperator, day: Option<i64>) -> (r:
        DateFilter)
        requires
            day matches Some(d) ==> i32::MIN - 1 <= d <= i32::MAX,
        ensures
            r == date_filter_for(
                date_type,
                operator,
                match day {
                    Some(d) => Some(d as int),
                    None => None,
                },
            ),
    {
        match day {
            Some(d) => {
                let start: i64 = (d - 719163) * 86400;
                DateFilter {
                    date_type,
                    operator,
                    date: Some(start),
                    start: Some(start),
                    end: Some(start + 86399),
                }
            },
            None => DateFilter { date_type, operator, date: None, start: None, end: None },
        }
    }
}

/// A blank line lets every file pass.
pub proof fn blank_query_accepts_all(f: crate::search::FileModel, path: Seq<char>)
    ensures
        QueryModel::empty().accepts_entry(f, path),
{
}

/// Whether a word is sought in names as it stands: it is no filter and no pattern.
pub open spec fn is_plain_word(word: Seq<char>) -> bool {
    &&& !text::begins_with(word, "size:"@)
    &&& date_prefix(word) is None
    &&& !text::begins_with(word, "path:"@)
    &&& !text::begins_with(word, "regex:"@)
    &&& word != ":folders"@ && word != ":folder"@
    &&& !(has_glob_char(word) && outside::glob_compiles(globs::portable(word)))
}

/// One more plain word narrows a query: a file passes where it passed before and its name
/// holds the word, in letters of either case. A name that holds the word as it was written
/// always does.
pub proof fn keyword_narrows(
    q: QueryModel,
    word: Seq<char>,
    today: i32,
    f: crate::search::FileModel,
    path: Seq<char>,
)
    requires
        is_plain_word(word),
        q.keywords.len() == q.keywords_lower.len(),
    ensures
        q.with_word(word, today).accepts_entry(f, path) <==> q.accepts_entry(f, path) && (
        text::has_part(outside::lowercased(f.name), outside::lowercased(word)) || text::has_part(
            f.name,
            word,
        )),
{
    let more = q.with_word(word, today);
    let low = outside::lowercased(word);
    assert(more == QueryModel {
        keywords: q.keywords.push(word),
        keywords_lower: q.keywords_lower.push(low),
        ..q
    });
    let name = outside::lowercased(f.name);
    let n = q.keywords_lower.len() as int;
    if more.accepts_entry(f, path) {
        assert forall|i: int| 0 <= i < n implies text::has_part(
            name,
            #[trigger] q.keywords_lower[i],
        ) || (i < q.keywords.len() && text::has_part(f.name, q.keywords[i])) by {
            assert(more.keywords_lower[i] == q.keywords_lower[i]);
        }
        assert(more.keywords_lower[n] == low);
        assert(q.globs == more.globs);
        assert(q.accepts_entry(f, path));
    }
    if q.accepts_entry(f, path) && (text::has_part(name, low) || text::has_part(f.name, word)) {
        assert forall|i: int| 0 <= i < more.keywords_lower.len() implies text::has_part(
            name,
            #[trigger] more.keywords_lower[i],
        ) || (i < more.keywords.len() && text::has_part(f.name, more.keywords[i])) by {
            if i < n {
                assert(more.keywords_lower[i] == q.keywords_lower[i]);
            }
        }
        assert(q.globs == more.globs);
        assert(more.accepts_entry(f, path));
    }
}

/// The words of a line are kept with their lower case.
pub proof fn lower_words(words: Seq<Seq<char>>, today: i32)
    ensures
        ({
            let q = QueryModel::of_words(words, today);
            &&& q.keywords_lower == q.keywords.map_values(|k: Seq<char>| outside::lowercased(k))
            &&& q.path_lower == (match q.path {
                Some(p) => Some(outside::lowercased(p)),
                None => None,
            })
        }),
    decreases words.len(),
{
    if words.len() > 0 {
        lower_words(words.drop_last(), today);
        let before = QueryModel::of_words(words.drop_last(), today);
        let q = QueryModel::of_words(words, today);
        let lower = |k: Seq<char>| outside::lowercased(k);
        assert(before.keywords.push(words.last()).map_values(lower) =~= before.keywords.map_values(
            lower,
        ).push(lower(words.last())));
    } else {
        let q = QueryModel::of_words(words, today);
        assert(q.keywords_lower =~= q.keywords.map_values(
            |k: Seq<char>| outside::lowercased(k),
        ));
    }
}

/// A stored file passes a query just where what is handed out of it does.
pub proof fn matchers_agree(
    line: Seq<char>,
    today: i32,
    f: crate::search::FileModel,
    path: Seq<char>,
)
    ensures
        ({
            let q = QueryModel::of_text(line, today);
            q.accepts_entry(f, path) == q.accepts_result(crate::search::result_of(f, path))
        }),
{
    lower_words(text::words(line), today);
}

/// Of the signs for less, equal and greater exactly one lets a size pass, and the two
/// others are made up of them.
pub proof fn size_signs_part(value: u64, size: u64)
    ensures
        ({
            let less = size_passes(SizeFilter { operator: SizeOperator::LessThan, value }, size);
            let equal = size_passes(SizeFilter { operator: SizeOperator::Equal, value }, size);
            let more = size_passes(SizeFilter { operator: SizeOperator::GreaterThan, value }, size);
            &&& less || equal || more
            &&& !(less && equal) && !(less && more) && !(equal && more)
            &&& size_passes(SizeFilter { operator: SizeOperator::LessOrEqual, value }, size) == (
            less || equal)
            &&& size_passes(SizeFilter { operator: SizeOperator::GreaterOrEqual, value }, size)
                == (more || equal)
        }),
{
}

/// Of the signs for before, on and after a day exactly one lets a time pass, and the days
/// follow each other without a gap: what is after a day is on or after the next.
pub proof fn days_part(date_type: DateType, day: i32, time: i64)
    ensures
        ({
            let passes = |o: DateOperator, d: int|
                date_passes(date_filter_for(date_type, o, Some(d)), time);
            let before = passes(DateOperator::LessThan, day as int);
            let on = passes(DateOperator::Equal, day as int);
            let after = passes(DateOperator::GreaterThan, day as int);
            &&& before || on || after
            &&& !(before && on) && !(before && after) && !(on && after)
            &&& passes(DateOperator::LessOrEqual, day as int) == (before || on)
            &&& passes(DateOperator::GreaterOrEqual, day as int) == (after || on)
            &&& after == passes(DateOperator::GreaterOrEqual, day + 1)
            &&& on <==> day_start(day as int) <= time < day_start(day + 1)
        }),
{
}

} // verus!
