//! What the library takes from outside crates and from the parts of std that have
//! no contract of their own. Nothing here is proved: each item states what the
//! function it stands for is documented to do.

use base64::Engine;
use bitvec::vec::BitVec;
use chrono::{Datelike, TimeZone};
use crate::globs;
use crate::ntfs_time;
use crate::text;
use glob::{Pattern, PatternError};
use regex::Regex;
use std::fmt::Write;
use std::time::Instant;
use rayon::iter::{IndexedParallelIterator, IntoParallelRefIterator, ParallelIterator};
use vstd::prelude::*;

verus! {

/// A bit vector of `bitvec`.
#[verifier::external_body]
pub struct Bits {
    bits: BitVec,
}

/// The bits that a bit vector holds, in order.
pub uninterp spec fn bits_of(b: Bits) -> Seq<bool>;

/// `BitVec::with_capacity` makes a bit vector without bits. It panics where the
/// capacity is over an eighth of what `usize` counts.
#[verifier::external_body]
pub(crate) fn bits_with_capacity(capacity: usize) -> (b: Bits)
    requires
        capacity <= usize::MAX / 8,
    ensures
        bits_of(b) == Seq::<bool>::empty(),
{
    Bits { bits: BitVec::with_capacity(capacity) }
}

/// `BitVec::resize` cuts the bit vector to `len` bits, or fills it up with `value`.
/// It panics where `len` is over an eighth of what `usize` counts.
#[verifier::external_body]
pub(crate) fn bits_resize(b: &mut Bits, len: usize, value: bool)
    requires
        len <= usize::MAX / 8,
    ensures
        bits_of(*final(b)).len() == len,
        forall|i: int|
            0 <= i < len ==> #[trigger] bits_of(*final(b))[i] == (if i < bits_of(*old(b)).len() {
                bits_of(*old(b))[i]
            } else {
                value
            }),
{
    b.bits.resize(len, value)
}

/// `BitVec::len` counts the bits.
#[verifier::external_body]
pub(crate) fn bits_len(b: &Bits) -> (n: usize)
    ensures
        n == bits_of(*b).len(),
{
    b.bits.len()
}

/// `BitSlice::set` writes one bit and leaves the others. It panics where there is
/// no such bit.
#[verifier::external_body]
pub(crate) fn bits_set(b: &mut Bits, index: usize, value: bool)
    requires
        index < bits_of(*old(b)).len(),
    ensures
        bits_of(*final(b)) == bits_of(*old(b)).update(index as int, value),
{
    b.bits.set(index, value)
}

/// Indexing a bit vector reads one bit. It panics where there is no such bit.
#[verifier::external_body]
pub(crate) fn bits_get(b: &Bits, index: usize) -> (r: bool)
    requires
        index < bits_of(*b).len(),
    ensures
        r == bits_of(*b)[index as int],
{
    b.bits[index]
}

/// The compiled pattern of `glob`.
#[verifier::external_type_specification]
#[verifier::external_body]
pub struct ExPattern(Pattern);

/// What `glob` says of a pattern it cannot compile.
#[verifier::external_type_specification]
#[verifier::external_body]
pub struct ExPatternError(PatternError);

/// The text that a glob pattern was compiled from: what `Pattern::as_str` gives.
pub uninterp spec fn pattern_text(p: Pattern) -> Seq<char>;

/// Whether `glob` compiles `pattern`, which has no backslash but at the end of a range.
pub uninterp spec fn glob_compiles(pattern: Seq<char>) -> bool;

/// Whether the glob `pattern` matches `name` as a whole. The name has no backslash, and the
/// pattern none but at the end of a range.
pub uninterp spec fn glob_matches(pattern: Seq<char>, name: Seq<char>) -> bool;

/// `Pattern::new` compiles a glob pattern or refuses it, by its text alone where it has no
/// backslash outside brackets: whether that separates names depends on the system.
#[verifier::external_body]
pub(crate) fn glob_new(pattern: &str) -> (r: Result<Pattern, PatternError>)
    requires
        globs::is_portable(pattern@),
    ensures
        r is Ok <==> glob_compiles(pattern@),
        r matches Ok(p) ==> pattern_text(p) == pattern@,
{
    Pattern::new(pattern)
}

/// `Pattern::matches_path` tests a name against a compiled pattern with the default
/// options; the answer depends on the pattern's text and the name alone where the name has
/// no backslash, and the pattern none but at the end of a range: only there a backslash is
/// compared by its number on every system.
#[verifier::external_body]
pub(crate) fn glob_matches_path(p: &Pattern, name: &str) -> (r: bool)
    requires
        globs::is_portable(pattern_text(*p)),
        !name@.contains('\\'),
    ensures
        r == glob_matches(pattern_text(*p), name@),
{
    p.matches_path(std::path::Path::new(name))
}

/// The compiled expression of `regex`.
#[verifier::external_type_specification]
#[verifier::external_body]
pub struct ExRegex(Regex);

/// What `regex` says of an expression it cannot compile.
#[verifier::external_type_specification]
#[verifier::external_body]
pub struct ExRegexError(regex::Error);

/// The text that a regular expression was compiled from: what `Regex::as_str` gives.
pub uninterp spec fn regex_text(r: Regex) -> Seq<char>;

/// Whether `regex` compiles `expression`.
pub uninterp spec fn regex_compiles(expression: Seq<char>) -> bool;

/// Whether the regular `expression` matches anywhere in `name`.
pub uninterp spec fn regex_matches(expression: Seq<char>, name: Seq<char>) -> bool;

/// `Regex::new` compiles a regular expression or refuses it, by its text alone.
#[verifier::external_body]
pub(crate) fn regex_new(expression: &str) -> (r: Result<Regex, regex::Error>)
    ensures
        r is Ok <==> regex_compiles(expression@),
        r matches Ok(e) ==> regex_text(e) == expression@,
{
    Regex::new(expression)
}

/// `Regex::is_match` searches a text for a compiled expression; the answer depends
/// on the expression's text and the searched text alone.
#[verifier::external_body]
pub(crate) fn regex_is_match(e: &Regex, name: &str) -> (r: bool)
    ensures
        r == regex_matches(regex_text(*e), name@),
{
    e.is_match(name)
}

/// The date that `chrono` reads in `date` by `format`, as the number of days from
/// the first of January of the year 1, which is day 1.
pub uninterp spec fn parsed_date(date: Seq<char>, format: Seq<char>) -> Option<i32>;

/// `NaiveDate::parse_from_str` reads a date by a format or refuses it. The date is
/// handed on as its `num_days_from_ce`, which counts the days from the first of
/// January of the year 1 as day 1.
#[verifier::external_body]
pub(crate) fn parse_date(date: &str, format: &str) -> (r: Option<i32>)
    ensures
        r == parsed_date(date@, format@),
{
    chrono::NaiveDate::parse_from_str(date, format).ok().map(|d| d.num_days_from_ce())
}

/// The UTC date and time that `chrono` reads in `text` by `format`, as the number of seconds
/// from the beginning of 1970.
pub uninterp spec fn parsed_time(text: Seq<char>, format: Seq<char>) -> Option<i64>;

/// `NaiveDateTime::parse_from_str` reads a date and time by a format or refuses it. It is
/// handed on as its UTC `timestamp`, the number of seconds from the beginning of 1970.
#[verifier::external_body]
pub(crate) fn parse_time(text: &str, format: &str) -> (r: Option<i64>)
    ensures
        r == parsed_time(text@, format@),
{
    chrono::NaiveDateTime::parse_from_str(text, format).ok().map(|t| t.and_utc().timestamp())
}

/// `Local::now` gives the present time where the machine is; of it, the date, as the
/// number of days from the first of January of the year 1, which is day 1. Nothing
/// is said of the result: it depends on the clock and the time zone.
#[verifier::external_body]
pub(crate) fn today_from_ce() -> (r: i32) {
    chrono::Local::now().date_naive().num_days_from_ce()
}

/// The UTC date and time of a number of seconds from the beginning of 1970, as `chrono`
/// writes it by `format`, where it can hold the time and knows the format.
pub uninterp spec fn utc_time_text(seconds: i64, format: Seq<char>) -> Option<Seq<char>>;

/// `Utc.timestamp_opt` takes a number of seconds from the beginning of 1970 to a UTC
/// time, or to none where it is out of range, and `DateTime::format` writes it by a format,
/// or fails where the format is not known. From 1601 to 9999 a date in the order of year,
/// month and day and the time of day are written with all their digits.
#[verifier::external_body]
pub(crate) fn utc_time(seconds: i64, format: &str) -> (r: Option<String>)
    ensures
        r is Some <==> utc_time_text(seconds, format@) is Some,
        r matches Some(s) ==> utc_time_text(seconds, format@) == Some(s@),
        ntfs_time::is_written(seconds, format@, r),
{
    let time = chrono::Utc.timestamp_opt(seconds, 0).single()?;
    let mut text = String::new();
    write!(text, "{}", time.format(format)).ok()?;
    Some(text)
}

/// The standard base64 text of `bytes`, with padding.
pub uninterp spec fn base64_text(bytes: Seq<u8>) -> Seq<char>;

/// `STANDARD.encode` writes bytes as standard base64 with padding: four characters for
/// three bytes. It panics where the machine cannot count the characters.
#[verifier::external_body]
pub(crate) fn base64_encode(bytes: &Vec<u8>) -> (r: String)
    requires
        bytes@.len() <= usize::MAX / 4,
    ensures
        r@ == base64_text(bytes@),
{
    base64::engine::general_purpose::STANDARD.encode(bytes)
}

/// `s` in lower case by Unicode's rules.
pub uninterp spec fn lowercased(s: Seq<char>) -> Seq<char>;

/// `s` in upper case by Unicode's rules.
pub uninterp spec fn uppercased(s: Seq<char>) -> Seq<char>;

/// Whether `s` holds ASCII characters only.
pub open spec fn all_ascii(s: Seq<char>) -> bool {
    forall|i: int| 0 <= i < s.len() ==> (#[trigger] s[i] as u32) < 128
}

/// `c` with an ASCII small letter replaced by its capital.
pub open spec fn ascii_upper_char(c: char) -> char {
    if 'a' <= c <= 'z' {
        ((c as u32) - 32) as char
    } else {
        c
    }
}

/// `str::to_lowercase` gives the lower case of a text; of ASCII text, each capital
/// letter becomes its small one and nothing else changes.
#[verifier::external_body]
pub(crate) fn to_lowercase(s: &str) -> (r: String)
    ensures
        r@ == lowercased(s@),
        all_ascii(s@) ==> r@ == text::ascii_lower(s@),
{
    s.to_lowercase()
}

/// `str::to_uppercase` gives the upper case of a text; of ASCII text, each small
/// letter becomes its capital and nothing else changes.
#[verifier::external_body]
pub(crate) fn to_uppercase(s: &str) -> (r: String)
    ensures
        r@ == uppercased(s@),
        all_ascii(s@) ==> r@ == s@.map_values(|c: char| ascii_upper_char(c)),
{
    s.to_uppercase()
}

/// A moment on std's monotonic clock.
#[verifier::external_type_specification]
#[verifier::external_body]
pub struct ExInstant(Instant);

/// `Instant::now` reads the monotonic clock. Nothing is said of the result.
#[verifier::external_body]
pub(crate) fn instant_now() -> (r: Instant) {
    Instant::now()
}

/// `Instant::elapsed` measures the time since a moment; handed on in whole seconds.
/// Nothing is said of the result: it depends on the clock.
#[verifier::external_body]
pub(crate) fn seconds_since(moment: &Instant) -> (r: u64) {
    moment.elapsed().as_secs()
}

/// The text that UTF-16 units write, by `String::from_utf16_lossy`.
pub uninterp spec fn utf16_text(units: Seq<u16>) -> Seq<char>;

/// Whether `u` writes a character of its own.
pub open spec fn is_whole_unit(u: u16) -> bool {
    u < 0xD800 || u > 0xDFFF
}

/// `String::from_utf16_lossy` decodes UTF-16 units. Units that each write a character of
/// their own give those characters; of others nothing is stated here but that the same
/// units give the same text.
#[verifier::external_body]
pub(crate) fn from_utf16_lossy(units: &Vec<u16>) -> (r: String)
    ensures
        r@ == utf16_text(units@),
        (forall|i: int| 0 <= i < units@.len() ==> is_whole_unit(#[trigger] units@[i])) ==> r@
            == units@.map_values(|u: u16| u as char),
{
    String::from_utf16_lossy(units)
}

/// A test of items that finds something in some of them: a value of type `R`, which
/// stands for one of type `M`.
pub trait Sift<T, R, M> {
    /// What a value stands for.
    spec fn model(&self, r: R) -> M;

    /// What is found in the item `x` at place `i`.
    spec fn finds(&self, i: int, x: T) -> Option<M>;

    /// Finds something in the item `x` at place `i`.
    fn sift(&self, i: usize, x: &T) -> (r: Option<R>)
        ensures
            match self.finds(i as int, *x) {
                Some(m) => r matches Some(v) && self.model(v) == m,
                None => r is None,
            },
    ;
}

/// `filter_map` of an enumerated parallel iterator of `rayon`, collected: what the given
/// function finds in the items, in the order of their places.
#[verifier::external_body]
pub(crate) fn par_sift<T: Sync, R: Send, M, S: Sift<T, R, M> + Sync>(items: &Vec<T>, s: &S) -> (r:
    Vec<R>)
    ensures
        r@.map_values(|v: R| s.model(v)) == Seq::new(items@.len(), |i: int| i).filter_map(
            |i: int| s.finds(i, items@[i]),
        ),
{
    items.par_iter().enumerate().filter_map(|(i, x)| s.sift(i, x)).collect()
}

} // verus!
