//! Writing results as CSV or as tab-separated text.

use crate::search;
use crate::search::{ResultModel, SearchResult};
use crate::text::{decimal_text, same_text};
use vstd::prelude::*;

verus! {

broadcast use vstd::string::group_string_axioms;

/// How results are written.
#[derive(Clone, Copy, Debug, PartialEq, Eq, Structural)]
pub enum ExportFormat {
    Csv,
    Txt,
    Json,
}

/// The format with the given name.
pub fn parse_format(name: &str) -> (r: Result<ExportFormat, String>)
    ensures
        if name@ == "csv"@ {
            r == Ok::<ExportFormat, String>(ExportFormat::Csv)
        } else if name@ == "txt"@ {
            r == Ok::<ExportFormat, String>(ExportFormat::Txt)
        } else if name@ == "json"@ {
            r == Ok::<ExportFormat, String>(ExportFormat::Json)
        } else {
            r matches Err(e) && e@ == "Invalid format"@
        },
{
    if same_text(name, "csv") {
        Ok(ExportFormat::Csv)
    } else if same_text(name, "txt") {
        Ok(ExportFormat::Txt)
    } else if same_text(name, "json") {
        Ok(ExportFormat::Json)
    } else {
        Err("Invalid format".to_string())
    }
}

/// Whether a field has to be put into quotes.
pub open spec fn needs_quotes(s: Seq<char>) -> bool {
    s.contains(',') || s.contains('"') || s.contains('\n')
}

/// `s` with every quote doubled.
pub open spec fn doubled(s: Seq<char>) -> Seq<char>
    decreases s.len(),
{
    if s.len() == 0 {
        seq![]
    } else if s.last() == '"' {
        doubled(s.drop_last()) + seq!['"', '"']
    } else {
        doubled(s.drop_last()).push(s.last())
    }
}

/// A field of a CSV line.
pub open spec fn csv_field(s: Seq<char>) -> Seq<char> {
    if needs_quotes(s) {
        seq!['"'] + doubled(s) + seq!['"']
    } else {
        s
    }
}

/// A field of a CSV line: in quotes, with the quotes in it doubled, where it holds a
/// comma, a quote or a line feed.
pub fn csv_escape(field: &str) -> (r: String)
    ensures
        r@ == csv_field(field@),
{
    let n: usize = field.unicode_len();
    let mut quoted = false;
    let mut inner = String::new();
    let mut i: usize = 0;
    assert(field@.take(0) =~= seq![]);
    while i < n
        invariant
            i <= n,
            n == field@.len(),
            quoted == needs_quotes(field@.take(i as int)),
            inner@ == doubled(field@.take(i as int)),
        decreases n - i,
    {
        let c: char = field.get_char(i);
        let ghost before = inner@;
        let ghost done = field@.take(i as int);
        proof {
            let step = field@.take(i + 1);
            assert(step.drop_last() =~= done);
            assert(step.last() == c);
            assert(step =~= done.push(c));
            assert forall|x: char| step.contains(x) == (done.contains(x) || x == c) by {
                if done.contains(x) {
                    let k = done.index_of(x);
                    assert(step[k] == x);
                }
                assert(step[i as int] == c);
            }
        }
        if c == ',' || c == '"' || c == '\n' {
            quoted = true;
        }
        if c == '"' {
            inner.push('"');
        }
        inner.push(c);
        assert(inner@ =~= (if c == '"' {
            before + seq!['"', '"']
        } else {
            before.push(c)
        }));
        i += 1;
    }
    assert(field@.take(n as int) =~= field@);
    if quoted {
        let mut r = String::new();
        r.push('"');
        r.append(inner.as_str());
        r.push('"');
        assert(r@ =~= csv_field(field@));
        r
    } else {
        field.to_string()
    }
}

/// `s` with every two quotes in a row made one.
pub open spec fn halved(s: Seq<char>) -> Seq<char>
    decreases s.len(),
{
    if s.len() == 0 {
        seq![]
    } else if s.len() > 1 && s.last() == '"' && s[s.len() - 2] == '"' {
        halved(s.drop_last().drop_last()).push('"')
    } else {
        halved(s.drop_last()).push(s.last())
    }
}

/// What a reader of CSV takes a field for.
pub open spec fn field_read(f: Seq<char>) -> Seq<char> {
    if f.len() >= 2 && f[0] == '"' && f.last() == '"' {
        halved(f.subrange(1, f.len() - 1))
    } else {
        f
    }
}

/// Making two quotes one undoes doubling them.
proof fn halving_undoes(s: Seq<char>)
    ensures
        halved(doubled(s)) == s,
    decreases s.len(),
{
    if s.len() > 0 {
        let init = s.drop_last();
        halving_undoes(init);
        assert(s =~= init.push(s.last()));
        let d = doubled(s);
        if s.last() == '"' {
            assert(d.drop_last().drop_last() =~= doubled(init));
            assert(halved(d) =~= halved(doubled(init)).push('"'));
        } else {
            assert(d.drop_last() =~= doubled(init));
        }
    } else {
        assert(halved(doubled(s)) =~= s);
    }
}

/// A field reads back as the text that it was written for.
pub proof fn csv_reads_back(s: Seq<char>)
    ensures
        field_read(csv_field(s)) == s,
{
    let f = csv_field(s);
    if needs_quotes(s) {
        assert(f.subrange(1, f.len() - 1) =~= doubled(s));
        halving_undoes(s);
    } else if f.len() >= 2 && f[0] == '"' {
        assert(s.contains('"'));
    }
}

/// "true" or "false".
pub open spec fn bool_text(b: bool) -> Seq<char> {
    if b {
        "true"@
    } else {
        "false"@
    }
}

/// "true" or "false".
fn text_of_bool(b: bool) -> (r: String)
    ensures
        r@ == bool_text(b),
{
    if b {
        "true".to_string()
    } else {
        "false".to_string()
    }
}

/// The line of a result in CSV, without its end.
pub open spec fn csv_line_of(f: ResultModel) -> Seq<char> {
    csv_field(f.name) + seq![','] + csv_field(f.path) + seq![','] + crate::text::decimal(
        f.size as nat,
    ) + seq![','] + csv_field(search::time_text(f.modified_time)) + seq![','] + bool_text(
        f.is_directory,
    )
}

/// The line of a result in CSV, without its end.
pub fn csv_line(f: &SearchResult) -> (r: String)
    ensures
        r@ == csv_line_of(f@),
{
    let mut r = csv_escape(f.name.as_str());
    r.push(',');
    r.append(csv_escape(f.path.as_str()).as_str());
    r.push(',');
    r.append(decimal_text(f.size).as_str());
    r.push(',');
    r.append(csv_escape(SearchResult::format_time_static(f.modified_time).as_str()).as_str());
    r.push(',');
    r.append(text_of_bool(f.is_directory).as_str());
    assert(r@ =~= csv_line_of(f@));
    r
}

/// The tab-separated line of a result, without its end.
pub open spec fn txt_line_of(f: ResultModel) -> Seq<char> {
    f.name + seq!['\t'] + f.path + seq!['\t'] + search::size_text(f.size) + seq!['\t']
        + search::time_text(f.modified_time) + seq!['\t'] + bool_text(f.is_directory)
}

/// The tab-separated line of a result, without its end.
pub fn txt_line(f: &SearchResult) -> (r: String)
    ensures
        r@ == txt_line_of(f@),
{
    let mut r = f.name.clone();
    r.push('\t');
    r.append(f.path.as_str());
    r.push('\t');
    r.append(f.formatted_size().as_str());
    r.push('\t');
    r.append(f.formatted_modified_time().as_str());
    r.push('\t');
    r.append(text_of_bool(f.is_directory).as_str());
    assert(r@ =~= txt_line_of(f@));
    r
}

/// The results as CSV, below a line with the names of the fields.
pub open spec fn csv_of(results: Seq<ResultModel>) -> Seq<char>
    decreases results.len(),
{
    if results.len() == 0 {
        "Name,Path,Size,Modified,IsDirectory\n"@
    } else {
        csv_of(results.drop_last()) + csv_line_of(results.last()) + seq!['\n']
    }
}

/// The results as tab-separated lines.
pub open spec fn txt_of(results: Seq<ResultModel>) -> Seq<char>
    decreases results.len(),
{
    if results.len() == 0 {
        seq![]
    } else {
        txt_of(results.drop_last()) + txt_line_of(results.last()) + seq!['\n']
    }
}

/// The results as CSV.
pub fn csv_text(results: &Vec<SearchResult>) -> (r: String)
    ensures
        r@ == csv_of(crate::rows::result_models(results@)),
{
    let mut r = "Name,Path,Size,Modified,IsDirectory\n".to_string();
    let ghost models = crate::rows::result_models(results@);
    let mut i: usize = 0;
    assert(models.take(0) =~= seq![]);
    while i < results.len()
        invariant
            i <= results@.len(),
            models == crate::rows::result_models(results@),
            r@ == csv_of(models.take(i as int)),
        decreases results@.len() - i,
    {
        proof {
            let step = models.take(i + 1);
            assert(step.drop_last() =~= models.take(i as int));
            assert(step.last() == results@[i as int]@);
        }
        let ghost before = r@;
        r.append(csv_line(&results[i]).as_str());
        r.push('\n');
        assert(r@ =~= before + csv_line_of(results@[i as int]@) + seq!['\n']);
        i += 1;
    }
    assert(models.take(i as int) =~= models);
    r
}

/// The results as tab-separated lines.
pub fn txt_text(results: &Vec<SearchResult>) -> (r: String)
    ensures
        r@ == txt_of(crate::rows::result_models(results@)),
{
    let mut r = String::new();
    let ghost models = crate::rows::result_models(results@);
    let mut i: usize = 0;
    assert(models.take(0) =~= seq![]);
    while i < results.len()
        invariant
            i <= results@.len(),
            models == crate::rows::result_models(results@),
            r@ == txt_of(models.take(i as int)),
        decreases results@.len() - i,
    {
        proof {
            let step = models.take(i + 1);
            assert(step.drop_last() =~= models.take(i as int));
            assert(step.last() == results@[i as int]@);
        }
        let ghost before = r@;
        r.append(txt_line(&results[i]).as_str());
        r.push('\n');
        assert(r@ =~= before + txt_line_of(results@[i as int]@) + seq!['\n']);
        i += 1;
    }
    assert(models.take(i as int) =~= models);
    r
}

} // verus!
