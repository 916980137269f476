//! What the text of a query line means for the files that it finds.

use crate::globs;
use crate::outside;
use crate::query;
use crate::query::QueryModel;
use crate::search::FileModel;
use crate::text;
use vstd::prelude::*;

verus! {

/// Whether `s` holds no white space.
pub open spec fn is_unbroken(s: Seq<char>) -> bool {
    forall|i: int| 0 <= i < s.len() ==> !text::is_space(#[trigger] s[i])
}

/// A text without white space is one word.
pub proof fn one_word(w: Seq<char>)
    requires
        w.len() > 0,
        is_unbroken(w),
    ensures
        text::words(w) == seq![w],
    decreases w.len(),
{
    let init = w.drop_last();
    assert(!text::is_space(w[w.len() - 1]));
    if w.len() == 1 {
        assert(text::words(init) =~= seq![]);
        assert(w =~= seq![w.last()]);
        assert(text::words(w) =~= seq![w]);
    } else {
        assert forall|i: int| 0 <= i < init.len() implies !text::is_space(#[trigger] init[i]) by {
            assert(init[i] == w[i]);
        }
        one_word(init);
        assert(!text::is_space(w[w.len() - 2]));
        assert(init.push(w.last()) =~= w);
        assert(text::words(w) =~= seq![w]);
    }
}

/// A word behind white space is one word more.
pub proof fn one_word_more(a: Seq<char>, c: char, w: Seq<char>)
    requires
        text::is_space(c),
        w.len() > 0,
        is_unbroken(w),
    ensures
        text::words(a.push(c) + w) == text::words(a).push(w),
    decreases w.len(),
{
    let s = a.push(c) + w;
    let init = w.drop_last();
    assert(s.last() == w[w.len() - 1]);
    assert(!text::is_space(w[w.len() - 1]));
    if w.len() == 1 {
        assert(s.drop_last() =~= a.push(c));
        assert(a.push(c).drop_last() =~= a);
        assert(text::words(a.push(c)) == text::words(a));
        assert(s[s.len() - 2] == c);
        assert(w =~= seq![w.last()]);
    } else {
        assert forall|i: int| 0 <= i < init.len() implies !text::is_space(#[trigger] init[i]) by {
            assert(init[i] == w[i]);
        }
        one_word_more(a, c, init);
        assert(s.drop_last() =~= a.push(c) + init);
        assert(s[s.len() - 2] == w[w.len() - 2]);
        assert(!text::is_space(w[w.len() - 2]));
        assert(init.push(w.last()) =~= w);
        assert(text::words(a).push(init).drop_last() =~= text::words(a));
    }
}

/// A line is read word by word: a blank one asks for nothing, and a word behind a blank adds what
/// it asks for to what the line before it does. So does a word alone.
pub proof fn words_come_in_turn(line: Seq<char>, w: Seq<char>, today: i32)
    requires
        w.len() > 0,
        is_unbroken(w),
    ensures
        QueryModel::of_text(Seq::empty(), today) == QueryModel::empty(),
        QueryModel::of_text(w, today) == QueryModel::empty().with_word(w, today),
        QueryModel::of_text(line.push(' ') + w, today) == QueryModel::of_text(
            line,
            today,
        ).with_word(w, today),
{
    one_word(w);
    one_word_more(line, ' ', w);
    let none = Seq::<Seq<char>>::empty();
    assert(text::words(Seq::empty()) =~= none);
    assert(seq![w].drop_last() =~= none);
    assert(text::words(line).push(w).drop_last() =~= text::words(line));
}

/// A part stands in a text just where the text is made of something, the part and something.
pub proof fn part_stands_between(whole: Seq<char>, part: Seq<char>)
    ensures
        text::has_part(whole, part) <==> exists|a: Seq<char>, b: Seq<char>|
            whole == #[trigger] (a + part + b),
{
    if text::has_part(whole, part) {
        let at = choose|at: int| text::stands_at(whole, part, at);
        let (a, b) = (whole.take(at), whole.skip(at + part.len()));
        assert(whole =~= a + whole.subrange(at, at + part.len()) + b);
    }
    if exists|a: Seq<char>, b: Seq<char>| whole == #[trigger] (a + part + b) {
        let (a, b) = choose|a: Seq<char>, b: Seq<char>| whole == #[trigger] (a + part + b);
        assert(whole.subrange(a.len() as int, a.len() + part.len() as int) =~= part);
        assert(text::stands_at(whole, part, a.len() as int));
    }
}

/// A number in decimal ends with the digit that counts ones, and what stands before it counts
/// tens.
pub proof fn decimals_are_positional(n: nat, d: nat)
    requires
        d < 10,
    ensures
        text::decimal(d) == seq![(48 + d) as u8 as char],
        n > 0 ==> text::decimal(10 * n + d) == text::decimal(n).push((48 + d) as u8 as char),
{
    if n > 0 {
        assert((10 * n + d) / 10 == n);
        assert((10 * n + d) % 10 == d);
    }
}

/// A text without white space is trimmed.
proof fn unbroken_is_trimmed(s: Seq<char>)
    requires
        is_unbroken(s),
    ensures
        text::trimmed(s) == s,
{
    if s.len() > 0 {
        assert(!text::is_space(s[s.len() - 1]));
        assert(!text::is_space(s[0]));
    }
}

/// What stands behind what a text begins with.
proof fn behind(a: Seq<char>, b: Seq<char>)
    ensures
        text::begins_with(a + b, a),
        (a + b).skip(a.len() as int) == b,
{
    assert((a + b).subrange(0, a.len() as int) =~= a);
    assert((a + b).skip(a.len() as int) =~= b);
}

/// Whether `t` can stand behind a sign: it has no white space and does not go on with a sign.
pub open spec fn can_follow_sign(t: Seq<char>) -> bool {
    &&& t.len() > 0
    &&& is_unbroken(t)
    &&& t[0] != '<' && t[0] != '>' && t[0] != '='
}

/// Which sign a text begins with, and where what follows begins.
proof fn signs_are_read(t: Seq<char>)
    requires
        can_follow_sign(t),
    ensures
        ({
            let cut = |s: Seq<char>| s.skip(query::sign_len(query::sign_of(s)));
            &&& query::sign_of(">="@ + t) == Some(query::Sign::GreaterOrEqual) && cut(">="@ + t) == t
            &&& query::sign_of("<="@ + t) == Some(query::Sign::LessOrEqual) && cut("<="@ + t) == t
            &&& query::sign_of(">"@ + t) == Some(query::Sign::Greater) && cut(">"@ + t) == t
            &&& query::sign_of("<"@ + t) == Some(query::Sign::Less) && cut("<"@ + t) == t
            &&& query::sign_of("="@ + t) == Some(query::Sign::Equal) && cut("="@ + t) == t
            &&& query::sign_of(t) is None && cut(t) == t
        }),
{
    reveal_strlit(">=");
    reveal_strlit("<=");
    reveal_strlit(">");
    reveal_strlit("<");
    reveal_strlit("=");
    assert forall|s: Seq<char>|
        #![trigger query::sign_of(s)]
        {
            &&& text::begins_with(s, ">="@) <==> s.len() >= 2 && s[0] == '>' && s[1] == '='
            &&& text::begins_with(s, "<="@) <==> s.len() >= 2 && s[0] == '<' && s[1] == '='
            &&& text::begins_with(s, ">"@) <==> s.len() >= 1 && s[0] == '>'
            &&& text::begins_with(s, "<"@) <==> s.len() >= 1 && s[0] == '<'
            &&& text::begins_with(s, "="@) <==> s.len() >= 1 && s[0] == '='
        } by {
        if s.len() >= 2 {
            assert(s.subrange(0, 2)[0] == s[0] && s.subrange(0, 2)[1] == s[1]);
            if s[0] == '>' && s[1] == '=' {
                assert(s.subrange(0, 2) =~= ">="@);
            }
            if s[0] == '<' && s[1] == '=' {
                assert(s.subrange(0, 2) =~= "<="@);
            }
        }
        if s.len() >= 1 {
            assert(s.subrange(0, 1)[0] == s[0]);
            if s[0] == '>' {
                assert(s.subrange(0, 1) =~= ">"@);
            }
            if s[0] == '<' {
                assert(s.subrange(0, 1) =~= "<"@);
            }
            if s[0] == '=' {
                assert(s.subrange(0, 1) =~= "="@);
            }
        }
    }
    assert((">="@ + t).skip(2) =~= t);
    assert(("<="@ + t).skip(2) =~= t);
    assert((">"@ + t).skip(1) =~= t);
    assert(("<"@ + t).skip(1) =~= t);
    assert(("="@ + t).skip(1) =~= t);
    assert(t.skip(0) =~= t);
}

/// How many bytes a unit of size has; none where it is no unit.
pub open spec fn unit_bytes(unit: Seq<char>) -> nat {
    if unit == ""@ || unit == "B"@ {
        1
    } else if unit == "KB"@ {
        1024
    } else if unit == "MB"@ {
        1024 * 1024
    } else if unit == "GB"@ {
        1024 * 1024 * 1024
    } else {
        0
    }
}

/// A number and a unit write the number of bytes.
pub proof fn size_is_number_of_units(n: u64, unit: Seq<char>)
    requires
        unit_bytes(unit) > 0,
        n * unit_bytes(unit) <= u64::MAX,
    ensures
        query::bytes_in(text::decimal(n as nat) + unit) == Some((n * unit_bytes(unit)) as u64),
{
    reveal_strlit("");
    reveal_strlit("B");
    reveal_strlit("KB");
    reveal_strlit("MB");
    reveal_strlit("GB");
    let d = text::decimal(n as nat);
    let s = d + unit;
    text::decimal_reads_back(n as nat);
    let k = s.len() as int;
    assert(text::is_digit(d[d.len() - 1]));
    assert(k >= 2 ==> s.subrange(k - 2, k)[0] == s[k - 2] && s.subrange(k - 2, k)[1] == s[k - 1]);
    assert(s.subrange(k - 1, k)[0] == s[k - 1]);
    if unit == ""@ {
        assert(s =~= d);
    } else if unit == "B"@ {
        assert(s.take(k - 1) =~= d);
        assert(s.subrange(k - 1, k) =~= "B"@);
        if k >= 2 {
            assert(s[k - 2] == d[d.len() - 1]);
        }
    } else {
        assert(s.take(k - 2) =~= d);
        assert(s.subrange(k - 2, k) =~= unit);
        assert(s[k - 2] == unit[0]);
    }
}

impl QueryModel {
    /// The query without its bound on the size.
    pub open spec fn of_any_size(self) -> QueryModel {
        QueryModel { size: None, ..self }
    }

    /// The query without its bound on the time.
    pub open spec fn of_any_time(self) -> QueryModel {
        QueryModel { date: None, ..self }
    }

    /// The query without what it asks of the path.
    pub open spec fn of_any_path(self) -> QueryModel {
        QueryModel { path: None, path_lower: None, ..self }
    }

    /// The query without its regular expression.
    pub open spec fn of_any_form(self) -> QueryModel {
        QueryModel { regex: None, ..self }
    }
}

/// The bound that a size word writes.
proof fn size_word_is_read(q: QueryModel, sign: Seq<char>, t: Seq<char>, today: i32)
    requires
        is_unbroken(sign),
        is_unbroken(t),
    ensures
        q.with_word("size:"@ + sign + t, today) == (QueryModel {
            size: query::size_filter_in("size:"@ + sign + t),
            ..q
        }),
        ("size:"@ + sign + t).skip(5) == sign + t,
        text::trimmed(sign + t) == sign + t,
        is_unbroken("size:"@ + sign + t),
{
    reveal_strlit("size:");
    let body = sign + t;
    assert("size:"@ + sign + t =~= "size:"@ + body);
    behind("size:"@, body);
    assert(is_unbroken(body)) by {
        assert forall|i: int| 0 <= i < body.len() implies !text::is_space(#[trigger] body[i]) by {
            if i < sign.len() {
                assert(body[i] == sign[i]);
            } else {
                assert(body[i] == t[i - sign.len()]);
            }
        }
    }
    unbroken_is_trimmed(body);
    let w = "size:"@ + body;
    assert forall|i: int| 0 <= i < w.len() implies !text::is_space(#[trigger] w[i]) by {
        if i >= 5 {
            assert(w[i] == body[i - 5]);
        }
    }
}

/// What passes with a bound on the size is what passes without it and is within it.
proof fn bound_adds(q: QueryModel, size: Option<query::SizeFilter>, f: FileModel, path: Seq<char>)
    ensures
        (QueryModel { size, ..q }).accepts_entry(f, path) <==> q.of_any_size().accepts_entry(
            f,
            path,
        ) && (size matches Some(b) ==> query::size_passes(b, f.size)),
{
    let (a, b) = (QueryModel { size, ..q }, q.of_any_size());
    assert(a.globs == b.globs && a.keywords == b.keywords && a.keywords_lower == b.keywords_lower);
}

/// What passes with a size word.
proof fn size_word_passes(
    q: QueryModel,
    sign: Seq<char>,
    t: Seq<char>,
    today: i32,
    f: FileModel,
    path: Seq<char>,
)
    requires
        is_unbroken(sign),
        is_unbroken(t),
    ensures
        q.with_word("size:"@ + sign + t, today).accepts_entry(f, path) <==> q.of_any_size().accepts_entry(
            f,
            path,
        ) && (query::size_filter_in("size:"@ + sign + t) matches Some(b) ==> query::size_passes(
            b,
            f.size,
        )),
        ("size:"@ + sign + t).skip(5) == sign + t,
        text::trimmed(sign + t) == sign + t,
{
    size_word_is_read(q, sign, t, today);
    bound_adds(q, query::size_filter_in("size:"@ + sign + t), f, path);
}

/// What passes with a size word of one sign.
proof fn signed_word_passes(
    q: QueryModel,
    sign: Seq<char>,
    t: Seq<char>,
    bytes: u64,
    today: i32,
    f: FileModel,
    path: Seq<char>,
)
    requires
        is_unbroken(sign),
        is_unbroken(t),
        query::bytes_in(outside::uppercased(t)) == Some(bytes),
        (sign + t).skip(query::sign_len(query::sign_of(sign + t))) == t,
    ensures
        q.with_word("size:"@ + sign + t, today).accepts_entry(f, path) <==> q.of_any_size().accepts_entry(
            f,
            path,
        ) && query::size_passes(
            query::SizeFilter {
                operator: query::size_operator(query::sign_of(sign + t)),
                value: bytes,
            },
            f.size,
        ),
{
    size_word_passes(q, sign, t, today, f, path);
    unbroken_is_trimmed(t);
    let filter = query::SizeFilter {
        operator: query::size_operator(query::sign_of(sign + t)),
        value: bytes,
    };
    assert(query::size_filter_in("size:"@ + sign + t) == Some(filter));
}

/// A size word bounds the size of what is found: with `>=` a file passes just where it passes
/// the rest and has at least so many bytes, with `<=` at most so many, with `>` more, with `<`
/// fewer, with `=` exactly so many, and without a sign at least so many. The number may have a
/// unit, in letters of either case.
pub proof fn size_word_bounds_size(
    q: QueryModel,
    t: Seq<char>,
    n: u64,
    unit: Seq<char>,
    today: i32,
    f: FileModel,
    path: Seq<char>,
)
    requires
        can_follow_sign(t),
        unit_bytes(unit) > 0,
        n * unit_bytes(unit) <= u64::MAX,
        outside::uppercased(t) == text::decimal(n as nat) + unit,
    ensures
        ({
            let found = |sign: Seq<char>|
                q.with_word("size:"@ + sign + t, today).accepts_entry(f, path);
            let rest = q.of_any_size().accepts_entry(f, path);
            let bytes = n * unit_bytes(unit);
            &&& found(">="@) <==> rest && f.size >= bytes
            &&& found("<="@) <==> rest && f.size <= bytes
            &&& found(">"@) <==> rest && f.size > bytes
            &&& found("<"@) <==> rest && f.size < bytes
            &&& found("="@) <==> rest && f.size == bytes
            &&& found(""@) <==> rest && f.size >= bytes
        }),
{
    reveal_strlit(">=");
    reveal_strlit("<=");
    reveal_strlit(">");
    reveal_strlit("<");
    reveal_strlit("=");
    reveal_strlit("");
    size_is_number_of_units(n, unit);
    signs_are_read(t);
    assert(""@ + t =~= t);
    let bytes = (n * unit_bytes(unit)) as u64;
    signed_word_passes(q, ">="@, t, bytes, today, f, path);
    signed_word_passes(q, "<="@, t, bytes, today, f, path);
    signed_word_passes(q, ">"@, t, bytes, today, f, path);
    signed_word_passes(q, "<"@, t, bytes, today, f, path);
    signed_word_passes(q, "="@, t, bytes, today, f, path);
    signed_word_passes(q, ""@, t, bytes, today, f, path);
}

/// The line `size:>=` with a number finds just the files that have at least so many bytes, and
/// likewise with the other signs.
pub proof fn size_line_bounds_size(
    t: Seq<char>,
    n: u64,
    unit: Seq<char>,
    today: i32,
    f: FileModel,
    path: Seq<char>,
)
    requires
        can_follow_sign(t),
        unit_bytes(unit) > 0,
        n * unit_bytes(unit) <= u64::MAX,
        outside::uppercased(t) == text::decimal(n as nat) + unit,
    ensures
        ({
            let found = |sign: Seq<char>|
                QueryModel::of_text("size:"@ + sign + t, today).accepts_entry(f, path);
            let bytes = n * unit_bytes(unit);
            &&& found(">="@) <==> f.size >= bytes
            &&& found("<="@) <==> f.size <= bytes
            &&& found(">"@) <==> f.size > bytes
            &&& found("<"@) <==> f.size < bytes
            &&& found("="@) <==> f.size == bytes
            &&& found(""@) <==> f.size >= bytes
        }),
{
    reveal_strlit("size:");
    reveal_strlit(">=");
    reveal_strlit("<=");
    reveal_strlit(">");
    reveal_strlit("<");
    reveal_strlit("=");
    reveal_strlit("");
    let q = QueryModel::empty();
    size_word_bounds_size(q, t, n, unit, today, f, path);
    assert(q.of_any_size() == q);
    query::blank_query_accepts_all(f, path);
    let none = Seq::<char>::empty();
    size_word_is_read(q, ">="@, t, today);
    size_word_is_read(q, "<="@, t, today);
    size_word_is_read(q, ">"@, t, today);
    size_word_is_read(q, "<"@, t, today);
    size_word_is_read(q, "="@, t, today);
    size_word_is_read(q, ""@, t, today);
    words_come_in_turn(none, "size:"@ + ">="@ + t, today);
    words_come_in_turn(none, "size:"@ + "<="@ + t, today);
    words_come_in_turn(none, "size:"@ + ">"@ + t, today);
    words_come_in_turn(none, "size:"@ + "<"@ + t, today);
    words_come_in_turn(none, "size:"@ + "="@ + t, today);
    words_come_in_turn(none, "size:"@ + ""@ + t, today);
}

/// What a text begins with it has character by character.
proof fn begins_character_wise(s: Seq<char>, prefix: Seq<char>, i: int)
    requires
        text::begins_with(s, prefix),
        0 <= i < prefix.len(),
    ensures
        s.len() > i,
        s[i] == prefix[i],
{
    assert(s.subrange(0, prefix.len() as int)[i] == prefix[i]);
}

/// The prefixes of date words.
pub open spec fn is_date_prefix(p: Seq<char>) -> bool {
    ||| p == "datemodified:"@
    ||| p == "dm:"@
    ||| p == "datecreated:"@
    ||| p == "dc:"@
    ||| p == "dateaccessed:"@
    ||| p == "da:"@
}

/// Which filter a word writes is told by its first letters.
proof fn prefixes_differ(w: Seq<char>)
    requires
        w.len() > 0,
    ensures
        w[0] != 's' ==> !text::begins_with(w, "size:"@),
        w[0] != 'd' ==> query::date_prefix(w) is None,
        w[0] != 'p' ==> !text::begins_with(w, "path:"@),
        w[0] != 'r' ==> !text::begins_with(w, "regex:"@),
        w[0] != ':' ==> w != ":folders"@ && w != ":folder"@,
{
    reveal_strlit("size:");
    reveal_strlit("path:");
    reveal_strlit("regex:");
    reveal_strlit(":folders");
    reveal_strlit(":folder");
    reveal_strlit("datemodified:");
    reveal_strlit("dm:");
    reveal_strlit("datecreated:");
    reveal_strlit("dc:");
    reveal_strlit("dateaccessed:");
    reveal_strlit("da:");
    if text::begins_with(w, "size:"@) {
        begins_character_wise(w, "size:"@, 0);
    }
    if text::begins_with(w, "path:"@) {
        begins_character_wise(w, "path:"@, 0);
    }
    if text::begins_with(w, "regex:"@) {
        begins_character_wise(w, "regex:"@, 0);
    }
    if text::begins_with(w, "datemodified:"@) {
        begins_character_wise(w, "datemodified:"@, 0);
    }
    if text::begins_with(w, "dm:"@) {
        begins_character_wise(w, "dm:"@, 0);
    }
    if text::begins_with(w, "datecreated:"@) {
        begins_character_wise(w, "datecreated:"@, 0);
    }
    if text::begins_with(w, "dc:"@) {
        begins_character_wise(w, "dc:"@, 0);
    }
    if text::begins_with(w, "dateaccessed:"@) {
        begins_character_wise(w, "dateaccessed:"@, 0);
    }
    if text::begins_with(w, "da:"@) {
        begins_character_wise(w, "da:"@, 0);
    }
}

/// A date word is read by its prefix.
proof fn date_prefix_is_read(p: Seq<char>, rest: Seq<char>)
    requires
        is_date_prefix(p),
    ensures
        query::date_prefix(p + rest) matches Some((_, from)) && from == p.len(),
        !text::begins_with(p + rest, "size:"@),
        (p + rest).skip(p.len() as int) == rest,
{
    reveal_strlit("datemodified:");
    reveal_strlit("dm:");
    reveal_strlit("datecreated:");
    reveal_strlit("dc:");
    reveal_strlit("dateaccessed:");
    reveal_strlit("da:");
    let w = p + rest;
    behind(p, rest);
    assert(w[0] == p[0] && w[1] == p[1] && w[2] == p[2]);
    prefixes_differ(w);
    if text::begins_with(w, "datemodified:"@) {
        begins_character_wise(w, "datemodified:"@, 1);
        begins_character_wise(w, "datemodified:"@, 2);
        begins_character_wise(w, "datemodified:"@, 4);
        if p.len() > 4 {
            assert(w[4] == p[4]);
        }
    }
    if text::begins_with(w, "dm:"@) {
        begins_character_wise(w, "dm:"@, 1);
    }
    if text::begins_with(w, "datecreated:"@) {
        begins_character_wise(w, "datecreated:"@, 1);
        begins_character_wise(w, "datecreated:"@, 2);
        begins_character_wise(w, "datecreated:"@, 4);
        if p.len() > 4 {
            assert(w[4] == p[4]);
        }
    }
    if text::begins_with(w, "dc:"@) {
        begins_character_wise(w, "dc:"@, 1);
    }
    if text::begins_with(w, "dateaccessed:"@) {
        begins_character_wise(w, "dateaccessed:"@, 1);
        begins_character_wise(w, "dateaccessed:"@, 2);
        begins_character_wise(w, "dateaccessed:"@, 4);
        if p.len() > 4 {
            assert(w[4] == p[4]);
        }
    }
    if text::begins_with(w, "da:"@) {
        begins_character_wise(w, "da:"@, 1);
        begins_character_wise(w, "da:"@, 2);
    }
}

/// Whether a date word writes the day `d`, counted from the first of January of the year 1 as day
/// 1: the present day, the day before, or a date in one of three forms.
pub open spec fn writes_day(t: Seq<char>, today: i32, d: int) -> bool {
    if t == "today"@ {
        d == today
    } else if t == "yesterday"@ {
        d == today - 1
    } else {
        let (a, b, c) = (
            outside::parsed_date(t, "%Y%m%d"@),
            outside::parsed_date(t, "%Y-%m-%d"@),
            outside::parsed_date(t, "%Y/%m/%d"@),
        );
        ||| a == Some(d as i32) && d == d as i32
        ||| a is None && b == Some(d as i32) && d == d as i32
        ||| a is None && b is None && c == Some(d as i32) && d == d as i32
    }
}

/// What passes with a bound on the time is what passes without it and is within it.
proof fn time_bound_adds(
    q: QueryModel,
    date: Option<query::DateFilter>,
    f: FileModel,
    path: Seq<char>,
)
    ensures
        (QueryModel { date, ..q }).accepts_entry(f, path) <==> q.of_any_time().accepts_entry(
            f,
            path,
        ) && (date matches Some(b) ==> query::date_passes(b, f.modified_time as i64)),
{
    let (a, b) = (QueryModel { date, ..q }, q.of_any_time());
    assert(a.globs == b.globs && a.keywords == b.keywords && a.keywords_lower == b.keywords_lower);
}

/// What passes with a date word.
proof fn date_word_passes(
    q: QueryModel,
    p: Seq<char>,
    sign: Seq<char>,
    t: Seq<char>,
    today: i32,
    f: FileModel,
    path: Seq<char>,
)
    requires
        is_date_prefix(p),
        is_unbroken(sign),
        is_unbroken(t),
    ensures
        q.with_word(p + sign + t, today).accepts_entry(f, path) <==> q.of_any_time().accepts_entry(
            f,
            path,
        ) && query::date_passes(
            query::date_filter_in(p + sign + t, today)->0,
            f.modified_time as i64,
        ),
        query::date_prefix(p + sign + t) matches Some((_, from)) && text::trimmed(
            (p + sign + t).skip(from),
        ) == sign + t,
{
    let body = sign + t;
    assert(p + sign + t =~= p + body);
    date_prefix_is_read(p, body);
    assert(is_unbroken(body)) by {
        assert forall|i: int| 0 <= i < body.len() implies !text::is_space(#[trigger] body[i]) by {
            if i < sign.len() {
                assert(body[i] == sign[i]);
            } else {
                assert(body[i] == t[i - sign.len()]);
            }
        }
    }
    unbroken_is_trimmed(body);
    time_bound_adds(q, query::date_filter_in(p + body, today), f, path);
}

/// A date word bounds the time of what is found: with `>=` a file passes just where it passes the
/// rest and was last changed on the day or later, with `<=` on the day or before, with `>` after
/// the day, with `<` before it, and with `=` or no sign on the day. Times count from 1970, which
/// begins with day 719163.
pub proof fn date_word_bounds_time(
    q: QueryModel,
    p: Seq<char>,
    t: Seq<char>,
    d: int,
    today: i32,
    f: FileModel,
    path: Seq<char>,
)
    requires
        is_date_prefix(p),
        can_follow_sign(t),
        writes_day(t, today, d),
    ensures
        ({
            let found = |sign: Seq<char>| q.with_word(p + sign + t, today).accepts_entry(f, path);
            let rest = q.of_any_time().accepts_entry(f, path);
            let first = (d - 719163) * 86400;
            let next = (d + 1 - 719163) * 86400;
            let time = f.modified_time as int;
            &&& found(">="@) <==> rest && first <= time
            &&& found("<="@) <==> rest && time < next
            &&& found(">"@) <==> rest && next <= time
            &&& found("<"@) <==> rest && time < first
            &&& found("="@) <==> rest && first <= time < next
            &&& found(""@) <==> rest && first <= time < next
        }),
{
    reveal_strlit(">=");
    reveal_strlit("<=");
    reveal_strlit(">");
    reveal_strlit("<");
    reveal_strlit("=");
    reveal_strlit("");
    assert(query::day_in(t, today) == Some(d));
    signs_are_read(t);
    assert(""@ + t =~= t);
    date_word_passes(q, p, ">="@, t, today, f, path);
    date_word_passes(q, p, "<="@, t, today, f, path);
    date_word_passes(q, p, ">"@, t, today, f, path);
    date_word_passes(q, p, "<"@, t, today, f, path);
    date_word_passes(q, p, "="@, t, today, f, path);
    date_word_passes(q, p, ""@, t, today, f, path);
}

/// A path word asks for a part of the path: a file passes just where it passes the rest and its
/// path holds the part, in lower case or as it was written.
pub proof fn path_word_asks_for_part(
    q: QueryModel,
    part: Seq<char>,
    today: i32,
    f: FileModel,
    path: Seq<char>,
)
    ensures
        q.with_word("path:"@ + part, today).accepts_entry(f, path) <==> q.of_any_path().accepts_entry(
            f,
            path,
        ) && (text::has_part(outside::lowercased(path), outside::lowercased(part))
            || text::has_part(path, part)),
{
    reveal_strlit("path:");
    let w = "path:"@ + part;
    behind("path:"@, part);
    assert(w[0] == 'p');
    prefixes_differ(w);
    let (a, b) = (q.with_word(w, today), q.of_any_path());
    assert(a.globs == b.globs && a.keywords == b.keywords && a.keywords_lower == b.keywords_lower);
}

/// The words `:folder` and `:folders` ask for directories.
pub proof fn folder_word_asks_for_directories(
    q: QueryModel,
    w: Seq<char>,
    today: i32,
    f: FileModel,
    path: Seq<char>,
)
    requires
        w == ":folder"@ || w == ":folders"@,
    ensures
        q.with_word(w, today).accepts_entry(f, path) <==> q.accepts_entry(f, path)
            && f.is_directory,
{
    reveal_strlit(":folder");
    reveal_strlit(":folders");
    prefixes_differ(w);
    let a = q.with_word(w, today);
    assert(a.globs == q.globs && a.keywords == q.keywords && a.keywords_lower == q.keywords_lower);
}

/// A regular expression is sought in names: a file passes just where it passes the rest and the
/// expression matches its name. One that is none changes nothing.
pub proof fn regex_word_asks_for_form(
    q: QueryModel,
    expression: Seq<char>,
    today: i32,
    f: FileModel,
    path: Seq<char>,
)
    ensures
        ({
            let found = q.with_word("regex:"@ + expression, today).accepts_entry(f, path);
            if outside::regex_compiles(expression) {
                found <==> q.of_any_form().accepts_entry(f, path) && outside::regex_matches(
                    expression,
                    f.name,
                )
            } else {
                found <==> q.accepts_entry(f, path)
            }
        }),
{
    reveal_strlit("regex:");
    let w = "regex:"@ + expression;
    behind("regex:"@, expression);
    assert(w[0] == 'r');
    prefixes_differ(w);
    let (a, b) = (q.with_word(w, today), q.of_any_form());
    assert(a.globs == b.globs && a.keywords == b.keywords && a.keywords_lower == b.keywords_lower);
}

/// A word with characters of patterns that is a pattern is held against names: a file passes just
/// where it passes the rest and its name matches the pattern.
pub proof fn pattern_word_asks_for_match(
    q: QueryModel,
    w: Seq<char>,
    today: i32,
    f: FileModel,
    path: Seq<char>,
)
    requires
        w.contains('*') || w.contains('?') || w.contains('[') || w.contains(']'),
        w[0] != 's' && w[0] != 'd' && w[0] != 'p' && w[0] != 'r' && w[0] != ':',
        outside::glob_compiles(globs::portable(w)),
    ensures
        q.with_word(w, today).accepts_entry(f, path) <==> q.accepts_entry(f, path)
            && outside::glob_matches(globs::portable(w), globs::slashed(f.name)),
{
    prefixes_differ(w);
    let c = if w.contains('*') {
        '*'
    } else if w.contains('?') {
        '?'
    } else if w.contains('[') {
        '['
    } else {
        ']'
    };
    let i = choose|i: int| 0 <= i < w.len() && w[i] == c;
    assert(w[i] == c);
    assert(query::has_glob_char(w));
    let a = q.with_word(w, today);
    assert(a.keywords == q.keywords && a.keywords_lower == q.keywords_lower);
    assert(a.globs == q.globs.push(globs::portable(w)));
    if a.accepts_entry(f, path) {
        assert forall|k: int| 0 <= k < q.globs.len() implies outside::glob_matches(
            #[trigger] q.globs[k],
            globs::slashed(f.name),
        ) by {
            assert(a.globs[k] == q.globs[k]);
        }
        assert(a.globs[q.globs.len() as int] == globs::portable(w));
    }
    if q.accepts_entry(f, path) && outside::glob_matches(
        globs::portable(w),
        globs::slashed(f.name),
    ) {
        assert forall|k: int| 0 <= k < a.globs.len() implies outside::glob_matches(
            #[trigger] a.globs[k],
            globs::slashed(f.name),
        ) by {
            if k < q.globs.len() {
                assert(a.globs[k] == q.globs[k]);
            }
        }
    }
}

/// A word that begins no filter and holds no sign of patterns asks for names that hold it, in
/// letters of either case.
pub proof fn plain_word_asks_for_part(
    q: QueryModel,
    w: Seq<char>,
    today: i32,
    f: FileModel,
    path: Seq<char>,
)
    requires
        w.len() > 0,
        !w.contains('*') && !w.contains('?') && !w.contains('[') && !w.contains(']'),
        w[0] != 's' && w[0] != 'd' && w[0] != 'p' && w[0] != 'r' && w[0] != ':',
        q.keywords.len() == q.keywords_lower.len(),
    ensures
        q.with_word(w, today).accepts_entry(f, path) <==> q.accepts_entry(f, path) && (
        text::has_part(outside::lowercased(f.name), outside::lowercased(w)) || text::has_part(
            f.name,
            w,
        )),
{
    prefixes_differ(w);
    if query::has_glob_char(w) {
        let i = choose|i: int|
            0 <= i < w.len() && (#[trigger] w[i] == '*' || w[i] == '?' || w[i] == '[' || w[i]
                == ']');
        assert(w.contains(w[i]));
    }
    query::keyword_narrows(q, w, today, f, path);
}

/// A size without a number bounds nothing: where something stands before the unit that is no digit,
/// or nothing does, no number of bytes is read.
pub proof fn size_without_number_is_none(body: Seq<char>, unit: Seq<char>)
    requires
        unit_bytes(unit) > 0,
        body.len() == 0 || {
            &&& body[0] != '+'
            &&& body.last() != 'B' && body.last() != 'K' && body.last() != 'M' && body.last() != 'G'
            &&& exists|i: int| 0 <= i < body.len() && !('0' <= #[trigger] body[i] <= '9')
        },
    ensures
        query::bytes_in(body + unit) is None,
{
    reveal_strlit("");
    reveal_strlit("B");
    reveal_strlit("KB");
    reveal_strlit("MB");
    reveal_strlit("GB");
    let s = body + unit;
    let k = s.len() as int;
    assert(text::number_in(body) is None) by {
        if body.len() > 0 {
            let i = choose|i: int| 0 <= i < body.len() && !('0' <= #[trigger] body[i] <= '9');
            assert(!text::is_digit(body[i]));
        }
    }
    assert(k >= 2 ==> s.subrange(k - 2, k)[0] == s[k - 2] && s.subrange(k - 2, k)[1] == s[k - 1]);
    assert(k >= 1 ==> s.subrange(k - 1, k)[0] == s[k - 1]);
    if unit == ""@ {
        assert(s =~= body);
    } else if unit == "B"@ {
        assert(s.take(k - 1) =~= body);
        assert(s.subrange(k - 1, k) =~= "B"@);
        if body.len() > 0 {
            assert(s[k - 2] == body[body.len() - 1]);
        }
    } else {
        assert(s.take(k - 2) =~= body);
        assert(s.subrange(k - 2, k) =~= unit);
        assert(s[k - 2] == unit[0]);
    }
}

/// A size over what can be counted is taken for the largest.
pub proof fn huge_size_is_largest(n: u64, unit: Seq<char>)
    requires
        unit_bytes(unit) > 1,
        n * unit_bytes(unit) > u64::MAX,
    ensures
        query::bytes_in(text::decimal(n as nat) + unit) == Some(u64::MAX),
{
    reveal_strlit("");
    reveal_strlit("B");
    reveal_strlit("KB");
    reveal_strlit("MB");
    reveal_strlit("GB");
    let d = text::decimal(n as nat);
    let s = d + unit;
    let k = s.len() as int;
    text::decimal_reads_back(n as nat);
    assert(s.subrange(k - 2, k)[0] == s[k - 2] && s.subrange(k - 2, k)[1] == s[k - 1]);
    assert(s.take(k - 2) =~= d);
    assert(s.subrange(k - 2, k) =~= unit);
    assert(s[k - 2] == unit[0]);
}

} // verus!
