//! What a reader of exported results gets back.

use crate::export;
use crate::search;
use crate::search::ResultModel;
use crate::text;
use crate::told_changes;
use crate::told_changes::put_together;
use vstd::prelude::*;

verus! {

/// Whether a reader stands within quotes behind `s`, where it stood so before it or not: a quote
/// opens or closes. Nothing where it meets the separator `c` outside of quotes.
pub open spec fn state_behind(s: Seq<char>, c: char, quoted: bool) -> Option<bool>
    decreases s.len(),
{
    if s.len() == 0 {
        Some(quoted)
    } else {
        match state_behind(s.drop_last(), c, quoted) {
            Some(q) => if s.last() == '"' {
                Some(!q)
            } else if s.last() == c && !q {
                None
            } else {
                Some(q)
            },
            None => None,
        }
    }
}

/// Whether `s` holds no separator outside of quotes, and no open quote.
pub open spec fn is_one_piece(s: Seq<char>, c: char) -> bool {
    state_behind(s, c, false) == Some(false)
}

/// Whether `pieces` are what stands between the separators of `s` that are outside of quotes.
pub open spec fn has_pieces(s: Seq<char>, c: char, pieces: Seq<Seq<char>>) -> bool {
    &&& pieces.len() > 0
    &&& s == put_together(pieces, c)
    &&& forall|i: int| 0 <= i < pieces.len() ==> is_one_piece(#[trigger] pieces[i], c)
}

/// Reading on behind a text goes on from where the text leaves off.
proof fn state_goes_on(a: Seq<char>, b: Seq<char>, c: char, quoted: bool)
    ensures
        state_behind(a + b, c, quoted) == (match state_behind(a, c, quoted) {
            Some(q) => state_behind(b, c, q),
            None => None,
        }),
    decreases b.len(),
{
    if b.len() == 0 {
        assert(a + b =~= a);
    } else {
        state_goes_on(a, b.drop_last(), c, quoted);
        assert((a + b).drop_last() =~= a + b.drop_last());
        assert((a + b).last() == b.last());
    }
}

/// A separator ends a piece, so that a text has its pieces in one way only.
pub proof fn pieces_unique(s: Seq<char>, c: char, a: Seq<Seq<char>>, b: Seq<Seq<char>>)
    requires
        c != '"',
        has_pieces(s, c, a),
        has_pieces(s, c, b),
    ensures
        a == b,
    decreases a.len(),
{
    let (x, y) = (a[0], b[0]);
    first_apart(a, c);
    first_apart(b, c);
    if a.len() == 1 {
        if b.len() > 1 {
            let rest = put_together(b.drop_first(), c);
            state_goes_on(y.push(c), rest, c, false);
            ends_at_separator(y, c);
            assert(s =~= y.push(c) + rest);
        } else {
            assert(a =~= b);
        }
    } else {
        let rest = put_together(a.drop_first(), c);
        state_goes_on(x.push(c), rest, c, false);
        ends_at_separator(x, c);
        if b.len() == 1 {
            assert(s == y);
            assert(s =~= x.push(c) + rest);
        } else {
            let other = put_together(b.drop_first(), c);
            ends_at_separator(y, c);
            if x.len() < y.len() {
                assert(s == x.push(c) + rest && s == y.push(c) + other);
                let more = y.skip(x.len() + 1 as int);
                assert(y =~= x.push(c) + more) by {
                    assert forall|i: int| 0 <= i < y.len() implies y[i] == (x.push(c) + more)[i] by {
                        assert(s[i] == (y.push(c) + other)[i]);
                        assert(s[i] == (x.push(c) + rest)[i]);
                    }
                }
                state_goes_on(x.push(c), more, c, false);
            } else if y.len() < x.len() {
                assert(s == x.push(c) + rest && s == y.push(c) + other);
                let more = x.skip(y.len() + 1 as int);
                assert(x =~= y.push(c) + more) by {
                    assert forall|i: int| 0 <= i < x.len() implies x[i] == (y.push(c) + more)[i] by {
                        assert(s[i] == (y.push(c) + other)[i]);
                        assert(s[i] == (x.push(c) + rest)[i]);
                    }
                }
                state_goes_on(y.push(c), more, c, false);
            } else {
                assert(x =~= y) by {
                    assert forall|i: int| 0 <= i < x.len() implies x[i] == y[i] by {
                        assert(s[i] == (y.push(c) + other)[i]);
                        assert(s[i] == (x.push(c) + rest)[i]);
                    }
                }
                assert(rest =~= s.skip(x.len() + 1 as int));
                assert(other =~= s.skip(x.len() + 1 as int));
                let (ra, rb) = (a.drop_first(), b.drop_first());
                assert forall|i: int| 0 <= i < ra.len() implies is_one_piece(
                    #[trigger] ra[i],
                    c,
                ) by {
                    assert(ra[i] == a[i + 1]);
                }
                assert forall|i: int| 0 <= i < rb.len() implies is_one_piece(
                    #[trigger] rb[i],
                    c,
                ) by {
                    assert(rb[i] == b[i + 1]);
                }
                pieces_unique(rest, c, ra, rb);
                assert(a =~= seq![x] + ra);
                assert(b =~= seq![y] + rb);
            }
        }
    }
}

/// The first piece, a separator and the others make up the text.
proof fn first_apart(pieces: Seq<Seq<char>>, c: char)
    requires
        pieces.len() > 0,
    ensures
        pieces.len() == 1 ==> put_together(pieces, c) == pieces[0],
        pieces.len() > 1 ==> put_together(pieces, c) == pieces[0].push(c) + put_together(
            pieces.drop_first(),
            c,
        ),
    decreases pieces.len(),
{
    if pieces.len() > 1 {
        let init = pieces.drop_last();
        first_apart(init, c);
        let rest = pieces.drop_first();
        if pieces.len() == 2 {
            assert(rest.len() == 1);
            assert(put_together(pieces, c) =~= pieces[0].push(c) + put_together(rest, c));
        } else {
            assert(init.drop_first() =~= rest.drop_last());
            assert(rest.last() == pieces.last());
            assert(put_together(pieces, c) =~= pieces[0].push(c) + put_together(rest, c));
        }
    }
}

/// A separator behind a piece ends it.
proof fn ends_at_separator(s: Seq<char>, c: char)
    requires
        is_one_piece(s, c),
        c != '"',
    ensures
        state_behind(s.push(c), c, false) is None,
{
    assert(s.push(c).drop_last() =~= s);
}

/// What holds neither quotes nor separators is one piece.
proof fn plain_is_one_piece(s: Seq<char>, c: char)
    requires
        !s.contains('"'),
        !s.contains(c),
    ensures
        is_one_piece(s, c),
    decreases s.len(),
{
    if s.len() > 0 {
        let init = s.drop_last();
        assert(s[s.len() - 1] == s.last());
        assert forall|x: char| init.contains(x) implies s.contains(x) by {
            let k = choose|k: int| 0 <= k < init.len() && init[k] == x;
            assert(s[k] == x);
        }
        plain_is_one_piece(init, c);
    }
}

/// Doubled quotes leave a reader within quotes.
proof fn doubled_stays_quoted(s: Seq<char>, c: char)
    requires
        c != '"',
    ensures
        state_behind(export::doubled(s), c, true) == Some(true),
    decreases s.len(),
{
    if s.len() > 0 {
        let init = export::doubled(s.drop_last());
        doubled_stays_quoted(s.drop_last(), c);
        if s.last() == '"' {
            let two = seq!['"', '"'];
            state_goes_on(init, two, c, true);
            assert(two.drop_last() =~= seq!['"']);
            assert(seq!['"'].drop_last() =~= seq![]);
            reveal_with_fuel(state_behind, 3);
        } else {
            assert(init.push(s.last()).drop_last() =~= init);
        }
    }
}

/// A field is one piece, whatever it holds.
proof fn field_is_one_piece(s: Seq<char>, c: char)
    requires
        c == ',' || c == '\n',
    ensures
        is_one_piece(export::csv_field(s), c),
{
    if export::needs_quotes(s) {
        let (q, d) = (seq!['"'], export::doubled(s));
        doubled_stays_quoted(s, c);
        assert(q.drop_last() =~= seq![]);
        reveal_with_fuel(state_behind, 2);
        state_goes_on(q, d, c, false);
        state_goes_on(q + d, q, c, false);
        assert(export::csv_field(s) =~= q + d + q);
    } else {
        plain_is_one_piece(s, c);
    }
}

/// What holds digits only needs no quotes.
proof fn digits_are_plain(n: nat)
    ensures
        !text::decimal(n).contains('"'),
        !text::decimal(n).contains(','),
        !text::decimal(n).contains('\n'),
        !text::decimal(n).contains('\t'),
{
    text::decimal_reads_back(n);
    let d = text::decimal(n);
    assert forall|c: char| d.contains(c) implies text::is_digit(c) by {
        let k = choose|k: int| 0 <= k < d.len() && d[k] == c;
        assert(text::is_digit(d[k]));
    }
}

/// What the kind of a file is written as holds no quotes and no separators.
proof fn kinds_are_plain(b: bool)
    ensures
        ({
            let t = export::bool_text(b);
            !t.contains('"') && !t.contains(',') && !t.contains('\n') && !t.contains('\t')
        }),
{
    reveal_strlit("true");
    reveal_strlit("false");
}

/// Pieces that hold no separator of another kind make up a text that holds none.
proof fn together_is_one_piece(pieces: Seq<Seq<char>>, c: char, other: char)
    requires
        pieces.len() > 0,
        c != other,
        c != '"',
        forall|i: int| 0 <= i < pieces.len() ==> is_one_piece(#[trigger] pieces[i], other),
    ensures
        is_one_piece(put_together(pieces, c), other),
    decreases pieces.len(),
{
    assert(is_one_piece(pieces[pieces.len() - 1], other));
    if pieces.len() > 1 {
        let init = pieces.drop_last();
        assert forall|i: int| 0 <= i < init.len() implies is_one_piece(
            #[trigger] init[i],
            other,
        ) by {
            assert(init[i] == pieces[i]);
        }
        together_is_one_piece(init, c, other);
        let before = put_together(init, c);
        assert(before.push(c).drop_last() =~= before);
        state_goes_on(before.push(c), pieces.last(), other, false);
    }
}

/// Five pieces with separators between them.
proof fn five_together(p: Seq<Seq<char>>, c: char)
    requires
        p.len() == 5,
    ensures
        put_together(p, c) == p[0] + seq![c] + p[1] + seq![c] + p[2] + seq![c] + p[3] + seq![c]
            + p[4],
{
    let four = p.drop_last();
    let three = four.drop_last();
    let two = three.drop_last();
    assert(two.drop_last() =~= seq![p[0]]);
    assert(put_together(two.drop_last(), c) == p[0]);
    assert(put_together(two, c) =~= p[0] + seq![c] + p[1]);
    assert(put_together(three, c) =~= p[0] + seq![c] + p[1] + seq![c] + p[2]);
    assert(put_together(four, c) =~= p[0] + seq![c] + p[1] + seq![c] + p[2] + seq![c] + p[3]);
    assert(put_together(p, c) =~= p[0] + seq![c] + p[1] + seq![c] + p[2] + seq![c] + p[3] + seq![c]
        + p[4]);
}

/// The fields of a result: its name, its path, its size in bytes, its time and whether it is a
/// directory.
pub open spec fn fields_of(f: ResultModel) -> Seq<Seq<char>> {
    seq![
        f.name,
        f.path,
        text::decimal(f.size as nat),
        search::time_text(f.modified_time),
        if f.is_directory {
            "true"@
        } else {
            "false"@
        },
    ]
}

/// A line of CSV has five fields, from which a reader gets back the name, the path, the size in
/// bytes, the time and the kind of the file, whatever they hold; and it is one line.
pub proof fn csv_line_reads_back(f: ResultModel) -> (cells: Seq<Seq<char>>)
    ensures
        has_pieces(export::csv_line_of(f), ',', cells),
        cells.len() == 5,
        forall|i: int|
            0 <= i < 5 ==> export::field_read(#[trigger] cells[i]) == fields_of(f)[i],
        is_one_piece(export::csv_line_of(f), '\n'),
{
    let time = search::time_text(f.modified_time);
    let size = text::decimal(f.size as nat);
    let kind = export::bool_text(f.is_directory);
    let cells = seq![
        export::csv_field(f.name),
        export::csv_field(f.path),
        size,
        export::csv_field(time),
        kind,
    ];
    digits_are_plain(f.size as nat);
    kinds_are_plain(f.is_directory);
    assert(export::csv_field(size) == size && export::csv_field(kind) == kind);
    five_together(cells, ',');
    assert(export::csv_line_of(f) =~= put_together(cells, ','));
    field_is_one_piece(f.name, ',');
    field_is_one_piece(f.path, ',');
    field_is_one_piece(size, ',');
    field_is_one_piece(time, ',');
    field_is_one_piece(kind, ',');
    export::csv_reads_back(f.name);
    export::csv_reads_back(f.path);
    export::csv_reads_back(size);
    export::csv_reads_back(time);
    export::csv_reads_back(kind);
    field_is_one_piece(f.name, '\n');
    field_is_one_piece(f.path, '\n');
    field_is_one_piece(size, '\n');
    field_is_one_piece(time, '\n');
    field_is_one_piece(kind, '\n');
    together_is_one_piece(cells, ',', '\n');
    cells
}

/// Results as CSV are lines: one with the names of the five fields, one for each result in turn,
/// and an empty one behind the last.
pub proof fn csv_has_lines(results: Seq<ResultModel>)
    ensures
        has_pieces(
            export::csv_of(results),
            '\n',
            seq!["Name,Path,Size,Modified,IsDirectory"@] + results.map_values(
                |f: ResultModel| export::csv_line_of(f),
            ) + seq![Seq::<char>::empty()],
        ),
    decreases results.len(),
{
    reveal_strlit("Name,Path,Size,Modified,IsDirectory");
    reveal_strlit("Name,Path,Size,Modified,IsDirectory\n");
    let head = "Name,Path,Size,Modified,IsDirectory"@;
    let none = Seq::<char>::empty();
    let lines = results.map_values(|f: ResultModel| export::csv_line_of(f));
    let all = seq![head] + lines + seq![none];
    plain_is_one_piece(head, '\n');
    plain_is_one_piece(none, '\n');
    if results.len() == 0 {
        assert(all.drop_last() =~= seq![head]);
        assert(put_together(all, '\n') =~= "Name,Path,Size,Modified,IsDirectory\n"@) by {
            reveal_with_fuel(put_together, 3);
        }
    } else {
        let init = results.drop_last();
        csv_has_lines(init);
        let before = seq![head] + init.map_values(|f: ResultModel| export::csv_line_of(f)) + seq![
            none,
        ];
        let line = export::csv_line_of(results.last());
        let most = before.drop_last();
        assert(before.last() == none);
        assert(export::csv_of(init) =~= put_together(most, '\n').push('\n'));
        assert(all.drop_last() =~= most.push(line));
        assert(most.push(line).drop_last() =~= most);
        assert(put_together(most.push(line), '\n') == put_together(most, '\n').push('\n') + line);
        assert(put_together(all, '\n') =~= export::csv_of(results));
    }
    assert forall|i: int| 0 <= i < all.len() implies is_one_piece(#[trigger] all[i], '\n') by {
        if 0 < i < all.len() - 1 {
            let cells = csv_line_reads_back(results[i - 1]);
        }
    }
}

/// A line of tab-separated text has five parts: the name, the path, the size as it is shown, the
/// time and the kind, where name, path and time hold no tabs.
pub proof fn txt_line_reads_back(f: ResultModel)
    requires
        !f.name.contains('\t'),
        !f.path.contains('\t'),
        !search::time_text(f.modified_time).contains('\t'),
    ensures
        text::parts(export::txt_line_of(f), '\t') == seq![
            f.name,
            f.path,
            search::size_text(f.size),
            search::time_text(f.modified_time),
            if f.is_directory {
                "true"@
            } else {
                "false"@
            },
        ],
{
    let cells = seq![
        f.name,
        f.path,
        search::size_text(f.size),
        search::time_text(f.modified_time),
        export::bool_text(f.is_directory),
    ];
    kinds_are_plain(f.is_directory);
    size_has_no_tab(f.size);
    assert forall|i: int| 0 <= i < cells.len() implies !(#[trigger] cells[i]).contains('\t') by {}
    told_changes::text_has_its_parts(cells, '\t');
    five_together(cells, '\t');
    assert(export::txt_line_of(f) =~= put_together(cells, '\t'));
}

proof fn size_has_no_tab(size: u64)
    ensures
        !search::size_text(size).contains('\t'),
{
    reveal_strlit(" GB");
    reveal_strlit(" MB");
    reveal_strlit(" KB");
    reveal_strlit(" B");
    let unit = search::unit_of(size);
    let t = search::size_text(size);
    digits_are_plain(size as nat);
    if t.contains('\t') {
        let k = choose|k: int| 0 <= k < t.len() && t[k] == '\t';
        if unit.0 == 1 {
            let d = text::decimal(size as nat);
            if k < d.len() {
                assert(d[k] == '\t');
            } else {
                assert(t[k] == unit.1[k - d.len()]);
            }
        } else {
            let tenths = search::nearest_quotient(
                10 * search::nearest_double(size as nat),
                unit.0,
            );
            let d = text::decimal(tenths / 10);
            digits_are_plain(tenths / 10);
            if k < d.len() {
                assert(d[k] == '\t');
            } else if k >= d.len() + 2 {
                assert(t[k] == unit.1[k - d.len() - 2]);
            } else {
                assert(t[k] == seq!['.', text::digit_of(tenths % 10)][k - d.len()]);
                assert(t[k] != '\t');
            }
        }
    }
}

/// Results as text are one line after the other, each with its end.
pub proof fn txt_lines_come_in_turn(results: Seq<ResultModel>, f: ResultModel)
    ensures
        export::txt_of(Seq::empty()) == Seq::<char>::empty(),
        export::txt_of(results.push(f)) == (export::txt_of(results) + export::txt_line_of(f)).push(
            '\n',
        ),
{
    assert(results.push(f).drop_last() =~= results);
    assert(export::txt_of(results.push(f)) =~= (export::txt_of(results) + export::txt_line_of(
        f,
    )).push('\n'));
}

} // verus!
