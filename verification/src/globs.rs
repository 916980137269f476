//! Glob patterns. A backslash in a pattern or in a name is the same as a slash, as it is
//! to the system that the volumes belong to. Only where a backslash is an end of a range of
//! characters it stands for itself.

use crate::outside;
use crate::text::{chars_of, string_from};
use glob::Pattern;
use vstd::prelude::*;

verus! {

broadcast use vstd::string::group_string_axioms;

/// The text with slashes in place of its backslashes.
pub open spec fn slashed(s: Seq<char>) -> Seq<char> {
    s.map_values(
        |c: char|
            if c == '\\' {
                '/'
            } else {
                c
            },
    )
}

/// The text with slashes in place of its backslashes.
pub fn with_slashes(s: &str) -> (r: String)
    ensures
        r@ == slashed(s@),
        !r@.contains('\\'),
{
    let mut chars = chars_of(s);
    let mut i: usize = 0;
    while i < chars.len()
        invariant
            i <= chars@.len(),
            chars@.len() == s@.len(),
            forall|k: int| 0 <= k < i ==> #[trigger] chars@[k] == slashed(s@)[k],
            forall|k: int| i <= k < chars@.len() ==> #[trigger] chars@[k] == s@[k],
        decreases chars@.len() - i,
    {
        if chars[i] == '\\' {
            chars[i] = '/';
        }
        i += 1;
    }
    let r = string_from(&chars, 0, chars.len());
    assert(r@ =~= slashed(s@));
    r
}

/// A slash in place of a backslash.
pub open spec fn slash(c: char) -> char {
    if c == '\\' {
        '/'
    } else {
        c
    }
}

/// The first place from `from` on at which a bracket closes.
pub open spec fn next_close(s: Seq<char>, from: int) -> Option<int>
    decreases s.len() - from,
{
    if from >= s.len() {
        None
    } else if s[from] == ']' {
        Some(from)
    } else {
        next_close(s, from + 1)
    }
}

/// Where the characters in the brackets that open at `i` begin: behind an exclamation mark,
/// where there is one.
pub open spec fn members_at(s: Seq<char>, i: int) -> int {
    if i + 1 < s.len() && s[i + 1] == '!' {
        i + 2
    } else {
        i + 1
    }
}

/// The characters from `a` to `b` in brackets, with slashes in place of their backslashes
/// but for the ends of ranges.
pub open spec fn members(s: Seq<char>, a: int, b: int) -> Seq<char>
    decreases b - a,
{
    if a >= b {
        seq![]
    } else if a + 3 <= b && s[a + 1] == '-' {
        seq![s[a], s[a + 1], s[a + 2]] + members(s, a + 3, b)
    } else {
        seq![slash(s[a])] + members(s, a + 1, b)
    }
}

/// The pattern from `i` on, with slashes in place of its backslashes but for the ends of
/// ranges. The first character in brackets does not close them.
pub open spec fn portable_from(s: Seq<char>, i: int) -> Seq<char>
    decreases s.len() - i,
{
    if i < 0 || i >= s.len() {
        seq![]
    } else {
        let m = members_at(s, i);
        match next_close(s, m + 1) {
            Some(j) => if s[i] == '[' && m < j < s.len() {
                s.subrange(i, m) + members(s, m, j) + seq![']'] + portable_from(s, j + 1)
            } else {
                seq![slash(s[i])] + portable_from(s, i + 1)
            },
            None => seq![slash(s[i])] + portable_from(s, i + 1),
        }
    }
}

/// The pattern with slashes in place of its backslashes but for the ends of ranges.
pub open spec fn portable(s: Seq<char>) -> Seq<char> {
    portable_from(s, 0)
}

/// Whether a pattern has no backslash but at the end of a range.
pub open spec fn is_portable(pattern: Seq<char>) -> bool {
    exists|word: Seq<char>| pattern == #[trigger] portable(word)
}

/// The first place from `from` on at which a bracket closes.
fn find_close(s: &Vec<char>, from: usize) -> (r: Option<usize>)
    ensures
        match r {
            Some(j) => next_close(s@, from as int) == Some(j as int) && from <= j < s.len(),
            None => next_close(s@, from as int) is None,
        },
{
    let mut j: usize = from;
    while j < s.len()
        invariant
            from <= j,
            from < s.len() ==> j <= s.len(),
            next_close(s@, j as int) == next_close(s@, from as int),
        decreases s.len() - j,
    {
        if s[j] == ']' {
            return Some(j);
        }
        j += 1;
    }
    None
}

/// Adds the characters from `a` to `b` in brackets.
fn push_members(r: &mut Vec<char>, s: &Vec<char>, a: usize, b: usize)
    requires
        a <= b <= s.len(),
    ensures
        final(r)@ == old(r)@ + members(s@, a as int, b as int),
{
    let mut k: usize = a;
    while k < b
        invariant
            a <= k <= b <= s.len(),
            r@ + members(s@, k as int, b as int) =~= old(r)@ + members(s@, a as int, b as int),
        decreases b - k,
    {
        if b - k >= 3 && s[k + 1] == '-' {
            r.push(s[k]);
            r.push(s[k + 1]);
            r.push(s[k + 2]);
            k += 3;
        } else {
            r.push(
                if s[k] == '\\' {
                    '/'
                } else {
                    s[k]
                },
            );
            k += 1;
        }
    }
    assert(r@ =~= old(r)@ + members(s@, a as int, b as int));
}

/// The pattern with slashes in place of its backslashes but for the ends of ranges.
pub fn make_portable(word: &str) -> (r: String)
    ensures
        r@ == portable(word@),
{
    let s = chars_of(word);
    let ghost whole = portable(s@);
    let mut r: Vec<char> = Vec::new();
    let mut i: usize = 0;
    assert(r@ + whole =~= whole);
    while i < s.len()
        invariant
            i <= s.len(),
            s@ == word@,
            whole == portable(s@),
            r@ + portable_from(s@, i as int) == whole,
        decreases s.len() - i,
    {
        let ghost before = r@;
        let ghost rest = portable_from(s@, i as int);
        let m: usize = if s.len() - i > 1 && s[i + 1] == '!' {
            i + 2
        } else {
            i + 1
        };
        let close: Option<usize> = if s[i] == '[' && m < s.len() {
            find_close(&s, m + 1)
        } else {
            None
        };
        match close {
            Some(j) => {
                r.push(s[i]);
                if m == i + 2 {
                    r.push(s[i + 1]);
                }
                assert(r@ =~= before + s@.subrange(i as int, m as int));
                push_members(&mut r, &s, m, j);
                r.push(']');
                assert(r@ + portable_from(s@, j + 1) =~= before + rest);
                i = j + 1;
            },
            None => {
                r.push(
                    if s[i] == '\\' {
                        '/'
                    } else {
                        s[i]
                    },
                );
                assert(r@ + portable_from(s@, i + 1) =~= before + rest);
                i += 1;
            },
        }
    }
    assert(r@ =~= whole);
    let text = string_from(&r, 0, r.len());
    assert(text@ =~= whole);
    text
}

/// A compiled glob pattern.
pub struct Glob {
    text: String,
    pattern: Pattern,
}

impl View for Glob {
    type V = Seq<char>;

    closed spec fn view(&self) -> Seq<char> {
        self.text@
    }
}

impl Glob {
    /// Whether the pattern is that of the text, which has no backslash but at the end of a
    /// range.
    #[verifier::type_invariant]
    spec fn is_of_text(self) -> bool {
        outside::pattern_text(self.pattern) == self.text@ && is_portable(self.text@)
    }

    /// The pattern that a word writes, where it writes one.
    pub fn new(word: &str) -> (r: Option<Self>)
        ensures
            match r {
                Some(g) => outside::glob_compiles(portable(word@)) && g@ == portable(word@),
                None => !outside::glob_compiles(portable(word@)),
            },
    {
        let text = make_portable(word);
        match outside::glob_new(text.as_str()) {
            Ok(pattern) => Some(Glob { text, pattern }),
            Err(_) => None,
        }
    }

    /// Whether the pattern matches a name as a whole.
    pub fn matches(&self, name: &str) -> (r: bool)
        ensures
            r == outside::glob_matches(self@, slashed(name@)),
    {
        proof {
            use_type_invariant(self);
        }
        let name = with_slashes(name);
        outside::glob_matches_path(&self.pattern, name.as_str())
    }
}

/// A pattern keeps its characters, but that a slash may stand in place of a backslash.
pub proof fn pattern_keeps_characters(s: Seq<char>)
    ensures
        portable(s).len() == s.len(),
        forall|i: int|
            0 <= i < s.len() ==> #[trigger] portable(s)[i] == s[i] || (s[i] == '\\' && portable(s)[i]
                == '/'),
{
    portable_keeps(s, 0);
}

/// Where a bracket closes.
proof fn close_stands(s: Seq<char>, from: int)
    requires
        0 <= from,
    ensures
        next_close(s, from) matches Some(j) ==> from <= j < s.len() && s[j] == ']',
    decreases s.len() - from,
{
    if from < s.len() && s[from] != ']' {
        close_stands(s, from + 1);
    }
}

proof fn members_keep(s: Seq<char>, a: int, b: int)
    requires
        0 <= a <= b <= s.len(),
    ensures
        members(s, a, b).len() == b - a,
        forall|i: int|
            0 <= i < b - a ==> #[trigger] members(s, a, b)[i] == s[a + i] || (s[a + i] == '\\'
                && members(s, a, b)[i] == '/'),
        !s.contains('-') ==> members(s, a, b) == slashed(s.subrange(a, b)),
    decreases b - a,
{
    if a < b {
        if a + 3 <= b && s[a + 1] == '-' {
            members_keep(s, a + 3, b);
            assert(s.contains('-'));
            let rest = members(s, a + 3, b);
            assert forall|i: int| 0 <= i < b - a implies #[trigger] members(s, a, b)[i] == s[a + i]
                || (s[a + i] == '\\' && members(s, a, b)[i] == '/') by {
                if i >= 3 {
                    assert(members(s, a, b)[i] == rest[i - 3]);
                }
            }
        } else {
            members_keep(s, a + 1, b);
            let rest = members(s, a + 1, b);
            assert forall|i: int| 0 <= i < b - a implies #[trigger] members(s, a, b)[i] == s[a + i]
                || (s[a + i] == '\\' && members(s, a, b)[i] == '/') by {
                if i >= 1 {
                    assert(members(s, a, b)[i] == rest[i - 1]);
                }
            }
            if !s.contains('-') {
                assert(s.subrange(a, b) =~= seq![s[a]] + s.subrange(a + 1, b));
                assert(members(s, a, b) =~= slashed(s.subrange(a, b)));
            }
        }
    } else {
        assert(members(s, a, b) =~= slashed(s.subrange(a, b)));
    }
}

proof fn portable_keeps(s: Seq<char>, i: int)
    requires
        0 <= i <= s.len(),
    ensures
        portable_from(s, i).len() == s.len() - i,
        forall|k: int|
            0 <= k < s.len() - i ==> #[trigger] portable_from(s, i)[k] == s[i + k] || (s[i + k]
                == '\\' && portable_from(s, i)[k] == '/'),
        !s.contains('-') ==> portable_from(s, i) == slashed(s.skip(i)),
    decreases s.len() - i,
{
    let all = portable_from(s, i);
    if i < s.len() {
        let m = members_at(s, i);
        close_stands(s, m + 1);
        if s[i] == '[' && next_close(s, m + 1) is Some {
            let j = next_close(s, m + 1)->0;
            let (inner, rest) = (members(s, m, j), portable_from(s, j + 1));
            members_keep(s, m, j);
            portable_keeps(s, j + 1);
            assert(all == s.subrange(i, m) + inner + seq![']'] + rest);
            assert forall|k: int| 0 <= k < s.len() - i implies #[trigger] all[k] == s[i + k] || (s[i
                + k] == '\\' && all[k] == '/') by {
                if k < m - i {
                } else if k < j - i {
                    assert(all[k] == inner[k - (m - i)]);
                } else if k > j - i {
                    assert(all[k] == rest[k - (j + 1 - i)]);
                }
            }
            if !s.contains('-') {
                assert(all =~= slashed(s.skip(i))) by {
                    assert forall|k: int| 0 <= k < s.len() - i implies #[trigger] all[k] == slash(
                        s[i + k],
                    ) by {
                        if k < m - i {
                        } else if k < j - i {
                            assert(all[k] == slashed(s.subrange(m, j))[k - (m - i)]);
                        } else if k > j - i {
                            assert(all[k] == slashed(s.skip(j + 1))[k - (j + 1 - i)]);
                        }
                    }
                }
            }
        } else {
            let rest = portable_from(s, i + 1);
            portable_keeps(s, i + 1);
            assert(all == seq![slash(s[i])] + rest);
            assert forall|k: int| 0 <= k < s.len() - i implies #[trigger] all[k] == s[i + k] || (s[i
                + k] == '\\' && all[k] == '/') by {
                if k > 0 {
                    assert(all[k] == rest[k - 1]);
                }
            }
            if !s.contains('-') {
                assert(s.skip(i) =~= seq![s[i]] + s.skip(i + 1));
                assert(all =~= slashed(s.skip(i)));
            }
        }
    } else {
        assert(all =~= slashed(s.skip(i)));
    }
}

/// A pattern without ranges has a slash in place of each backslash, and nothing else changed.
pub proof fn pattern_has_slashes(s: Seq<char>)
    requires
        !s.contains('-'),
    ensures
        portable(s).len() == s.len(),
        forall|i: int|
            0 <= i < s.len() ==> #[trigger] portable(s)[i] == (if s[i] == '\\' {
                '/'
            } else {
                s[i]
            }),
{
    portable_keeps(s, 0);
    assert(s.skip(0) =~= s);
}

/// A range of characters in brackets stays as it is, backslashes too.
pub proof fn range_stays(a: char, b: char, rest: Seq<char>)
    requires
        a != '!',
        b != ']',
    ensures
        portable(seq!['[', a, '-', b, ']'] + rest).take(5) == seq!['[', a, '-', b, ']'],
{
    let s = seq!['[', a, '-', b, ']'] + rest;
    reveal_with_fuel(next_close, 4);
    reveal_with_fuel(members, 2);
    assert(next_close(s, 2) == Some(4int));
    assert(members(s, 1, 4) =~= seq![a, '-', b]);
    assert(portable(s).take(5) =~= seq!['[', a, '-', b, ']']);
}

} // verus!
