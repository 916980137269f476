//! Texts as the system takes and gives them: UTF-16 units that end with a zero.

use crate::outside;
use crate::outside::from_utf16_lossy;
use vstd::prelude::*;

verus! {

broadcast use vstd::string::group_string_axioms;

/// The UTF-16 units of a character: one, or two that share it out.
pub open spec fn units_of(c: char) -> Seq<u16> {
    if (c as u32) < 0x10000 {
        seq![c as u16]
    } else {
        seq![
            (0xD800 + (c as u32 - 0x10000) / 0x400) as u16,
            (0xDC00 + (c as u32 - 0x10000) % 0x400) as u16,
        ]
    }
}

/// The UTF-16 units of a text.
pub open spec fn utf16(s: Seq<char>) -> Seq<u16>
    decreases s.len(),
{
    if s.len() == 0 {
        seq![]
    } else {
        utf16(s.drop_last()) + units_of(s.last())
    }
}

/// The units of a text, with a zero behind them.
pub fn to_wide(s: &str) -> (r: Vec<u16>)
    ensures
        r@ == utf16(s@).push(0),
{
    let mut r: Vec<u16> = Vec::new();
    let n: usize = s.unicode_len();
    let mut i: usize = 0;
    assert(s@.take(0) =~= seq![]);
    while i < n
        invariant
            i <= n,
            n == s@.len(),
            r@ == utf16(s@.take(i as int)),
        decreases n - i,
    {
        let ghost before = r@;
        let c: char = s.get_char(i);
        let code: u32 = c as u32;
        if code < 0x10000 {
            r.push(code as u16);
        } else {
            let rest: u32 = code - 0x10000;
            r.push((0xD800 + rest / 0x400) as u16);
            r.push((0xDC00 + rest % 0x400) as u16);
        }
        proof {
            let step = s@.take(i + 1);
            assert(step.drop_last() =~= s@.take(i as int));
            assert(step.last() == c);
            assert(r@ =~= before + units_of(c));
        }
        i += 1;
    }
    assert(s@.take(n as int) =~= s@);
    r.push(0);
    r
}

/// The units give the character: one unit is its number; of two, the first gives its upper ten bits
/// above `0xD800`, the last its lower ten above `0xDC00`. The last unit of a character lies between
/// `0xDC00` and `0xDFFF` just where two units write it.
pub proof fn last_unit(c: char)
    ensures
        1 <= units_of(c).len() <= 2,
        units_of(c).len() == 1 <==> (c as u32) < 0x10000,
        units_of(c).len() == 2 ==> 0xD800 <= units_of(c)[0] < 0xDC00,
        units_of(c).len() == 2 <==> 0xDC00 <= units_of(c).last() <= 0xDFFF,
        units_of(c).len() == 1 ==> c as u32 == units_of(c)[0],
        units_of(c).len() == 2 ==> c as u32 == 0x10000 + (units_of(c)[0] - 0xD800) * 0x400 + (
        units_of(c)[1] - 0xDC00),
{
    let n = c as u32;
    assert(n < 0xD800 || 0xE000 <= n <= 0x10FFFF);
    if n >= 0x10000 {
        assert((n - 0x10000) / 0x400 < 0x400);
    }
}

/// Characters with the same code are the same.
proof fn same_code(c: char, d: char)
    requires
        c as u32 == d as u32,
    ensures
        c == d,
{
}

/// Texts with the same units are the same.
pub proof fn units_unique(s: Seq<char>, t: Seq<char>)
    requires
        utf16(s) == utf16(t),
    ensures
        s == t,
    decreases s.len() + t.len(),
{
    if s.len() == 0 {
        if t.len() > 0 {
            assert(utf16(t).len() >= units_of(t.last()).len());
        }
        assert(s =~= t);
    } else if t.len() == 0 {
        assert(utf16(s).len() >= units_of(s.last()).len());
    } else {
        let (a, b) = (utf16(s.drop_last()), utf16(t.drop_last()));
        let (x, y) = (units_of(s.last()), units_of(t.last()));
        last_unit(s.last());
        last_unit(t.last());
        assert((a + x).last() == x.last());
        assert((b + y).last() == y.last());
        // The last unit tells by its range whether one or two units write the character.
        assert(x.len() == y.len());
        assert(a =~= utf16(s).take(utf16(s).len() - x.len()));
        assert(b =~= utf16(t).take(utf16(t).len() - y.len()));
        assert(x =~= utf16(s).skip(utf16(s).len() - x.len()));
        assert(y =~= utf16(t).skip(utf16(t).len() - y.len()));
        assert(s.last() == t.last()) by {
            if x.len() == 2 {
                assert(x[0] == y[0] && x[1] == y[1]);
            } else {
                assert(x[0] == y[0]);
            }
            same_code(s.last(), t.last());
        }
        units_unique(s.drop_last(), t.drop_last());
        assert(s =~= s.drop_last().push(s.last()));
        assert(t =~= t.drop_last().push(t.last()));
    }
}

/// Where the first zero stands, or the length where there is none.
pub open spec fn first_zero(units: Seq<u16>) -> int
    decreases units.len(),
{
    if units.len() == 0 || units[0] == 0 {
        0
    } else {
        1 + first_zero(units.skip(1))
    }
}

/// Where the first zero stands; none where there is none.
fn find_zero(units: &Vec<u16>) -> (r: Option<usize>)
    ensures
        match r {
            Some(n) => n == first_zero(units@) && n < units@.len() && units@[n as int] == 0,
            None => first_zero(units@) == units@.len(),
        },
{
    let mut i: usize = 0;
    assert(units@.skip(0) =~= units@);
    while i < units.len()
        invariant
            i <= units@.len(),
            first_zero(units@) == i + first_zero(units@.skip(i as int)),
        decreases units@.len() - i,
    {
        assert(units@.skip(i as int)[0] == units@[i as int]);
        if units[i] == 0 {
            return Some(i);
        }
        assert(units@.skip(i as int).skip(1) =~= units@.skip(i + 1));
        i += 1;
    }
    assert(units@.skip(i as int).len() == 0);
    None
}

/// The first `n` units.
fn cut(units: &Vec<u16>, n: usize) -> (r: Vec<u16>)
    requires
        n <= units@.len(),
    ensures
        r@ == units@.take(n as int),
{
    let mut r: Vec<u16> = Vec::new();
    let mut i: usize = 0;
    while i < n
        invariant
            i <= n <= units@.len(),
            r@ == units@.take(i as int),
        decreases n - i,
    {
        r.push(units[i]);
        assert(r@ =~= units@.take(i + 1));
        i += 1;
    }
    r
}

/// The text before the first zero of a buffer, or in all of it where there is none.
pub fn text_before_zero(units: &Vec<u16>) -> (r: String)
    ensures
        r@ == outside::utf16_text(units@.take(first_zero(units@))),
{
    let n: usize = match find_zero(units) {
        Some(n) => n,
        None => units.len(),
    };
    from_utf16_lossy(&cut(units, n))
}

/// The text before the first zero of a buffer; empty where there is none.
pub fn text_in_buffer(units: &Vec<u16>) -> (r: String)
    ensures
        r@ == outside::utf16_text(
            units@.take(
                if first_zero(units@) == units@.len() {
                    0
                } else {
                    first_zero(units@)
                },
            ),
        ),
{
    let n: usize = match find_zero(units) {
        Some(n) => n,
        None => 0,
    };
    from_utf16_lossy(&cut(units, n))
}

/// Each character of a text is written behind those before it.
pub proof fn units_come_in_turn(s: Seq<char>, t: Seq<char>)
    ensures
        utf16(s + t) == utf16(s) + utf16(t),
    decreases t.len(),
{
    if t.len() == 0 {
        assert(s + t =~= s);
        assert(utf16(s) + utf16(t) =~= utf16(s));
    } else {
        units_come_in_turn(s, t.drop_last());
        assert((s + t).drop_last() =~= s + t.drop_last());
        assert((s + t).last() == t.last());
        assert(utf16(s + t) =~= utf16(s) + utf16(t));
    }
}

/// The first zero has none before it.
pub proof fn no_zero_before_first(units: Seq<u16>)
    ensures
        0 <= first_zero(units) <= units.len(),
        forall|i: int| 0 <= i < first_zero(units) ==> #[trigger] units[i] != 0,
        first_zero(units) < units.len() ==> units[first_zero(units)] == 0,
    decreases units.len(),
{
    if units.len() > 0 && units[0] != 0 {
        no_zero_before_first(units.skip(1));
        assert forall|i: int| 0 <= i < first_zero(units) implies #[trigger] units[i] != 0 by {
            if i > 0 {
                assert(units.skip(1)[i - 1] == units[i]);
            }
        }
        if first_zero(units) < units.len() {
            assert(units.skip(1)[first_zero(units) - 1] == units[first_zero(units)]);
        }
    }
}

} // verus!
