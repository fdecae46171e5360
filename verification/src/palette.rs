//! The terminal's command palette: copying the whole buffer or its last
//! lines, and the line-count field.

use vstd::prelude::*;
use crate::grid::TerminalGrid;
use crate::text::{chars_of, string_from_chars};

verus! {

/// An ASCII decimal digit.
pub open spec fn is_digit(c: char) -> bool {
    '0' <= c && c <= '9'
}

/// The ASCII digits of `s`, in order.
pub open spec fn digits_of(s: Seq<char>) -> Seq<char> {
    s.filter(|c: char| is_digit(c))
}

/// The value of a string of decimal digits.
pub open spec fn digits_value(s: Seq<char>) -> nat
    decreases s.len(),
{
    if s.len() == 0 {
        0
    } else {
        digits_value(s.drop_last()) * 10 + ((s.last() as int) - 48) as nat
    }
}

/// Keeps only the ASCII digits of what was typed in the line-count field.
pub fn palette_digits(val: &str) -> (r: String)
    ensures
        r@ == digits_of(val@),
{
    let chars = chars_of(val);
    let mut out: Vec<char> = Vec::new();
    let mut i: usize = 0;
    while i < chars.len()
        invariant
            i <= chars@.len(),
            chars@ == val@,
            out@ == digits_of(chars@.take(i as int)),
        decreases chars@.len() - i,
    {
        proof {
            reveal(Seq::filter);
            assert(chars@.take(i + 1).drop_last() =~= chars@.take(i as int));
            assert(chars@.take(i + 1).last() == chars@[i as int]);
        }
        if '0' <= chars[i] && chars[i] <= '9' {
            out.push(chars[i]);
        }
        i = i + 1;
    }
    assert(chars@.take(chars@.len() as int) =~= chars@);
    string_from_chars(&out)
}

/// What `str::parse::<usize>` accepts: an optional `+`, then one or more
/// ASCII digits whose value fits in `usize`.
pub open spec fn parsed_count(s: Seq<char>) -> Option<nat> {
    let d = unsigned_digits(s);
    if d.len() > 0 && all_digits(d) && digits_value(d) <= usize::MAX {
        Some(digits_value(d))
    } else {
        None
    }
}

/// The text after an optional leading `+`.
pub open spec fn unsigned_digits(s: Seq<char>) -> Seq<char> {
    if s.len() > 0 && s[0] == '+' { s.drop_first() } else { s }
}

/// Every character of `d` is an ASCII digit.
pub open spec fn all_digits(d: Seq<char>) -> bool {
    forall|i: int| 0 <= i < d.len() ==> is_digit(#[trigger] d[i])
}

proof fn lemma_digits_value_monotone(s: Seq<char>, i: int)
    requires
        0 <= i <= s.len(),
        forall|k: int| 0 <= k < s.len() ==> is_digit(#[trigger] s[k]),
    ensures
        digits_value(s.take(i)) <= digits_value(s),
    decreases s.len() - i,
{
    if i < s.len() {
        lemma_digits_value_monotone(s, i + 1);
        assert(s.take(i + 1).drop_last() =~= s.take(i));
    } else {
        assert(s.take(i) =~= s);
    }
}

/// The number of lines typed in the palette, read as `str::parse::<usize>`
/// reads it (see `parsed_count`).
pub fn parse_line_count(s: &str) -> (r: Option<usize>)
    ensures
        match parsed_count(s@) {
            Some(n) => r == Some(n as usize),
            None => r is None,
        },
{
    let chars = chars_of(s);
    let mut start: usize = 0;
    if chars.len() > 0 && chars[0] == '+' {
        start = 1;
    }
    let ghost d = unsigned_digits(s@);
    assert(d =~= chars@.skip(start as int));
    if start >= chars.len() {
        return None;
    }
    let mut value: usize = 0;
    let mut i: usize = start;
    while i < chars.len()
        invariant
            start <= i <= chars@.len(),
            chars@ == s@,
            d == chars@.skip(start as int),
            d == unsigned_digits(s@),
            forall|k: int| start <= k < i ==> is_digit(#[trigger] chars@[k]),
            value == digits_value(d.take(i - start)),
        decreases chars@.len() - i,
    {
        let c = chars[i];
        assert(d[i - start] == c);
        if !('0' <= c && c <= '9') {
            assert(!is_digit(d[i - start]));
            assert(!all_digits(d));
            return None;
        }
        let digit: usize = if c == '0' { 0 } else if c == '1' { 1 } else if c == '2' { 2 } else if c == '3' { 3 }
            else if c == '4' { 4 } else if c == '5' { 5 } else if c == '6' { 6 } else if c == '7' { 7 }
            else if c == '8' { 8 } else { 9 };
        assert(digit == (c as int) - 48);
        assert(d.take(i - start + 1).drop_last() =~= d.take(i - start));
        assert(d.take(i - start + 1).last() == c);
        if value > (usize::MAX - digit) / 10 {
            proof {
                assert(digits_value(d.take(i - start + 1)) == value * 10 + digit);
                assert(value * 10 + digit > usize::MAX) by (nonlinear_arith)
                    requires
                        value > (usize::MAX - digit) / 10,
                        digit <= 9;
                if all_digits(d) {
                    lemma_digits_value_monotone(d, i - start + 1);
                    assert(digits_value(d) > usize::MAX);
                }
                assert(parsed_count(s@) is None);
            }
            return None;
        }
        assert(value * 10 + digit <= usize::MAX) by (nonlinear_arith)
            requires
                value <= (usize::MAX - digit) / 10,
                digit <= 9;
        value = value * 10 + digit;
        i = i + 1;
    }
    assert(d.take(d.len() as int) =~= d);
    Some(value)
}

/// The text that "Copy All" puts on the clipboard: every row of the
/// scrollback and the screen, as a selection from the first cell to the
/// last; nothing when that text is empty.
pub fn copy_all_text(grid: &TerminalGrid) -> (r: Option<String>)
    requires
        grid.wf(),
        grid@.scrollback.len() + grid@.rows <= usize::MAX,
    ensures
        ({
            let total = grid@.scrollback.len() + grid@.rows;
            let t = grid@.selection_text((0, 0), ((total - 1) as usize, (grid@.cols - 1) as usize));
            &&& t.len() == 0 ==> r is None
            &&& t.len() > 0 ==> (r matches Some(x) && x@ == t)
        }),
{
    let total = grid.scrollback_len() + grid.num_rows();
    let text = grid.selected_text((0, 0), (total - 1, grid.num_cols() - 1));
    if text.as_str().is_empty() {
        None
    } else {
        Some(text)
    }
}

/// The text that "Copy Last" puts on the clipboard: the last `lines` rows of
/// the scrollback and the screen (all of them when there are fewer); nothing
/// when that text is empty.
pub fn copy_last_lines_text(grid: &TerminalGrid, lines: usize) -> (r: Option<String>)
    requires
        grid.wf(),
        grid@.scrollback.len() + grid@.rows <= usize::MAX,
    ensures
        ({
            let total = grid@.scrollback.len() + grid@.rows;
            let start = if total > lines { total - lines } else { 0 };
            let t = grid@.selection_text((start as usize, 0), ((total - 1) as usize, (grid@.cols - 1) as usize));
            &&& t.len() == 0 ==> r is None
            &&& t.len() > 0 ==> (r matches Some(x) && x@ == t)
        }),
{
    let total = grid.scrollback_len() + grid.num_rows();
    let start = if total > lines { total - lines } else { 0 };
    let text = grid.selected_text((start, 0), (total - 1, grid.num_cols() - 1));
    if text.as_str().is_empty() {
        None
    } else {
        Some(text)
    }
}

} // verus!
