//! Mouse selection state, word/line selection, mouse reports and paste
//! encoding for the terminal window.

use vstd::prelude::*;
use vstd::string::StrSliceExecFns;
use vstd::utf8::encode_utf8;
use crate::cell::Cell;
use crate::grid::TerminalGrid;
use crate::text::{is_alphanumeric, unicode_alphanumeric, chars_of, string_from_chars};

verus! {

#[verifier::external_type_specification]
#[verifier::external_body]
pub struct ExInstant(std::time::Instant);

/// Selection and mouse interaction state of a terminal window.
pub struct InputState {
    pub dragging: bool,
    pub has_dragged: bool,
    pub start_pos: Option<(usize, usize)>,
    pub last_click_time: Option<std::time::Instant>,
    pub click_count: u8,
    pub sel_anchor: Option<(usize, usize)>,
    pub sel_cursor: Option<(usize, usize)>,
}

impl Default for InputState {
    fn default() -> (s: InputState)
        ensures
            !s.dragging,
            !s.has_dragged,
            s.start_pos is None,
            s.last_click_time is None,
            s.click_count == 0,
            s.sel_anchor is None,
            s.sel_cursor is None,
    {
        InputState {
            dragging: false,
            has_dragged: false,
            start_pos: None,
            last_click_time: None,
            click_count: 0,
            sel_anchor: None,
            sel_cursor: None,
        }
    }
}

/// A selection is active when both ends are set and differ.
pub open spec fn spec_has_selection(anchor: Option<(usize, usize)>, cursor: Option<(usize, usize)>) -> bool {
    match (anchor, cursor) {
        (Some(a), Some(b)) => a != b,
        _ => false,
    }
}

impl InputState {
    /// Whether a non-empty selection is active.
    pub fn has_selection(&self) -> (b: bool)
        ensures
            b == spec_has_selection(self.sel_anchor, self.sel_cursor),
    {
        match (self.sel_anchor, self.sel_cursor) {
            (Some(a), Some(b)) => a.0 != b.0 || a.1 != b.1,
            _ => false,
        }
    }

    /// Drops the selection.
    pub fn clear_selection(&mut self)
        ensures
            final(self).sel_anchor is None,
            final(self).sel_cursor is None,
            final(self).dragging == old(self).dragging,
            final(self).has_dragged == old(self).has_dragged,
            final(self).start_pos == old(self).start_pos,
            final(self).last_click_time == old(self).last_click_time,
            final(self).click_count == old(self).click_count,
    {
        self.sel_anchor = None;
        self.sel_cursor = None;
    }
}

/// Characters that belong to a word for double-click selection.
pub open spec fn is_word_char(c: char) -> bool {
    unicode_alphanumeric(c) || c == '_' || c == '-' || c == '.' || c == ':'
}

fn word_char(c: char) -> (b: bool)
    ensures
        b == is_word_char(c),
{
    is_alphanumeric(c) || c == '_' || c == '-' || c == '.' || c == ':'
}

/// The first column of the run of word characters of `line` that reaches
/// column `col` from the left.
pub open spec fn word_start(line: Seq<Cell>, col: int) -> int
    decreases col,
{
    if col > 0 && col <= line.len() && is_word_char(line[col - 1].ch) { word_start(line, col - 1) } else { col }
}

/// The last column of the run of word characters of `line` that starts at
/// column `col` going right.
pub open spec fn word_end(line: Seq<Cell>, col: int) -> int
    decreases line.len() - col,
{
    if 0 <= col && col + 1 < line.len() && is_word_char(line[col + 1].ch) { word_end(line, col + 1) } else { col }
}

/// The columns a double click at `col` selects in `line`: the whole run of
/// word characters around it, or just `col` when it is not on one.
pub open spec fn word_span(line: Seq<Cell>, col: int) -> (int, int) {
    if col < line.len() && is_word_char(line[col].ch) {
        (word_start(line, col), word_end(line, col))
    } else {
        (col, col)
    }
}

/// `word_start` goes left over word characters only, and stops at the start
/// of the line or before a non-word character.
pub proof fn lemma_word_start(line: Seq<Cell>, col: int)
    requires
        0 <= col <= line.len(),
    ensures
        0 <= word_start(line, col) <= col,
        forall|i: int| word_start(line, col) <= i < col ==> is_word_char(#[trigger] line[i].ch),
        word_start(line, col) == 0 || !is_word_char(line[word_start(line, col) - 1].ch),
    decreases col,
{
    if col > 0 && is_word_char(line[col - 1].ch) {
        lemma_word_start(line, col - 1);
    }
}

/// `word_end` goes right over word characters only, and stops at the end of
/// the line or before a non-word character.
pub proof fn lemma_word_end(line: Seq<Cell>, col: int)
    requires
        0 <= col < line.len(),
    ensures
        col <= word_end(line, col) < line.len(),
        forall|i: int| col < i <= word_end(line, col) ==> is_word_char(#[trigger] line[i].ch),
        word_end(line, col) + 1 == line.len() || !is_word_char(line[word_end(line, col) + 1].ch),
    decreases line.len() - col,
{
    if col + 1 < line.len() && is_word_char(line[col + 1].ch) {
        lemma_word_end(line, col + 1);
    }
}

/// A double click on a character that is a letter or digit, or one of
/// `_ - . :` (so that names, paths and IPv4/IPv6 addresses are taken whole),
/// selects exactly the run of such characters around it: every selected
/// cell is one, and the cells just outside the selection are not (or it
/// reaches the end of the line).  A click elsewhere selects just that cell.
pub proof fn law_double_click_selects_whole_run(line: Seq<Cell>, col: int)
    requires
        0 <= col,
    ensures
        ({
            let sp = word_span(line, col);
            let sel = |c: char| c == ':' || c == '.' || c == '-' || c == '_' || unicode_alphanumeric(c);
            &&& (col < line.len() && sel(line[col].ch)) ==> {
                &&& 0 <= sp.0 <= col <= sp.1 < line.len()
                &&& forall|i: int| sp.0 <= i <= sp.1 ==> sel(#[trigger] line[i].ch)
                &&& (sp.0 == 0 || !sel(line[sp.0 - 1].ch))
                &&& (sp.1 + 1 == line.len() || !sel(line[sp.1 + 1].ch))
            }
            &&& !(col < line.len() && sel(line[col].ch)) ==> sp == (col, col)
        }),
{
    if col < line.len() && is_word_char(line[col].ch) {
        lemma_word_start(line, col);
        lemma_word_end(line, col);
    }
}

/// Selects the word under `(row, col)` (absolute row) on a double click:
/// both selection ends move to the ends of the run of word characters.
/// Nothing changes when the row does not exist.
pub fn select_word_at(grid: &TerminalGrid, row: usize, col: usize, state: &mut InputState)
    requires
        grid.wf(),
    ensures
        row < grid@.lines().len() ==> ({
            let span = word_span(grid@.lines()[row as int], col as int);
            &&& final(state).sel_anchor == Some((row, span.0 as usize))
            &&& final(state).sel_cursor == Some((row, span.1 as usize))
        }),
        row >= grid@.lines().len() ==> final(state).sel_anchor == old(state).sel_anchor
            && final(state).sel_cursor == old(state).sel_cursor,
        final(state).dragging == old(state).dragging,
        final(state).has_dragged == old(state).has_dragged,
        final(state).start_pos == old(state).start_pos,
        final(state).last_click_time == old(state).last_click_time,
        final(state).click_count == old(state).click_count,
{
    if let Some(line) = grid.get_line(row) {
        let mut start_c = col;
        let mut end_c = col;
        if col < line.len() && word_char(line[col].ch) {
            while start_c > 0 && word_char(line[start_c - 1].ch)
                invariant
                    start_c <= col < line@.len(),
                    word_start(line@, start_c as int) == word_start(line@, col as int),
                decreases start_c,
            {
                start_c = start_c - 1;
            }
            while end_c < line.len() - 1 && word_char(line[end_c + 1].ch)
                invariant
                    col <= end_c < line@.len(),
                    word_end(line@, end_c as int) == word_end(line@, col as int),
                decreases line@.len() - end_c,
            {
                end_c = end_c + 1;
            }
        }
        state.sel_anchor = Some((row, start_c));
        state.sel_cursor = Some((row, end_c));
    }
}

/// Selects the whole row `row` on a triple click.
pub fn select_line_at(grid: &TerminalGrid, row: usize, state: &mut InputState)
    ensures
        final(state).sel_anchor == Some((row, 0usize)),
        final(state).sel_cursor == Some((row, (if grid@.cols > 0 { grid@.cols - 1 } else { 0 }) as usize)),
        final(state).dragging == old(state).dragging,
        final(state).has_dragged == old(state).has_dragged,
        final(state).start_pos == old(state).start_pos,
        final(state).last_click_time == old(state).last_click_time,
        final(state).click_count == old(state).click_count,
{
    let cols = grid.num_cols();
    state.sel_anchor = Some((row, 0));
    state.sel_cursor = Some((row, if cols > 0 { cols - 1 } else { 0 }));
}

/// The ASCII decimal digits of `n`.
pub open spec fn decimal(n: nat) -> Seq<u8>
    decreases n,
{
    if n < 10 { seq![(48 + n) as u8] } else { decimal(n / 10).push((48 + n % 10) as u8) }
}

/// Appends the decimal digits of `n`.
fn push_decimal(out: &mut Vec<u8>, n: u64)
    ensures
        final(out)@ == old(out)@ + decimal(n as nat),
    decreases n,
{
    if n >= 10 {
        push_decimal(out, n / 10);
    }
    out.push(48 + (n % 10) as u8);
    assert(out@ =~= old(out)@ + decimal(n as nat));
}

/// The SGR (mode 1006) mouse report `ESC [ < code ; col+1 ; row+1 M`
/// (or `m` for a release), with 0-based `col` and `row`.
pub open spec fn sgr_mouse_report(code: nat, col: nat, row: nat, release: bool) -> Seq<u8> {
    seq![0x1bu8, 0x5bu8, 0x3cu8] + decimal(code) + seq![0x3bu8] + decimal(col + 1) + seq![0x3bu8]
        + decimal(row + 1) + seq![if release { 0x6du8 } else { 0x4du8 }]
}

/// Formats a mouse event in the SGR 1006 encoding.
pub fn format_sgr_mouse(code: u32, col: usize, row: usize, release: bool) -> (out: Vec<u8>)
    requires
        col < usize::MAX,
        row < usize::MAX,
    ensures
        out@ == sgr_mouse_report(code as nat, col as nat, row as nat, release),
{
    let mut out: Vec<u8> = Vec::new();
    out.push(0x1b);
    out.push(0x5b);
    out.push(0x3c);
    push_decimal(&mut out, code as u64);
    out.push(0x3b);
    push_decimal(&mut out, (col + 1) as u64);
    out.push(0x3b);
    push_decimal(&mut out, (row + 1) as u64);
    out.push(if release { 0x6d } else { 0x4d });
    assert(out@ =~= sgr_mouse_report(code as nat, col as nat, row as nat, release));
    out
}

/// Every byte of `s` is an ASCII decimal digit.
pub open spec fn all_ascii_digits(s: Seq<u8>) -> bool {
    forall|i: int| 0 <= i < s.len() ==> 0x30 <= #[trigger] s[i] <= 0x39
}

/// The number that the ASCII decimal digits `s` write.
pub open spec fn digits_number(s: Seq<u8>) -> int
    decreases s.len(),
{
    if s.len() == 0 { 0 } else { digits_number(s.drop_last()) * 10 + (s.last() - 0x30) }
}

proof fn lemma_decimal_reads_back(n: nat)
    ensures
        decimal(n).len() >= 1,
        all_ascii_digits(decimal(n)),
        digits_number(decimal(n)) == n,
    decreases n,
{
    if n >= 10 {
        lemma_decimal_reads_back(n / 10);
        let d = decimal(n);
        assert(d.drop_last() =~= decimal(n / 10));
        assert(n == (n / 10) * 10 + n % 10);
        assert(d.last() == (48 + n % 10) as u8);
        assert(digits_number(d) == digits_number(d.drop_last()) * 10 + (d.last() - 0x30));
        assert forall|i: int| 0 <= i < d.len() implies 0x30 <= #[trigger] d[i] <= 0x39 by {
            if i < d.len() - 1 {
                assert(d[i] == decimal(n / 10)[i]);
            }
        }
    } else {
        let d = decimal(n);
        assert(d[0] == (48 + n) as u8);
        assert(d.drop_last() =~= Seq::<u8>::empty());
        assert(digits_number(d) == digits_number(d.drop_last()) * 10 + (d.last() - 0x30));
    }
}

/// A mouse report reads back as the event it reports: `ESC [ <`, then three
/// decimal numbers separated by `;` (the button code, the column counted
/// from 1 and the row counted from 1), then `M` for a press or `m` for a
/// release.
pub proof fn law_mouse_report_reads_back(code: nat, col: nat, row: nat, release: bool)
    ensures
        ({
            let r = sgr_mouse_report(code, col, row, release);
            &&& r.last() == (if release { 0x6du8 } else { 0x4du8 })
            &&& exists|a: Seq<u8>, b: Seq<u8>, c: Seq<u8>|
                #![trigger all_ascii_digits(a), all_ascii_digits(b), all_ascii_digits(c)]
                r == seq![0x1bu8, 0x5bu8, 0x3cu8] + a + seq![0x3bu8] + b + seq![0x3bu8] + c + seq![r.last()]
                && a.len() > 0 && b.len() > 0 && c.len() > 0
                && all_ascii_digits(a) && all_ascii_digits(b) && all_ascii_digits(c)
                && digits_number(a) == code && digits_number(b) == col + 1 && digits_number(c) == row + 1
        }),
{
    let r = sgr_mouse_report(code, col, row, release);
    lemma_decimal_reads_back(code);
    lemma_decimal_reads_back(col + 1);
    lemma_decimal_reads_back(row + 1);
    let (a, b, c) = (decimal(code), decimal(col + 1), decimal(row + 1));
    assert(r == seq![0x1bu8, 0x5bu8, 0x3cu8] + a + seq![0x3bu8] + b + seq![0x3bu8] + c + seq![r.last()]);
    assert(all_ascii_digits(a) && all_ascii_digits(b) && all_ascii_digits(c));
}

/// Line ends of pasted text as the terminal expects them: each CR LF and
/// each lone LF become CR.
pub open spec fn normalized_line_ends(s: Seq<char>) -> Seq<char>
    decreases s.len(),
{
    if s.len() == 0 {
        s
    } else if s[0] == '\r' && s.len() > 1 && s[1] == '\n' {
        seq!['\r'] + normalized_line_ends(s.skip(2))
    } else if s[0] == '\n' {
        seq!['\r'] + normalized_line_ends(s.skip(1))
    } else {
        seq![s[0]] + normalized_line_ends(s.skip(1))
    }
}

/// Pasted text reaches the remote side without line feeds: every line end
/// (CR LF or LF) becomes a single CR, and nothing gets longer.
pub proof fn law_paste_has_no_line_feeds(s: Seq<char>)
    ensures
        forall|i: int| 0 <= i < normalized_line_ends(s).len() ==> #[trigger] normalized_line_ends(s)[i] != '\n',
        normalized_line_ends(s).len() <= s.len(),
    decreases s.len(),
{
    if s.len() > 0 {
        if s[0] == '\r' && s.len() > 1 && s[1] == '\n' {
            law_paste_has_no_line_feeds(s.skip(2));
        } else {
            law_paste_has_no_line_feeds(s.skip(1));
        }
        let n = normalized_line_ends(s);
        assert forall|i: int| 0 <= i < n.len() implies #[trigger] n[i] != '\n' by {
            if i > 0 {
                if s[0] == '\r' && s.len() > 1 && s[1] == '\n' {
                    assert(n[i] == normalized_line_ends(s.skip(2))[i - 1]);
                } else {
                    assert(n[i] == normalized_line_ends(s.skip(1))[i - 1]);
                }
            }
        }
    }
}

/// Replaces each CR LF, then each remaining LF, of `text` by CR.
pub fn normalize_paste(text: &str) -> (out: String)
    ensures
        out@ == normalized_line_ends(text@),
{
    let v = chars_of(text);
    let mut out: Vec<char> = Vec::new();
    let mut i: usize = 0;
    assert(v@.skip(0) =~= v@);
    while i < v.len()
        invariant
            i <= v@.len(),
            v@ == text@,
            out@ + normalized_line_ends(v@.skip(i as int)) == normalized_line_ends(v@),
        decreases v@.len() - i,
    {
        let ghost rest = v@.skip(i as int);
        if v[i] == '\r' && i + 1 < v.len() && v[i + 1] == '\n' {
            out.push('\r');
            assert(rest.skip(2) =~= v@.skip(i + 2));
            i = i + 2;
        } else if v[i] == '\n' {
            out.push('\r');
            assert(rest.skip(1) =~= v@.skip(i + 1));
            i = i + 1;
        } else {
            out.push(v[i]);
            assert(rest.skip(1) =~= v@.skip(i + 1));
            i = i + 1;
        }
        assert(out@ + normalized_line_ends(v@.skip(i as int)) =~= normalized_line_ends(v@));
    }
    assert(v@.skip(i as int) =~= Seq::<char>::empty());
    assert(out@ =~= normalized_line_ends(v@));
    string_from_chars(&out)
}

/// The bytes sent for pasted `text`: its UTF-8 encoding with normalized line
/// ends, wrapped in `ESC [200~` ... `ESC [201~` in bracketed-paste mode.
pub open spec fn paste_bytes(text: Seq<char>, bracketed: bool) -> Seq<u8> {
    let body = encode_utf8(normalized_line_ends(text));
    if bracketed {
        seq![0x1bu8, 0x5bu8, 0x32u8, 0x30u8, 0x30u8, 0x7eu8] + body
            + seq![0x1bu8, 0x5bu8, 0x32u8, 0x30u8, 0x31u8, 0x7eu8]
    } else {
        body
    }
}

/// In bracketed-paste mode the payload is exactly the plain payload of the
/// same text between the markers `ESC [ 2 0 0 ~` (start) and
/// `ESC [ 2 0 1 ~` (end), so the remote side sees where the paste begins
/// and ends.
pub proof fn law_bracketed_paste_wraps_plain(text: Seq<char>)
    ensures
        paste_bytes(text, true) == seq![27u8, 91, 50, 48, 48, 126] + paste_bytes(text, false)
            + seq![27u8, 91, 50, 48, 49, 126],
{
}

/// Encodes pasted `text` for the remote side (see `paste_bytes`).
pub fn paste_payload(text: &str, bracketed: bool) -> (out: Vec<u8>)
    ensures
        out@ == paste_bytes(text@, bracketed),
{
    let normalized = normalize_paste(text);
    let body = normalized.as_str().as_bytes_vec();
    let mut out: Vec<u8> = Vec::new();
    if bracketed {
        out.push(0x1b);
        out.push(0x5b);
        out.push(0x32);
        out.push(0x30);
        out.push(0x30);
        out.push(0x7e);
    }
    let mut i: usize = 0;
    let ghost start = out@;
    while i < body.len()
        invariant
            i <= body@.len(),
            out@ == start + body@.take(i as int),
        decreases body@.len() - i,
    {
        out.push(body[i]);
        i = i + 1;
        assert(out@ =~= start + body@.take(i as int));
    }
    if bracketed {
        out.push(0x1b);
        out.push(0x5b);
        out.push(0x32);
        out.push(0x30);
        out.push(0x31);
        out.push(0x7e);
    }
    assert(body@.take(body@.len() as int) =~= body@);
    assert(out@ =~= paste_bytes(text@, bracketed));
    out
}

} // verus!
