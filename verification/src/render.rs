//! What the renderer draws for each row of the grid, decided cell by cell:
//! the batched background rectangles, the batched text runs and the cursor.
//! The drawing itself (pixels, fonts) belongs to the window.

use vstd::prelude::*;
use crate::cell::{Cell, CellColor, default_bg, spec_palette16};
use crate::grid::TerminalGrid;
use crate::grid_model::spec_in_selection;

verus! {

/// The first absolute row shown: row 0 on the alternate screen, otherwise
/// `scroll_offset` rows above the top of the screen (never above the oldest
/// scrollback row).
pub open spec fn spec_viewport_top(is_alt: bool, scrollback_len: nat, scroll_offset: nat) -> nat {
    if is_alt {
        0
    } else if scroll_offset <= scrollback_len {
        (scrollback_len - scroll_offset) as nat
    } else {
        0
    }
}

/// The first absolute row shown (see `spec_viewport_top`).
pub fn viewport_top(grid: &TerminalGrid, scroll_offset: usize) -> (top: usize)
    ensures
        top == spec_viewport_top(grid@.is_alt_screen, grid@.scrollback.len(), scroll_offset as nat),
{
    if grid.alt_screen_active() {
        0
    } else {
        let n = grid.scrollback_len();
        if scroll_offset <= n { n - scroll_offset } else { 0 }
    }
}

/// Whether cell `(row, col)` is selected (`sel` holds the selection's two
/// ends when one is active).
pub open spec fn sel_at(sel: Option<((usize, usize), (usize, usize))>, row: usize, col: int) -> bool {
    match sel {
        Some((a, b)) => 0 <= col <= usize::MAX && spec_in_selection(row, col as usize, a, b),
        None => false,
    }
}

fn sel_at_exec(grid: &TerminalGrid, sel: Option<((usize, usize), (usize, usize))>, row: usize, col: usize) -> (r: bool)
    ensures
        r == sel_at(sel, row, col as int),
{
    match sel {
        Some((a, b)) => grid.in_selection(row, col, a, b),
        None => false,
    }
}

// ─── Backgrounds ────────────────────────────────────────────────────────────

/// A background rectangle over the columns `start..end`: the selection
/// highlight (`color` absent) or a cell background.
#[derive(Debug, Clone, Copy, PartialEq, Eq, Structural)]
pub struct BgSpan {
    pub start: usize,
    pub end: usize,
    pub color: Option<CellColor>,
}

/// The background of column `col` of `line` (the default past its end).
pub open spec fn cell_bg(line: Seq<Cell>, col: int) -> CellColor {
    if 0 <= col < line.len() { line[col].spec_effective_bg() } else { default_bg() }
}

/// The end of the selected run from `c` on.
pub open spec fn sel_run_end(sel: Option<((usize, usize), (usize, usize))>, row: usize, c: int, cols: int) -> int
    decreases cols - c,
{
    if c < cols && sel_at(sel, row, c) { sel_run_end(sel, row, c + 1, cols) } else { c }
}

/// The end of the unselected run of background `bg` from `c` on.
pub open spec fn bg_run_end(line: Seq<Cell>, sel: Option<((usize, usize), (usize, usize))>, row: usize, bg: CellColor, c: int, cols: int) -> int
    decreases cols - c,
{
    if c < cols && !sel_at(sel, row, c) && cell_bg(line, c) == bg { bg_run_end(line, sel, row, bg, c + 1, cols) } else { c }
}

/// The background rectangles of the columns `col..cols` of a row: each
/// maximal selected run, and each maximal unselected run of one
/// non-default background.
pub open spec fn bg_spans_from(line: Seq<Cell>, sel: Option<((usize, usize), (usize, usize))>, row: usize, col: int, cols: int) -> Seq<BgSpan>
    decreases cols - col, 1int,
{
    if col >= cols || col < 0 {
        seq![]
    } else if sel_at(sel, row, col) {
        let e = sel_run_end(sel, row, col + 1, cols);
        if e <= col || e > cols { seq![] } else {
            seq![BgSpan { start: col as usize, end: e as usize, color: None }] + bg_spans_from(line, sel, row, e, cols)
        }
    } else if cell_bg(line, col) != default_bg() {
        let bg = cell_bg(line, col);
        let e = bg_run_end(line, sel, row, bg, col + 1, cols);
        if e <= col || e > cols { seq![] } else {
            seq![BgSpan { start: col as usize, end: e as usize, color: Some(bg) }] + bg_spans_from(line, sel, row, e, cols)
        }
    } else {
        bg_spans_from(line, sel, row, col + 1, cols)
    }
}

proof fn lemma_sel_run_end(sel: Option<((usize, usize), (usize, usize))>, row: usize, c: int, cols: int)
    ensures
        c <= sel_run_end(sel, row, c, cols),
        c <= cols ==> sel_run_end(sel, row, c, cols) <= cols,
    decreases cols - c,
{
    if c < cols && sel_at(sel, row, c) {
        lemma_sel_run_end(sel, row, c + 1, cols);
    }
}

proof fn lemma_bg_run_end(line: Seq<Cell>, sel: Option<((usize, usize), (usize, usize))>, row: usize, bg: CellColor, c: int, cols: int)
    ensures
        c <= bg_run_end(line, sel, row, bg, c, cols),
        c <= cols ==> bg_run_end(line, sel, row, bg, c, cols) <= cols,
    decreases cols - c,
{
    if c < cols && !sel_at(sel, row, c) && cell_bg(line, c) == bg {
        lemma_bg_run_end(line, sel, row, bg, c + 1, cols);
    }
}

fn cell_bg_exec(line: &Vec<Cell>, col: usize) -> (c: CellColor)
    ensures
        c == cell_bg(line@, col as int),
{
    if col < line.len() { line[col].effective_bg() } else { CellColor::default_bg() }
}

/// The background rectangles of the row `row` (absolute) whose cells are
/// `line`, over `cols` columns (see `bg_spans_from`).
pub fn background_spans(grid: &TerminalGrid, line: &Vec<Cell>, row: usize, cols: usize, sel: Option<((usize, usize), (usize, usize))>) -> (spans: Vec<BgSpan>)
    ensures
        spans@ == bg_spans_from(line@, sel, row, 0, cols as int),
{
    let mut spans: Vec<BgSpan> = Vec::new();
    let mut col: usize = 0;
    while col < cols
        invariant
            col <= cols,
            spans@ + bg_spans_from(line@, sel, row, col as int, cols as int) == bg_spans_from(line@, sel, row, 0, cols as int),
        decreases cols - col,
    {
        let ghost rest = bg_spans_from(line@, sel, row, col as int, cols as int);
        if sel_at_exec(grid, sel, row, col) {
            let start = col;
            col = col + 1;
            while col < cols && sel_at_exec(grid, sel, row, col)
                invariant
                    start < col <= cols,
                    sel_run_end(sel, row, col as int, cols as int) == sel_run_end(sel, row, start + 1, cols as int),
                decreases cols - col,
            {
                col = col + 1;
            }
            proof { lemma_sel_run_end(sel, row, start + 1, cols as int); }
            spans.push(BgSpan { start, end: col, color: None });
            assert(spans@ + bg_spans_from(line@, sel, row, col as int, cols as int) =~= bg_spans_from(line@, sel, row, 0, cols as int));
        } else {
            let bg = cell_bg_exec(line, col);
            if bg != CellColor::default_bg() {
                let start = col;
                col = col + 1;
                while col < cols && !sel_at_exec(grid, sel, row, col) && cell_bg_exec(line, col) == bg
                    invariant
                        start < col <= cols,
                        bg == cell_bg(line@, start as int),
                        bg_run_end(line@, sel, row, bg, col as int, cols as int) == bg_run_end(line@, sel, row, bg, start + 1, cols as int),
                    decreases cols - col,
                {
                    col = col + 1;
                }
                proof { lemma_bg_run_end(line@, sel, row, bg, start + 1, cols as int); }
                spans.push(BgSpan { start, end: col, color: Some(bg) });
                assert(spans@ + bg_spans_from(line@, sel, row, col as int, cols as int) =~= bg_spans_from(line@, sel, row, 0, cols as int));
            } else {
                col = col + 1;
            }
        }
    }
    assert(spans@ =~= bg_spans_from(line@, sel, row, 0, cols as int));
    spans
}

proof fn lemma_sel_run_all(sel: Option<((usize, usize), (usize, usize))>, row: usize, c: int, cols: int, x: int)
    requires
        c <= x < sel_run_end(sel, row, c, cols),
    ensures
        sel_at(sel, row, x),
        x < cols,
    decreases cols - c,
{
    if c < cols && sel_at(sel, row, c) && x > c {
        lemma_sel_run_all(sel, row, c + 1, cols, x);
    }
}

proof fn lemma_bg_run_all(line: Seq<Cell>, sel: Option<((usize, usize), (usize, usize))>, row: usize, bg: CellColor, c: int, cols: int, x: int)
    requires
        c <= x < bg_run_end(line, sel, row, bg, c, cols),
    ensures
        !sel_at(sel, row, x),
        cell_bg(line, x) == bg,
        x < cols,
    decreases cols - c,
{
    if c < cols && !sel_at(sel, row, c) && cell_bg(line, c) == bg && x > c {
        lemma_bg_run_all(line, sel, row, bg, c + 1, cols, x);
    }
}

/// What a background rectangle paints on column `x`: the selection
/// highlight on a selected cell, or the cell's own background on an
/// unselected cell whose background is not the default.
pub open spec fn span_fits(line: Seq<Cell>, sel: Option<((usize, usize), (usize, usize))>, row: usize, sp: BgSpan, x: int) -> bool {
    match sp.color {
        None => sel_at(sel, row, x),
        Some(b) => !sel_at(sel, row, x) && cell_bg(line, x) == b && b != default_bg(),
    }
}

/// The rectangles `sp` lie in `lo..cols`, in order without overlap, and
/// each paints its columns as `span_fits` says.
pub open spec fn spans_fit(line: Seq<Cell>, sel: Option<((usize, usize), (usize, usize))>, row: usize, sp: Seq<BgSpan>, lo: int, cols: int) -> bool {
    &&& forall|k: int| 0 <= k < sp.len() ==> lo <= (#[trigger] sp[k]).start < sp[k].end <= cols
    &&& forall|k: int| 0 <= k < sp.len() - 1 ==> (#[trigger] sp[k]).end <= sp[k + 1].start
    &&& forall|k: int, x: int| 0 <= k < sp.len() && sp[k].start <= x < sp[k].end ==>
            #[trigger] span_fits(line, sel, row, sp[k], x)
}

proof fn lemma_spans_prepend(line: Seq<Cell>, sel: Option<((usize, usize), (usize, usize))>, row: usize, first: BgSpan, rest: Seq<BgSpan>, lo: int, e: int, cols: int)
    requires
        lo == first.start,
        e == first.end,
        lo < e <= cols,
        spans_fit(line, sel, row, rest, e, cols),
        forall|x: int| lo <= x < e ==> span_fits(line, sel, row, first, x),
    ensures
        spans_fit(line, sel, row, seq![first] + rest, lo, cols),
{
    let sp = seq![first] + rest;
    assert forall|k: int, x: int| 0 <= k < sp.len() && sp[k].start <= x < sp[k].end implies
        #[trigger] span_fits(line, sel, row, sp[k], x) by {
        if k > 0 { assert(sp[k] == rest[k - 1]); }
    }
    assert forall|k: int| 0 <= k < sp.len() - 1 implies (#[trigger] sp[k]).end <= sp[k + 1].start by {
        if k > 0 { assert(sp[k] == rest[k - 1]); }
        assert(sp[k + 1] == rest[k]);
    }
    assert forall|k: int| 0 <= k < sp.len() implies lo <= (#[trigger] sp[k]).start < sp[k].end <= cols by {
        if k > 0 { assert(sp[k] == rest[k - 1]); }
    }
}

proof fn lemma_spans_sound(line: Seq<Cell>, sel: Option<((usize, usize), (usize, usize))>, row: usize, col: int, cols: int)
    requires
        0 <= col,
        cols <= usize::MAX,
    ensures
        spans_fit(line, sel, row, bg_spans_from(line, sel, row, col, cols), col, cols),
    decreases cols - col,
{
    if col >= cols {
    } else if sel_at(sel, row, col) {
        let e = sel_run_end(sel, row, col + 1, cols);
        lemma_sel_run_end(sel, row, col + 1, cols);
        lemma_spans_sound(line, sel, row, e, cols);
        let first = BgSpan { start: col as usize, end: e as usize, color: None };
        assert forall|x: int| col <= x < e implies span_fits(line, sel, row, first, x) by {
            if x > col { lemma_sel_run_all(sel, row, col + 1, cols, x); }
        }
        lemma_spans_prepend(line, sel, row, first, bg_spans_from(line, sel, row, e, cols), col, e, cols);
    } else if cell_bg(line, col) != default_bg() {
        let bg = cell_bg(line, col);
        let e = bg_run_end(line, sel, row, bg, col + 1, cols);
        lemma_bg_run_end(line, sel, row, bg, col + 1, cols);
        lemma_spans_sound(line, sel, row, e, cols);
        let first = BgSpan { start: col as usize, end: e as usize, color: Some(bg) };
        assert forall|x: int| col <= x < e implies span_fits(line, sel, row, first, x) by {
            if x > col { lemma_bg_run_all(line, sel, row, bg, col + 1, cols, x); }
        }
        lemma_spans_prepend(line, sel, row, first, bg_spans_from(line, sel, row, e, cols), col, e, cols);
    } else {
        lemma_spans_sound(line, sel, row, col + 1, cols);
    }
}

proof fn lemma_spans_complete(line: Seq<Cell>, sel: Option<((usize, usize), (usize, usize))>, row: usize, col: int, cols: int, x: int)
    requires
        0 <= col <= x < cols,
        cols <= usize::MAX,
        sel_at(sel, row, x) || cell_bg(line, x) != default_bg(),
    ensures
        exists|k: int| 0 <= k < bg_spans_from(line, sel, row, col, cols).len()
            && #[trigger] bg_spans_from(line, sel, row, col, cols)[k].start <= x < bg_spans_from(line, sel, row, col, cols)[k].end,
    decreases cols - col,
{
    let sp = bg_spans_from(line, sel, row, col, cols);
    if sel_at(sel, row, col) {
        let e = sel_run_end(sel, row, col + 1, cols);
        lemma_sel_run_end(sel, row, col + 1, cols);
        let rest = bg_spans_from(line, sel, row, e, cols);
        assert(sp == seq![BgSpan { start: col as usize, end: e as usize, color: None }] + rest);
        if x < e {
            assert(sp[0].start <= x < sp[0].end);
        } else {
            lemma_spans_complete(line, sel, row, e, cols, x);
            let k = choose|k: int| 0 <= k < rest.len() && #[trigger] rest[k].start <= x < rest[k].end;
            assert(sp[k + 1] == rest[k]);
        }
    } else if cell_bg(line, col) != default_bg() {
        let bg = cell_bg(line, col);
        let e = bg_run_end(line, sel, row, bg, col + 1, cols);
        lemma_bg_run_end(line, sel, row, bg, col + 1, cols);
        let rest = bg_spans_from(line, sel, row, e, cols);
        assert(sp == seq![BgSpan { start: col as usize, end: e as usize, color: Some(bg) }] + rest);
        if x < e {
            assert(sp[0].start <= x < sp[0].end);
        } else {
            lemma_spans_complete(line, sel, row, e, cols, x);
            let k = choose|k: int| 0 <= k < rest.len() && #[trigger] rest[k].start <= x < rest[k].end;
            assert(sp[k + 1] == rest[k]);
        }
    } else {
        lemma_spans_complete(line, sel, row, col + 1, cols, x);
    }
}

/// The background rectangles of a row paint exactly what needs painting:
/// they lie inside the row, in order and without overlap; each column of a
/// rectangle is selected (for the highlight) or unselected with the
/// rectangle's background, which is not the default; and every selected
/// column and every column with a non-default background lies in one.
pub proof fn law_background_spans_exact(line: Seq<Cell>, sel: Option<((usize, usize), (usize, usize))>, row: usize, cols: usize, x: int)
    ensures
        spans_fit(line, sel, row, bg_spans_from(line, sel, row, 0, cols as int), 0, cols as int),
        (0 <= x < cols && (sel_at(sel, row, x) || cell_bg(line, x) != default_bg())) ==>
            exists|k: int| 0 <= k < bg_spans_from(line, sel, row, 0, cols as int).len()
                && #[trigger] bg_spans_from(line, sel, row, 0, cols as int)[k].start <= x
                && x < bg_spans_from(line, sel, row, 0, cols as int)[k].end,
{
    lemma_spans_sound(line, sel, row, 0, cols as int);
    if 0 <= x < cols && (sel_at(sel, row, x) || cell_bg(line, x) != default_bg()) {
        lemma_spans_complete(line, sel, row, 0, cols as int, x);
    }
}

// ─── Text ───────────────────────────────────────────────────────────────────

/// A cell that draws nothing: a space or NUL without underline.
pub open spec fn is_blank_cell(c: Cell) -> bool {
    (c.ch == ' ' || c.ch == '\0') && !c.underline
}

/// The last column of `line` that shows something (a visible character or
/// an underline), if any.
pub open spec fn last_content(line: Seq<Cell>) -> Option<int>
    decreases line.len(),
{
    if line.len() == 0 {
        None
    } else if !is_blank_cell(line.last()) {
        Some(line.len() - 1)
    } else {
        last_content(line.drop_last())
    }
}

/// The last column of `line` that shows something (see `last_content`).
pub fn last_content_col(line: &Vec<Cell>) -> (r: Option<usize>)
    ensures
        match r {
            Some(i) => last_content(line@) == Some(i as int),
            None => last_content(line@) is None,
        },
{
    let mut i: usize = line.len();
    assert(line@.take(i as int) =~= line@);
    while i > 0
        invariant
            i <= line@.len(),
            last_content(line@.take(i as int)) == last_content(line@),
        decreases i,
    {
        let c = line[i - 1];
        if !((c.ch == ' ' || c.ch == '\0') && !c.underline) {
            return Some(i - 1);
        }
        assert(line@.take(i as int).drop_last() =~= line@.take(i - 1));
        i = i - 1;
    }
    None
}

/// The colour a cell's text is drawn in: white when selected, otherwise the
/// highlight colour when there is one, otherwise its own foreground.
pub open spec fn text_fg(line: Seq<Cell>, custom: Seq<Option<CellColor>>, sel: Option<((usize, usize), (usize, usize))>, row: usize, col: int) -> CellColor {
    if sel_at(sel, row, col) {
        spec_palette16(15)
    } else {
        match custom[col] {
            Some(c) => c,
            None => line[col].spec_effective_fg(),
        }
    }
}

/// A run of text drawn at once: the columns `start..end`, in one colour,
/// weight and underline.
#[derive(Debug, Clone, Copy, PartialEq, Eq, Structural)]
pub struct TextSpan {
    pub start: usize,
    pub end: usize,
    pub fg: CellColor,
    pub bold: bool,
    pub underline: bool,
}

/// Whether column `c` continues the run started at `s`: same weight,
/// underline, colour and selection.
pub open spec fn same_style(line: Seq<Cell>, custom: Seq<Option<CellColor>>, sel: Option<((usize, usize), (usize, usize))>, row: usize, s: int, c: int) -> bool {
    &&& line[c].bold == line[s].bold
    &&& line[c].underline == line[s].underline
    &&& text_fg(line, custom, sel, row, c) == text_fg(line, custom, sel, row, s)
    &&& sel_at(sel, row, c) == sel_at(sel, row, s)
}

/// The end of the run started at `s`, from column `c` on (before `end`).
pub open spec fn text_run_end(line: Seq<Cell>, custom: Seq<Option<CellColor>>, sel: Option<((usize, usize), (usize, usize))>, row: usize, s: int, c: int, end: int) -> int
    decreases end - c,
{
    if c < end && same_style(line, custom, sel, row, s, c) { text_run_end(line, custom, sel, row, s, c + 1, end) } else { c }
}

/// The text runs of the columns `col..end`: blank cells before a run are
/// skipped; a run takes every following cell of the same style, blanks
/// included, so that a line of uniform style is drawn in one call.
pub open spec fn text_spans_from(line: Seq<Cell>, custom: Seq<Option<CellColor>>, sel: Option<((usize, usize), (usize, usize))>, row: usize, col: int, end: int) -> Seq<TextSpan>
    decreases end - col, 1int,
{
    if col >= end || col < 0 {
        seq![]
    } else if is_blank_cell(line[col]) {
        text_spans_from(line, custom, sel, row, col + 1, end)
    } else {
        let e = text_run_end(line, custom, sel, row, col, col + 1, end);
        if e <= col || e > end { seq![] } else {
            seq![TextSpan {
                start: col as usize,
                end: e as usize,
                fg: text_fg(line, custom, sel, row, col),
                bold: line[col].bold,
                underline: line[col].underline,
            }] + text_spans_from(line, custom, sel, row, e, end)
        }
    }
}

proof fn lemma_text_run_end(line: Seq<Cell>, custom: Seq<Option<CellColor>>, sel: Option<((usize, usize), (usize, usize))>, row: usize, s: int, c: int, end: int)
    ensures
        c <= text_run_end(line, custom, sel, row, s, c, end),
        c <= end ==> text_run_end(line, custom, sel, row, s, c, end) <= end,
    decreases end - c,
{
    if c < end && same_style(line, custom, sel, row, s, c) {
        lemma_text_run_end(line, custom, sel, row, s, c + 1, end);
    }
}

proof fn lemma_text_run_all(line: Seq<Cell>, custom: Seq<Option<CellColor>>, sel: Option<((usize, usize), (usize, usize))>, row: usize, st: int, c: int, end: int, x: int)
    requires
        c <= x < text_run_end(line, custom, sel, row, st, c, end),
    ensures
        same_style(line, custom, sel, row, st, x),
        x < end,
    decreases end - c,
{
    if c < end && same_style(line, custom, sel, row, st, c) && x > c {
        lemma_text_run_all(line, custom, sel, row, st, c + 1, end, x);
    }
}

/// Column `x` is drawn by the run `sp` in its own style: its weight, its
/// underline and its text colour are the run's.
pub open spec fn run_draws(line: Seq<Cell>, custom: Seq<Option<CellColor>>, sel: Option<((usize, usize), (usize, usize))>, row: usize, sp: TextSpan, x: int) -> bool {
    &&& line[x].bold == sp.bold
    &&& line[x].underline == sp.underline
    &&& text_fg(line, custom, sel, row, x) == sp.fg
}

/// The runs `sp` lie in `lo..end`, in order without overlap, and draw each
/// of their columns in that column's own style.
pub open spec fn runs_fit(line: Seq<Cell>, custom: Seq<Option<CellColor>>, sel: Option<((usize, usize), (usize, usize))>, row: usize, sp: Seq<TextSpan>, lo: int, end: int) -> bool {
    &&& forall|k: int| 0 <= k < sp.len() ==> lo <= (#[trigger] sp[k]).start < sp[k].end <= end
    &&& forall|k: int| 0 <= k < sp.len() - 1 ==> (#[trigger] sp[k]).end <= sp[k + 1].start
    &&& forall|k: int, x: int| 0 <= k < sp.len() && sp[k].start <= x < sp[k].end ==>
            #[trigger] run_draws(line, custom, sel, row, sp[k], x)
}

proof fn lemma_runs_prepend(line: Seq<Cell>, custom: Seq<Option<CellColor>>, sel: Option<((usize, usize), (usize, usize))>, row: usize, first: TextSpan, rest: Seq<TextSpan>, lo: int, e: int, end: int)
    requires
        lo == first.start,
        e == first.end,
        lo < e <= end,
        runs_fit(line, custom, sel, row, rest, e, end),
        forall|x: int| lo <= x < e ==> run_draws(line, custom, sel, row, first, x),
    ensures
        runs_fit(line, custom, sel, row, seq![first] + rest, lo, end),
{
    let sp = seq![first] + rest;
    assert forall|k: int, x: int| 0 <= k < sp.len() && sp[k].start <= x < sp[k].end implies
        #[trigger] run_draws(line, custom, sel, row, sp[k], x) by {
        if k > 0 { assert(sp[k] == rest[k - 1]); }
    }
    assert forall|k: int| 0 <= k < sp.len() - 1 implies (#[trigger] sp[k]).end <= sp[k + 1].start by {
        if k > 0 { assert(sp[k] == rest[k - 1]); }
        assert(sp[k + 1] == rest[k]);
    }
    assert forall|k: int| 0 <= k < sp.len() implies lo <= (#[trigger] sp[k]).start < sp[k].end <= end by {
        if k > 0 { assert(sp[k] == rest[k - 1]); }
    }
}

proof fn lemma_runs_sound(line: Seq<Cell>, custom: Seq<Option<CellColor>>, sel: Option<((usize, usize), (usize, usize))>, row: usize, col: int, end: int)
    requires
        0 <= col,
        end <= usize::MAX,
    ensures
        runs_fit(line, custom, sel, row, text_spans_from(line, custom, sel, row, col, end), col, end),
    decreases end - col,
{
    if col >= end {
    } else if is_blank_cell(line[col]) {
        lemma_runs_sound(line, custom, sel, row, col + 1, end);
    } else {
        let e = text_run_end(line, custom, sel, row, col, col + 1, end);
        lemma_text_run_end(line, custom, sel, row, col, col + 1, end);
        lemma_runs_sound(line, custom, sel, row, e, end);
        let first = TextSpan {
            start: col as usize,
            end: e as usize,
            fg: text_fg(line, custom, sel, row, col),
            bold: line[col].bold,
            underline: line[col].underline,
        };
        assert forall|x: int| col <= x < e implies run_draws(line, custom, sel, row, first, x) by {
            if x > col { lemma_text_run_all(line, custom, sel, row, col, col + 1, end, x); }
        }
        lemma_runs_prepend(line, custom, sel, row, first, text_spans_from(line, custom, sel, row, e, end), col, e, end);
    }
}

proof fn lemma_runs_complete(line: Seq<Cell>, custom: Seq<Option<CellColor>>, sel: Option<((usize, usize), (usize, usize))>, row: usize, col: int, end: int, x: int)
    requires
        0 <= col <= x < end,
        end <= usize::MAX,
        !is_blank_cell(line[x]),
    ensures
        exists|k: int| 0 <= k < text_spans_from(line, custom, sel, row, col, end).len()
            && #[trigger] text_spans_from(line, custom, sel, row, col, end)[k].start <= x
            && x < text_spans_from(line, custom, sel, row, col, end)[k].end,
    decreases end - col,
{
    let sp = text_spans_from(line, custom, sel, row, col, end);
    if is_blank_cell(line[col]) {
        lemma_runs_complete(line, custom, sel, row, col + 1, end, x);
    } else {
        let e = text_run_end(line, custom, sel, row, col, col + 1, end);
        lemma_text_run_end(line, custom, sel, row, col, col + 1, end);
        let rest = text_spans_from(line, custom, sel, row, e, end);
        assert(sp[0].start == col && sp[0].end == e);
        if x >= e {
            lemma_runs_complete(line, custom, sel, row, e, end, x);
            let k = choose|k: int| 0 <= k < rest.len() && #[trigger] rest[k].start <= x && x < rest[k].end;
            assert(sp[k + 1] == rest[k]);
        }
    }
}

/// The text runs of a row draw every visible cell, each in its own style:
/// they lie before the end column, in order and without overlap; every
/// column of a run has the run's weight, underline and text colour (white
/// when selected, else the highlight colour, else the cell's own); and
/// every cell that shows something (not a blank or NUL without underline)
/// lies in a run.
pub proof fn law_text_runs_exact(line: Seq<Cell>, custom: Seq<Option<CellColor>>, sel: Option<((usize, usize), (usize, usize))>, row: usize, end: usize, x: int)
    ensures
        runs_fit(line, custom, sel, row, text_spans_from(line, custom, sel, row, 0, end as int), 0, end as int),
        (0 <= x < end && !is_blank_cell(line[x])) ==>
            exists|k: int| 0 <= k < text_spans_from(line, custom, sel, row, 0, end as int).len()
                && #[trigger] text_spans_from(line, custom, sel, row, 0, end as int)[k].start <= x
                && x < text_spans_from(line, custom, sel, row, 0, end as int)[k].end,
{
    lemma_runs_sound(line, custom, sel, row, 0, end as int);
    if 0 <= x < end && !is_blank_cell(line[x]) {
        lemma_runs_complete(line, custom, sel, row, 0, end as int, x);
    }
}

fn text_fg_exec(grid: &TerminalGrid, line: &Vec<Cell>, custom: &Vec<Option<CellColor>>, sel: Option<((usize, usize), (usize, usize))>, row: usize, col: usize) -> (c: CellColor)
    requires
        col < line@.len(),
        col < custom@.len(),
    ensures
        c == text_fg(line@, custom@, sel, row, col as int),
{
    if sel_at_exec(grid, sel, row, col) {
        CellColor::white()
    } else {
        match custom[col] {
            Some(c) => c,
            None => line[col].effective_fg(),
        }
    }
}

/// The text runs of the row `row` (absolute) whose cells are `line`, up to
/// column `end` (see `text_spans_from`).  `custom` holds the highlight
/// colour of each column.
pub fn text_spans(grid: &TerminalGrid, line: &Vec<Cell>, end: usize, custom: &Vec<Option<CellColor>>, row: usize, sel: Option<((usize, usize), (usize, usize))>) -> (spans: Vec<TextSpan>)
    requires
        end <= line@.len(),
        end <= custom@.len(),
    ensures
        spans@ == text_spans_from(line@, custom@, sel, row, 0, end as int),
{
    let mut spans: Vec<TextSpan> = Vec::new();
    let mut col: usize = 0;
    while col < end
        invariant
            col <= end,
            end <= line@.len(),
            end <= custom@.len(),
            spans@ + text_spans_from(line@, custom@, sel, row, col as int, end as int) == text_spans_from(line@, custom@, sel, row, 0, end as int),
        decreases end - col,
    {
        let cell = line[col];
        if (cell.ch == ' ' || cell.ch == '\0') && !cell.underline {
            col = col + 1;
        } else {
            let start = col;
            let fg = text_fg_exec(grid, line, custom, sel, row, start);
            let in_sel = sel_at_exec(grid, sel, row, start);
            col = col + 1;
            while col < end
                && line[col].bold == cell.bold
                && line[col].underline == cell.underline
                && text_fg_exec(grid, line, custom, sel, row, col) == fg
                && sel_at_exec(grid, sel, row, col) == in_sel
                invariant
                    start < col <= end,
                    end <= line@.len(),
                    end <= custom@.len(),
                    cell == line@[start as int],
                    fg == text_fg(line@, custom@, sel, row, start as int),
                    in_sel == sel_at(sel, row, start as int),
                    text_run_end(line@, custom@, sel, row, start as int, col as int, end as int)
                        == text_run_end(line@, custom@, sel, row, start as int, start + 1, end as int),
                decreases end - col,
            {
                col = col + 1;
            }
            proof { lemma_text_run_end(line@, custom@, sel, row, start as int, start + 1, end as int); }
            spans.push(TextSpan { start, end: col, fg, bold: cell.bold, underline: cell.underline });
            assert(spans@ + text_spans_from(line@, custom@, sel, row, col as int, end as int)
                =~= text_spans_from(line@, custom@, sel, row, 0, end as int));
        }
    }
    assert(spans@ =~= text_spans_from(line@, custom@, sel, row, 0, end as int));
    spans
}

// ─── Cursor ─────────────────────────────────────────────────────────────────

/// Where the cursor is drawn, as (screen row, column): only when it is
/// visible and falls inside the `rows` x `cols` view starting at row `top`.
pub open spec fn spec_cursor_cell(cursor_visible: bool, is_alt: bool, scrollback_len: nat, cursor_row: nat, cursor_col: nat, top: nat, rows: nat, cols: nat) -> Option<(nat, nat)> {
    let abs_row = if is_alt { cursor_row } else { scrollback_len + cursor_row };
    if cursor_visible && abs_row >= top && abs_row - top < rows && cursor_col < cols {
        Some(((abs_row - top) as nat, cursor_col))
    } else {
        None
    }
}

/// With the view at the live screen (no scroll back) a visible cursor is
/// drawn on its own screen row and column; with the view scrolled back `k`
/// rows into the scrollback (of the primary screen) it is drawn `k` rows
/// lower, and not at all once that falls below the view.  A hidden cursor
/// is never drawn.
pub proof fn law_cursor_follows_view(visible: bool, is_alt: bool, sb: nat, cr: nat, cc: nat, rows: nat, cols: nat, k: nat)
    requires
        cr < rows,
        cc < cols,
    ensures
        spec_cursor_cell(visible, is_alt, sb, cr, cc, spec_viewport_top(is_alt, sb, 0), rows, cols)
            == (if visible { Some((cr, cc)) } else { None }),
        (!is_alt && k <= sb) ==> spec_cursor_cell(visible, is_alt, sb, cr, cc, spec_viewport_top(is_alt, sb, k), rows, cols)
            == (if visible && cr + k < rows { Some(((cr + k) as nat, cc)) } else { None }),
{
}

/// Where the cursor is drawn (see `spec_cursor_cell`).
pub fn cursor_cell(grid: &TerminalGrid, top: usize) -> (r: Option<(usize, usize)>)
    ensures
        match r {
            Some((y, x)) => spec_cursor_cell(grid@.cursor_visible, grid@.is_alt_screen, grid@.scrollback.len(),
                grid@.cursor_row as nat, grid@.cursor_col as nat, top as nat, grid@.rows as nat, grid@.cols as nat) == Some((y as nat, x as nat)),
            None => spec_cursor_cell(grid@.cursor_visible, grid@.is_alt_screen, grid@.scrollback.len(),
                grid@.cursor_row as nat, grid@.cursor_col as nat, top as nat, grid@.rows as nat, grid@.cols as nat) is None,
        },
{
    let (cursor_row, cursor_col, visible) = grid.cursor_state();
    let rows = grid.num_rows();
    let cols = grid.num_cols();
    if !visible {
        return None;
    }
    let abs_row: u128 = if grid.alt_screen_active() {
        cursor_row as u128
    } else {
        grid.scrollback_len() as u128 + cursor_row as u128
    };
    if abs_row >= top as u128 && abs_row - (top as u128) < rows as u128 && cursor_col < cols {
        Some(((abs_row - top as u128) as usize, cursor_col))
    } else {
        None
    }
}

} // verus!
