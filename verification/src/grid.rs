//! The terminal grid: screen cells, scrollback, alternate screen, cursor and
//! modes, driven by the actions of a VT parser.

use vstd::prelude::*;
use crate::cell::{Cell, CellAttrs, CellColor, default_attrs, styled};
use crate::rows::{
    rv, blank_row, blank_rows, blank_line, set_cell, rows_remove_first, rows_push, rows_insert,
    rows_pop, rows_remove, rows_keep_last, rows_clear, rows_truncate, clear_cells, cleared, keep_last,
    fit_len,
};
use crate::grid_model::{
    GridModel, MouseMode, rows_wide, min_nat, is_cursor_move, moved_row, moved_col, row_is_blank,
    widen_row, widen_rows, last_content_below, non_blank_rows, active_bottom, refit_primary,
    pos_le, ordered, spec_in_selection, row_text, sat_sub,
};
use crate::text::{trim_end, trim_end_chars, string_from_chars};

verus! {

/// Complete state of the terminal grid: cells, cursor and SGR attributes.
pub struct TerminalGrid {
    /// Cells of the active screen (rows x at least cols).
    pub cells: Vec<Vec<Cell>>,
    pub cursor_row: usize,
    pub cursor_col: usize,
    pub rows: usize,
    pub cols: usize,
    /// Rows that left the top of the primary screen, oldest first.
    pub scrollback: Vec<Vec<Cell>>,
    pub current_attrs: CellAttrs,
    pub saved_cursor: (usize, usize),
    pub saved_attrs: CellAttrs,
    pub auto_wrap: bool,
    /// A wrap to the next line is due before the next printed character.
    pub pending_wrap: bool,
    pub max_scrollback: usize,
    /// Whether the alternate screen (full-screen programs) is active.
    pub is_alt_screen: bool,
    /// The inactive screen buffer.
    pub alt_cells: Vec<Vec<Cell>>,
    pub saved_primary_cursor: (usize, usize),
    pub saved_primary_attrs: CellAttrs,
    pub mouse_mode: MouseMode,
    pub sgr_mouse: bool,
    pub bracketed_paste: bool,
    pub cursor_visible: bool,
}

impl View for TerminalGrid {
    type V = GridModel;

    open spec fn view(&self) -> GridModel {
        GridModel {
            cells: rv(self.cells@),
            cursor_row: self.cursor_row,
            cursor_col: self.cursor_col,
            rows: self.rows,
            cols: self.cols,
            scrollback: rv(self.scrollback@),
            attrs: self.current_attrs,
            saved_cursor: self.saved_cursor,
            saved_attrs: self.saved_attrs,
            auto_wrap: self.auto_wrap,
            pending_wrap: self.pending_wrap,
            max_scrollback: self.max_scrollback,
            is_alt_screen: self.is_alt_screen,
            alt_cells: rv(self.alt_cells@),
            saved_primary_cursor: self.saved_primary_cursor,
            saved_primary_attrs: self.saved_primary_attrs,
            mouse_mode: self.mouse_mode,
            sgr_mouse: self.sgr_mouse,
            bracketed_paste: self.bracketed_paste,
            cursor_visible: self.cursor_visible,
        }
    }
}

impl TerminalGrid {
    /// The number of scrollback rows.
    pub fn scrollback_len(&self) -> (n: usize)
        ensures
            n == self@.scrollback.len(),
    {
        self.scrollback.len()
    }

    /// Whether the alternate screen is active.
    pub fn alt_screen_active(&self) -> (b: bool)
        ensures
            b == self@.is_alt_screen,
    {
        self.is_alt_screen
    }

    /// The mouse reporting mode the remote program asked for.
    pub fn mouse_mode_now(&self) -> (m: MouseMode)
        ensures
            m == self@.mouse_mode,
    {
        self.mouse_mode
    }

    /// The cursor as (row, column) of the screen, and whether it is shown.
    pub fn cursor_state(&self) -> (r: (usize, usize, bool))
        ensures
            r == (self@.cursor_row, self@.cursor_col, self@.cursor_visible),
    {
        (self.cursor_row, self.cursor_col, self.cursor_visible)
    }

    /// The grid keeps its well-formedness between operations.
    pub open spec fn wf(&self) -> bool {
        self@.model_wf()
    }

    /// Creates a blank grid of `rows` x `cols` cells keeping at most
    /// `max_scrollback` rows of scrollback.
    pub fn new(rows: usize, cols: usize, max_scrollback: usize) -> (g: TerminalGrid)
        ensures
            g@ == GridModel::initial(rows, cols, max_scrollback),
            rows > 0 && cols > 0 ==> g.wf(),
    {
        let cells = blank_screen(rows, cols);
        let alt = blank_screen(rows, cols);
        let g = TerminalGrid {
            cells,
            cursor_row: 0,
            cursor_col: 0,
            rows,
            cols,
            scrollback: Vec::new(),
            current_attrs: CellAttrs::default(),
            saved_cursor: (0, 0),
            saved_attrs: CellAttrs::default(),
            auto_wrap: true,
            pending_wrap: false,
            max_scrollback,
            is_alt_screen: false,
            alt_cells: alt,
            saved_primary_cursor: (0, 0),
            saved_primary_attrs: CellAttrs::default(),
            mouse_mode: MouseMode::Off,
            sgr_mouse: false,
            bracketed_paste: false,
            cursor_visible: true,
        };
        assert(rv(g.scrollback@) =~= Seq::<Seq<Cell>>::empty());
        assert(g@ =~= GridModel::initial(rows, cols, max_scrollback));
        g
    }
}


/// Scrolls the rows of `cells` up `n` times: each time the top row leaves
/// (and is appended to `sb` when `keep`) and a blank row of `cols` cells
/// enters at the bottom.
fn scroll_rows_up(cells: &mut Vec<Vec<Cell>>, sb: &mut Vec<Vec<Cell>>, n: usize, cols: usize, keep: bool)
    requires
        old(cells)@.len() > 0,
    ensures
        rv(final(cells)@) == (rv(old(cells)@) + blank_rows(n as nat, cols as nat)).skip(n as int),
        rv(final(sb)@) == if keep {
            rv(old(sb)@) + (rv(old(cells)@) + blank_rows(n as nat, cols as nat)).take(n as int)
        } else {
            rv(old(sb)@)
        },
{
    let ghost all = rv(old(cells)@) + blank_rows(n as nat, cols as nat);
    let ghost len = old(cells)@.len();
    let mut k: usize = 0;
    while k < n
        invariant
            k <= n,
            len > 0,
            all == rv(old(cells)@) + blank_rows(n as nat, cols as nat),
            len == old(cells)@.len(),
            rv(cells@) == all.subrange(k as int, k + len),
            cells@.len() == len,
            rv(sb@) == if keep { rv(old(sb)@) + all.take(k as int) } else { rv(old(sb)@) },
        decreases n - k,
    {
        let row = rows_remove_first(cells);
        if keep {
            rows_push(sb, row);
        }
        rows_push(cells, blank_line(cols));
        assert(all[k + len] == blank_row(cols as nat));
        k = k + 1;
        assert(rv(cells@) =~= all.subrange(k as int, k + len));
        if keep {
            assert(rv(sb@) =~= rv(old(sb)@) + all.take(k as int));
        }
    }
    assert(all.subrange(n as int, n + len) =~= all.skip(n as int));
}

impl TerminalGrid {
    /// Scrolls the screen up `n` rows (see `GridModel::scroll_up`).
    fn scroll_up(&mut self, n: usize)
        requires
            old(self).wf(),
        ensures
            final(self)@ == old(self)@.scroll_up(n as nat),
            final(self).wf(),
    {
        let keep = !self.is_alt_screen && self.max_scrollback > 0;
        let cols = self.cols;
        scroll_rows_up(&mut self.cells, &mut self.scrollback, n, cols, keep);
        if keep && self.scrollback.len() > self.max_scrollback {
            let m = self.max_scrollback;
            rows_keep_last(&mut self.scrollback, m);
        } else if self.max_scrollback == 0 {
            rows_clear(&mut self.scrollback);
        }
        proof {
            let o = old(self)@;
            let all = o.cells + blank_rows(n as nat, o.cols as nat);
            assert(self@ =~= o.scroll_up(n as nat));
            assert forall|i: int| 0 <= i < self@.cells.len() implies #[trigger] self@.cells[i].len() >= self.cols by {
                assert(self@.cells[i] == all[i + n]);
                if i + n < o.rows {
                } else {
                    assert(all[i + n] == blank_row(o.cols as nat));
                }
            }
            assert forall|i: int| 0 <= i < self@.scrollback.len() implies #[trigger] self@.scrollback[i].len() >= self.cols by {
                let sb = o.scrollback + all.take(n as int);
                if keep {
                    let sk = keep_last(sb, o.max_scrollback as nat);
                    if sb.len() > o.max_scrollback {
                        assert(sk[i] == sb[i + (sb.len() - o.max_scrollback)]);
                    }
                    let j = if sb.len() > o.max_scrollback { i + (sb.len() - o.max_scrollback) } else { i };
                    assert(self@.scrollback[i] == sb[j]);
                    if j < o.scrollback.len() {
                    } else {
                        assert(sb[j] == all[j - o.scrollback.len()]);
                        if j - o.scrollback.len() < o.rows {
                        } else {
                            assert(all[j - o.scrollback.len()] == blank_row(o.cols as nat));
                        }
                    }
                }
            }
        }
    }

    /// Line feed (see `GridModel::line_feed`).
    fn lf(&mut self)
        requires
            old(self).wf(),
        ensures
            final(self)@ == old(self)@.line_feed(),
            final(self).wf(),
    {
        if self.cursor_row + 1 < self.rows {
            self.cursor_row = self.cursor_row + 1;
        } else {
            self.scroll_up(1);
        }
    }

    /// Prints `c` at the cursor (see `GridModel::put_char`).
    fn put_char(&mut self, c: char)
        requires
            old(self).wf(),
        ensures
            final(self)@ == old(self)@.put_char(c),
            final(self).wf(),
    {
        if self.pending_wrap {
            self.pending_wrap = false;
            self.cursor_col = 0;
            self.lf();
        }
        if self.cursor_col < self.cols {
            let row = self.cursor_row;
            let col = self.cursor_col;
            let a = self.current_attrs;
            proof {
                assert(self@.cells[row as int].len() >= self.cols);
            }
            set_cell(&mut self.cells, row, col, styled(c, a));
            self.cursor_col = self.cursor_col + 1;
            if self.cursor_col == self.cols && self.auto_wrap {
                self.pending_wrap = true;
                self.cursor_col = self.cols - 1;
            }
        }
        proof {
            assert(self@ =~= old(self)@.put_char(c));
        }
    }

    /// Print action of the VT parser: writes `c` at the cursor.
    pub fn print(&mut self, c: char)
        requires
            old(self).wf(),
        ensures
            final(self)@ == old(self)@.put_char(c),
            final(self).wf(),
    {
        self.put_char(c);
    }
}


/// Scrolls the rows of `cells` down `n` times: each time the bottom row is
/// lost and a blank row of `cols` cells enters at the top.
fn scroll_rows_down(cells: &mut Vec<Vec<Cell>>, n: usize, cols: usize)
    requires
        old(cells)@.len() > 0,
    ensures
        rv(final(cells)@) == blank_rows(min_nat(n as int, old(cells)@.len() as int) as nat, cols as nat)
            + rv(old(cells)@).take(old(cells)@.len() - min_nat(n as int, old(cells)@.len() as int)),
{
    let ghost orig = rv(old(cells)@);
    let ghost len = old(cells)@.len();
    let mut k: usize = 0;
    while k < n
        invariant
            k <= n,
            len > 0,
            orig == rv(old(cells)@),
            len == old(cells)@.len(),
            cells@.len() == len,
            rv(cells@) == blank_rows(min_nat(k as int, len as int) as nat, cols as nat)
                + orig.take(len - min_nat(k as int, len as int)),
        decreases n - k,
    {
        let _ = rows_pop(cells);
        rows_insert(cells, 0, blank_line(cols));
        k = k + 1;
        assert(rv(cells@) =~= blank_rows(min_nat(k as int, len as int) as nat, cols as nat)
            + orig.take(len - min_nat(k as int, len as int)));
    }
}

/// Blanks every cell of the rows `from..to` of `cells`.
fn clear_whole_rows(cells: &mut Vec<Vec<Cell>>, from: usize, to: usize)
    requires
        to <= old(cells)@.len(),
    ensures
        rv(final(cells)@) == Seq::new(old(cells)@.len(), |i: int|
            if from <= i < to { cleared(rv(old(cells)@)[i], 0, rv(old(cells)@)[i].len() as int) }
            else { rv(old(cells)@)[i] }),
{
    let ghost orig = rv(old(cells)@);
    let mut r = from;
    while r < to
        invariant
            to <= cells@.len(),
            cells@.len() == orig.len(),
            orig == rv(old(cells)@),
            from <= r,
            from <= to ==> r <= to,
            from > to ==> r == from,
            rv(cells@) == Seq::new(orig.len(), |i: int|
                if from <= i < r { cleared(orig[i], 0, orig[i].len() as int) } else { orig[i] }),
        decreases to - r,
    {
        let len = cells[r].len();
        let ghost before = rv(cells@);
        assert(before[r as int] == orig[r as int]);
        clear_cells(cells, r, 0, len);
        r = r + 1;
        assert(rv(cells@) =~= Seq::new(orig.len(), |i: int|
            if from <= i < r { cleared(orig[i], 0, orig[i].len() as int) } else { orig[i] }));
    }
    assert(rv(cells@) =~= Seq::new(orig.len(), |i: int|
        if from <= i < to { cleared(orig[i], 0, orig[i].len() as int) } else { orig[i] }));
}

impl TerminalGrid {
    /// Scrolls the screen down `n` rows (see `GridModel::scroll_down`).
    fn scroll_down(&mut self, n: usize)
        requires
            old(self).wf(),
        ensures
            final(self)@ == old(self)@.scroll_down(n as nat),
            final(self).wf(),
    {
        let cols = self.cols;
        scroll_rows_down(&mut self.cells, n, cols);
        proof {
            let o = old(self)@;
            assert(self@ =~= o.scroll_down(n as nat));
            let m = min_nat(n as int, o.rows as int);
            assert forall|i: int| 0 <= i < self@.cells.len() implies #[trigger] self@.cells[i].len() >= self.cols by {
                if i < m {
                    assert(self@.cells[i] == blank_row(o.cols as nat));
                } else {
                    assert(self@.cells[i] == o.cells[i - m]);
                }
            }
        }
    }

    /// Blanks the cells `from..to` of screen row `r` (see `GridModel::clear_in_row`).
    fn clear_span(&mut self, r: usize, from: usize, to: usize)
        requires
            old(self).wf(),
            r < old(self)@.rows,
        ensures
            final(self)@ == old(self)@.clear_in_row(r as int, from as int, to as int),
            final(self).wf(),
    {
        proof {
            assert(self@.cells[r as int].len() >= self.cols);
        }
        let len = self.cells[r].len();
        let end = if to < len { to } else { len };
        clear_cells(&mut self.cells, r, from, end);
        proof {
            let o = old(self)@;
            assert(cleared(o.cells[r as int], from as int, end as int) =~= cleared(o.cells[r as int], from as int, to as int));
            assert(self@ =~= o.clear_in_row(r as int, from as int, to as int));
            assert forall|i: int| 0 <= i < self@.cells.len() implies #[trigger] self@.cells[i].len() >= self.cols by {
                if i != r {
                    assert(self@.cells[i] == o.cells[i]);
                }
            }
        }
    }

    /// Erases from the cursor to the end of its row.
    fn clear_to_end_of_line(&mut self)
        requires
            old(self).wf(),
        ensures
            final(self)@ == old(self)@.clear_to_end_of_line(),
            final(self).wf(),
    {
        let r = self.cursor_row;
        let len = self.cells[r].len();
        let c = self.cursor_col;
        self.clear_span(r, c, len);
    }

    /// Erases from the start of the cursor row through the cursor.
    fn clear_to_start_of_line(&mut self)
        requires
            old(self).wf(),
        ensures
            final(self)@ == old(self)@.clear_to_start_of_line(),
            final(self).wf(),
    {
        let r = self.cursor_row;
        let c = if self.cursor_col < self.cols - 1 { self.cursor_col } else { self.cols - 1 };
        self.clear_span(r, 0, c + 1);
    }

    /// Erases the whole of screen row `row`.
    fn clear_line(&mut self, row: usize)
        requires
            old(self).wf(),
            row < old(self)@.rows,
        ensures
            final(self)@ == old(self)@.clear_line(row as int),
            final(self).wf(),
    {
        let len = self.cells[row].len();
        self.clear_span(row, 0, len);
    }

    /// Erases the screen rows `from..to`.
    fn clear_rows(&mut self, from: usize, to: usize)
        requires
            old(self).wf(),
            to <= old(self)@.rows,
        ensures
            final(self)@ == old(self)@.clear_rows(from as int, to as int),
            final(self).wf(),
    {
        clear_whole_rows(&mut self.cells, from, to);
        proof {
            let o = old(self)@;
            assert(self@ =~= o.clear_rows(from as int, to as int));
            assert forall|i: int| 0 <= i < self@.cells.len() implies #[trigger] self@.cells[i].len() >= self.cols by {
                assert(o.cells[i].len() >= o.cols);
            }
        }
    }

    /// Erases from the cursor to the end of the screen.
    fn clear_to_end_of_screen(&mut self)
        requires
            old(self).wf(),
        ensures
            final(self)@ == old(self)@.clear_to_end_of_screen(),
            final(self).wf(),
    {
        self.clear_to_end_of_line();
        let r = self.cursor_row;
        let rows = self.rows;
        self.clear_rows(r + 1, rows);
    }

    /// Erases from the start of the screen through the cursor.
    fn clear_to_start_of_screen(&mut self)
        requires
            old(self).wf(),
        ensures
            final(self)@ == old(self)@.clear_to_start_of_screen(),
            final(self).wf(),
    {
        let r = self.cursor_row;
        self.clear_rows(0, r);
        self.clear_to_start_of_line();
    }

    /// Erases the whole screen.
    fn clear_all(&mut self)
        requires
            old(self).wf(),
        ensures
            final(self)@ == old(self)@.clear_all(),
            final(self).wf(),
    {
        let rows = self.rows;
        self.clear_rows(0, rows);
    }

    /// Clamps the cursor into the screen.
    fn clamp_cursor(&mut self)
        ensures
            final(self)@ == (GridModel {
                cursor_row: min_nat(old(self)@.cursor_row as int, if old(self)@.rows > 0 { old(self)@.rows - 1 } else { 0 }) as usize,
                cursor_col: min_nat(old(self)@.cursor_col as int, if old(self)@.cols > 0 { old(self)@.cols - 1 } else { 0 }) as usize,
                ..old(self)@
            }),
    {
        let max_r = if self.rows > 0 { self.rows - 1 } else { 0 };
        let max_c = if self.cols > 0 { self.cols - 1 } else { 0 };
        if self.cursor_row > max_r {
            self.cursor_row = max_r;
        }
        if self.cursor_col > max_c {
            self.cursor_col = max_c;
        }
        proof {
            assert(self@ =~= (GridModel {
                cursor_row: min_nat(old(self)@.cursor_row as int, max_r as int) as usize,
                cursor_col: min_nat(old(self)@.cursor_col as int, max_c as int) as usize,
                ..old(self)@
            }));
        }
    }

    /// Clears the screen and the scrollback and homes the cursor.
    pub fn reset(&mut self)
        requires
            old(self).wf(),
        ensures
            final(self)@ == old(self)@.reset(),
            final(self).wf(),
    {
        self.clear_all();
        rows_clear(&mut self.scrollback);
        self.cursor_row = 0;
        self.cursor_col = 0;
        proof {
            assert(self@ =~= old(self)@.reset());
        }
    }
}


/// A screen of `rows` blank rows of `cols` cells.
fn blank_screen(rows: usize, cols: usize) -> (v: Vec<Vec<Cell>>)
    ensures
        rv(v@) == blank_rows(rows as nat, cols as nat),
        v@.len() == rows,
{
    let mut v: Vec<Vec<Cell>> = Vec::new();
    let mut i: usize = 0;
    while i < rows
        invariant
            i <= rows,
            v@.len() == i,
            rv(v@) == blank_rows(i as nat, cols as nat),
        decreases rows - i,
    {
        rows_push(&mut v, blank_line(cols));
        i = i + 1;
        assert(rv(v@) =~= blank_rows(i as nat, cols as nat));
    }
    v
}

/// Inserts `n` blank rows of `cols` cells at row `r`, dropping rows pushed
/// past the end.
fn insert_rows_at(cells: &mut Vec<Vec<Cell>>, r: usize, n: usize, cols: usize)
    requires
        r < old(cells)@.len(),
    ensures
        rv(final(cells)@) == ({
            let o = rv(old(cells)@);
            let k = min_nat(n as int, o.len() - r);
            o.take(r as int) + blank_rows(k as nat, cols as nat) + o.subrange(r as int, o.len() - k)
        }),
{
    let ghost o = rv(old(cells)@);
    let ghost len = o.len();
    let mut i: usize = 0;
    while i < n
        invariant
            i <= n,
            r < len,
            o == rv(old(cells)@),
            len == o.len(),
            cells@.len() == len,
            rv(cells@) == o.take(r as int) + blank_rows(min_nat(i as int, len - r) as nat, cols as nat)
                + o.subrange(r as int, len - min_nat(i as int, len - r)),
        decreases n - i,
    {
        let _ = rows_pop(cells);
        rows_insert(cells, r, blank_line(cols));
        i = i + 1;
        assert(rv(cells@) =~= o.take(r as int) + blank_rows(min_nat(i as int, len - r) as nat, cols as nat)
            + o.subrange(r as int, len - min_nat(i as int, len - r)));
    }
}

/// Deletes `n` rows at row `r`; blank rows of `cols` cells enter at the end.
fn delete_rows_at(cells: &mut Vec<Vec<Cell>>, r: usize, n: usize, cols: usize)
    requires
        r < old(cells)@.len(),
    ensures
        rv(final(cells)@) == ({
            let o = rv(old(cells)@);
            let k = min_nat(n as int, o.len() - r);
            o.take(r as int) + o.subrange(r + k, o.len() as int) + blank_rows(k as nat, cols as nat)
        }),
{
    let ghost o = rv(old(cells)@);
    let ghost len = o.len();
    let mut i: usize = 0;
    while i < n
        invariant
            i <= n,
            r < len,
            o == rv(old(cells)@),
            len == o.len(),
            cells@.len() == len,
            rv(cells@) == o.take(r as int) + o.subrange(r + min_nat(i as int, len - r), len as int)
                + blank_rows(min_nat(i as int, len - r) as nat, cols as nat),
        decreases n - i,
    {
        if r < cells.len() {
            let _ = rows_remove(cells, r);
            rows_push(cells, blank_line(cols));
        }
        i = i + 1;
        assert(rv(cells@) =~= o.take(r as int) + o.subrange(r + min_nat(i as int, len - r), len as int)
            + blank_rows(min_nat(i as int, len - r) as nat, cols as nat));
    }
}

/// Deletes `n` cells at column `c` of `row`; blanks enter at its end.
fn delete_cells_at(row: &mut Vec<Cell>, c: usize, n: usize)
    requires
        c < old(row)@.len(),
    ensures
        final(row)@ == ({
            let o = old(row)@;
            let k = min_nat(n as int, o.len() - c);
            o.take(c as int) + o.subrange(c + k, o.len() as int) + blank_row(k as nat)
        }),
{
    let ghost o = row@;
    let ghost len = o.len();
    let mut i: usize = 0;
    while i < n
        invariant
            i <= n,
            c < len,
            o == old(row)@,
            len == o.len(),
            row@.len() == len,
            row@ == o.take(c as int) + o.subrange(c + min_nat(i as int, len - c), len as int)
                + blank_row(min_nat(i as int, len - c) as nat),
        decreases n - i,
    {
        if c < row.len() {
            let _ = row.remove(c);
            row.push(Cell::default());
        }
        i = i + 1;
        assert(row@ =~= o.take(c as int) + o.subrange(c + min_nat(i as int, len - c), len as int)
            + blank_row(min_nat(i as int, len - c) as nat));
    }
}

/// Inserts `n` blanks at column `c` of `row`, keeping the first `cols` cells.
fn insert_cells_at(row: &mut Vec<Cell>, c: usize, n: usize, cols: usize)
    requires
        c < cols,
        cols <= old(row)@.len(),
        n >= 1,
    ensures
        final(row)@ == ({
            let o = old(row)@;
            let k = min_nat(n as int, cols - c);
            o.take(c as int) + blank_row(k as nat) + o.subrange(c as int, cols - k)
        }),
{
    let ghost o = row@;
    let mut i: usize = 0;
    while i < n
        invariant
            i <= n,
            c < cols,
            cols <= o.len(),
            o == old(row)@,
            i == 0 ==> row@ == o,
            i > 0 ==> row@ == o.take(c as int) + blank_row(min_nat(i as int, cols - c) as nat)
                + o.subrange(c as int, cols - min_nat(i as int, cols - c)),
        decreases n - i,
    {
        row.insert(c, Cell::default());
        row.truncate(cols);
        i = i + 1;
        assert(row@ =~= o.take(c as int) + blank_row(min_nat(i as int, cols - c) as nat)
            + o.subrange(c as int, cols - min_nat(i as int, cols - c)));
    }
}

impl TerminalGrid {
    /// Returns the row of absolute index `abs_row`: scrollback rows first,
    /// then the screen (only the screen while the alternate screen is on).
    pub fn get_line(&self, abs_row: usize) -> (r: Option<&Vec<Cell>>)
        requires
            self.wf(),
        ensures
            match r {
                Some(l) => abs_row < self@.lines().len() && l@ == self@.lines()[abs_row as int],
                None => abs_row >= self@.lines().len(),
            },
    {
        if self.is_alt_screen {
            if abs_row < self.rows {
                Some(&self.cells[abs_row])
            } else {
                None
            }
        } else if abs_row < self.scrollback.len() {
            Some(&self.scrollback[abs_row])
        } else {
            let active_row = abs_row - self.scrollback.len();
            if active_row < self.rows {
                Some(&self.cells[active_row])
            } else {
                None
            }
        }
    }

    /// Number of columns of the screen.
    pub fn num_cols(&self) -> (c: usize)
        ensures
            c == self@.cols,
    {
        self.cols
    }

    /// Number of rows of the screen.
    pub fn num_rows(&self) -> (r: usize)
        ensures
            r == self@.rows,
    {
        self.rows
    }

    /// Switches to the alternate screen (see `GridModel::enter_alt_screen`).
    pub fn enter_alt_screen(&mut self)
        requires
            old(self).wf(),
        ensures
            final(self)@ == old(self)@.enter_alt_screen(),
            final(self).wf(),
    {
        if !self.is_alt_screen {
            self.is_alt_screen = true;
            self.saved_primary_cursor = (self.cursor_row, self.cursor_col);
            self.saved_primary_attrs = self.current_attrs;
            let first_len = if self.alt_cells.len() > 0 { self.alt_cells[0].len() } else { 0 };
            if self.alt_cells.len() != self.rows || first_len != self.cols {
                self.alt_cells = blank_screen(self.rows, self.cols);
            }
            std::mem::swap(&mut self.cells, &mut self.alt_cells);
            proof {
                assert forall|i: int| 0 <= i < self@.cells.len() implies #[trigger] self@.cells[i].len() >= self.cols by {
                    if self@.cells == blank_rows(self.rows as nat, self.cols as nat) {
                        assert(self@.cells[i] == blank_row(self.cols as nat));
                    }
                }
            }
            self.clear_all();
            self.cursor_row = 0;
            self.cursor_col = 0;
        }
        proof {
            assert(self@ =~= old(self)@.enter_alt_screen());
        }
    }

    /// Returns to the primary screen (see `GridModel::leave_alt_screen`).
    pub fn leave_alt_screen(&mut self)
        requires
            old(self).wf(),
        ensures
            final(self)@ == old(self)@.leave_alt_screen(),
            final(self).wf(),
    {
        if self.is_alt_screen {
            self.is_alt_screen = false;
            std::mem::swap(&mut self.cells, &mut self.alt_cells);
            let (r, c) = self.saved_primary_cursor;
            self.cursor_row = if r < self.rows { r } else { self.rows - 1 };
            self.cursor_col = if c < self.cols { c } else { self.cols - 1 };
            self.current_attrs = self.saved_primary_attrs;
        }
        proof {
            assert(self@ =~= old(self)@.leave_alt_screen());
        }
    }

    fn save_cursor(&mut self)
        requires
            old(self).wf(),
        ensures
            final(self)@ == old(self)@.save_cursor(),
            final(self).wf(),
    {
        self.saved_cursor = (self.cursor_row, self.cursor_col);
        self.saved_attrs = self.current_attrs;
        proof {
            assert(self@ =~= old(self)@.save_cursor());
        }
    }

    fn restore_cursor(&mut self)
        requires
            old(self).wf(),
        ensures
            final(self)@ == old(self)@.restore_cursor(),
            final(self).wf(),
    {
        let (r, c) = self.saved_cursor;
        self.cursor_row = if r < self.rows { r } else { self.rows - 1 };
        self.cursor_col = if c < self.cols { c } else { self.cols - 1 };
        self.current_attrs = self.saved_attrs;
        proof {
            assert(self@ =~= old(self)@.restore_cursor());
        }
    }

    /// Applies SGR parameters to the current attributes.
    fn apply_sgr(&mut self, ps: &Vec<u16>)
        requires
            old(self).wf(),
        ensures
            final(self)@ == old(self)@.sgr(ps@),
            final(self).wf(),
    {
        self.current_attrs = crate::cell::apply_sgr_params(self.current_attrs, ps);
        proof {
            assert(self@ =~= old(self)@.sgr(ps@));
        }
    }

    fn set_mode(&mut self, p: u16, on: bool)
        requires
            old(self).wf(),
        ensures
            final(self)@ == old(self)@.set_mode(p, on),
            final(self).wf(),
    {
        if p == 1049 || p == 1047 || p == 47 {
            if on { self.enter_alt_screen(); } else { self.leave_alt_screen(); }
        } else if p == 1000 {
            self.mouse_mode = if on { MouseMode::Normal } else { MouseMode::Off };
        } else if p == 1002 {
            self.mouse_mode = if on { MouseMode::ButtonEvent } else { MouseMode::Off };
        } else if p == 1003 {
            self.mouse_mode = if on { MouseMode::AnyEvent } else { MouseMode::Off };
        } else if p == 1006 {
            self.sgr_mouse = on;
        } else if p == 2004 {
            self.bracketed_paste = on;
        } else if p == 25 {
            self.cursor_visible = on;
        }
        proof {
            assert(self@ =~= old(self)@.set_mode(p, on));
        }
    }

    fn set_modes(&mut self, ps: &Vec<u16>, on: bool)
        requires
            old(self).wf(),
        ensures
            final(self)@ == old(self)@.set_modes(ps@, 0, on),
            final(self).wf(),
    {
        let mut i: usize = 0;
        while i < ps.len()
            invariant
                self.wf(),
                i <= ps@.len(),
                self@.set_modes(ps@, i as int, on) == old(self)@.set_modes(ps@, 0, on),
            decreases ps@.len() - i,
        {
            let p = ps[i];
            self.set_mode(p, on);
            i = i + 1;
        }
    }
}


impl TerminalGrid {
    fn insert_lines(&mut self, n: usize)
        requires
            old(self).wf(),
        ensures
            final(self)@ == old(self)@.insert_lines(n as int),
            final(self).wf(),
    {
        let r = self.cursor_row;
        let cols = self.cols;
        insert_rows_at(&mut self.cells, r, n, cols);
        proof {
            let o = old(self)@;
            assert(self@ =~= o.insert_lines(n as int));
            let k = min_nat(n as int, o.rows - r);
            assert forall|i: int| 0 <= i < self@.cells.len() implies #[trigger] self@.cells[i].len() >= self.cols by {
                if i < r {
                    assert(self@.cells[i] == o.cells[i]);
                } else if i < r + k {
                    assert(self@.cells[i] == blank_row(o.cols as nat));
                } else {
                    assert(self@.cells[i] == o.cells[i - k]);
                }
            }
        }
    }

    fn delete_lines(&mut self, n: usize)
        requires
            old(self).wf(),
        ensures
            final(self)@ == old(self)@.delete_lines(n as int),
            final(self).wf(),
    {
        let r = self.cursor_row;
        let cols = self.cols;
        delete_rows_at(&mut self.cells, r, n, cols);
        proof {
            let o = old(self)@;
            assert(self@ =~= o.delete_lines(n as int));
            let k = min_nat(n as int, o.rows - r);
            assert forall|i: int| 0 <= i < self@.cells.len() implies #[trigger] self@.cells[i].len() >= self.cols by {
                if i < r {
                    assert(self@.cells[i] == o.cells[i]);
                } else if i < o.rows - k {
                    assert(self@.cells[i] == o.cells[i + k]);
                } else {
                    assert(self@.cells[i] == blank_row(o.cols as nat));
                }
            }
        }
    }

    fn delete_chars(&mut self, n: usize)
        requires
            old(self).wf(),
        ensures
            final(self)@ == old(self)@.delete_chars(n as int),
            final(self).wf(),
    {
        let r = self.cursor_row;
        let c = self.cursor_col;
        proof {
            assert(self@.cells[r as int].len() >= self.cols);
        }
        let mut line: Vec<Cell> = Vec::new();
        std::mem::swap(&mut line, &mut self.cells[r]);
        delete_cells_at(&mut line, c, n);
        std::mem::swap(&mut line, &mut self.cells[r]);
        proof {
            let o = old(self)@;
            assert(self@.cells =~= o.delete_chars(n as int).cells);
            assert(self@ =~= o.delete_chars(n as int));
            assert forall|i: int| 0 <= i < self@.cells.len() implies #[trigger] self@.cells[i].len() >= self.cols by {
                if i != r {
                    assert(self@.cells[i] == o.cells[i]);
                }
            }
        }
    }

    fn insert_chars(&mut self, n: usize)
        requires
            old(self).wf(),
            n >= 1,
        ensures
            final(self)@ == old(self)@.insert_chars(n as int),
            final(self).wf(),
    {
        let r = self.cursor_row;
        let c = self.cursor_col;
        let cols = self.cols;
        proof {
            assert(self@.cells[r as int].len() >= self.cols);
        }
        let mut line: Vec<Cell> = Vec::new();
        std::mem::swap(&mut line, &mut self.cells[r]);
        insert_cells_at(&mut line, c, n, cols);
        std::mem::swap(&mut line, &mut self.cells[r]);
        proof {
            let o = old(self)@;
            assert(self@.cells =~= o.insert_chars(n as int).cells);
            assert(self@ =~= o.insert_chars(n as int));
            assert forall|i: int| 0 <= i < self@.cells.len() implies #[trigger] self@.cells[i].len() >= self.cols by {
                if i != r {
                    assert(self@.cells[i] == o.cells[i]);
                }
            }
        }
    }

    /// Execute action of the VT parser: a C0 control character
    /// (see `GridModel::execute`).
    pub fn execute(&mut self, byte: u8)
        requires
            old(self).wf(),
        ensures
            final(self)@ == old(self)@.execute(byte),
            final(self).wf(),
    {
        self.pending_wrap = false;
        if byte == 0x08 {
            if self.cursor_col > 0 {
                self.cursor_col = self.cursor_col - 1;
            }
        } else if byte == 0x09 {
            let base = self.cursor_col - self.cursor_col % 8;
            if self.cols - 1 - base < 8 {
                self.cursor_col = self.cols - 1;
            } else {
                self.cursor_col = base + 8;
            }
        } else if byte == 0x0A || byte == 0x0B || byte == 0x0C {
            self.lf();
        } else if byte == 0x0D {
            self.cursor_col = 0;
        }
        proof {
            assert(self@ =~= old(self)@.execute(byte));
        }
    }

    #[verifier::rlimit(50)]
    fn csi_move(&mut self, ps: &Vec<u16>, private: bool, action: char)
        requires
            old(self).wf(),
            is_cursor_move(action),
        ensures
            final(self)@ == old(self)@.csi(ps@, private, action),
            final(self).wf(),
    {
        let p1: usize = if ps.len() > 0 { ps[0] as usize } else { 0 };
        let p2: usize = if ps.len() > 1 { ps[1] as usize } else { 0 };
        let n: usize = if p1 > 1 { p1 } else { 1 };
        let last_row = self.rows - 1;
        let last_col = self.cols - 1;
        let row = self.cursor_row;
        let col = self.cursor_col;
        let new_row = if action == 'A' || action == 'F' {
            if row > n { row - n } else { 0 }
        } else if action == 'B' || action == 'E' {
            if n > last_row - row { last_row } else { row + n }
        } else if action == 'H' || action == 'f' || action == 'd' {
            let t = if p1 > 1 { p1 - 1 } else { 0 };
            if t < last_row { t } else { last_row }
        } else {
            row
        };
        let new_col = if action == 'C' {
            if n > last_col - col { last_col } else { col + n }
        } else if action == 'D' {
            if col > n { col - n } else { 0 }
        } else if action == 'E' || action == 'F' {
            0
        } else if action == 'G' {
            let t = if p1 > 1 { p1 - 1 } else { 0 };
            if t < last_col { t } else { last_col }
        } else if action == 'H' || action == 'f' {
            let t = if p2 > 1 { p2 - 1 } else { 0 };
            if t < last_col { t } else { last_col }
        } else {
            col
        };
        assert(new_row == moved_row(row as int, self.rows as int, p1 as int, n as int, action));
        assert(new_col == moved_col(col as int, self.cols as int, p1 as int, p2 as int, n as int, action));
        self.pending_wrap = false;
        self.cursor_row = new_row;
        self.cursor_col = new_col;
        proof {
            assert(self@ =~= old(self)@.csi(ps@, private, action));
        }
    }

    fn csi_erase(&mut self, ps: &Vec<u16>, private: bool, action: char)
        requires
            old(self).wf(),
            action == 'J' || action == 'K' || action == 'X',
        ensures
            final(self)@ == old(self)@.csi(ps@, private, action),
            final(self).wf(),
    {
        let p1: usize = if ps.len() > 0 { ps[0] as usize } else { 0 };
        let n: usize = if p1 > 1 { p1 } else { 1 };
        self.pending_wrap = false;
        let ghost m = self@;
        if action == 'J' {
            if p1 == 0 {
                self.clear_to_end_of_screen();
            } else if p1 == 1 {
                self.clear_to_start_of_screen();
            } else if p1 == 2 || p1 == 3 {
                self.clear_all();
            }
        } else if action == 'K' {
            if p1 == 0 {
                self.clear_to_end_of_line();
            } else if p1 == 1 {
                self.clear_to_start_of_line();
            } else if p1 == 2 {
                let r = self.cursor_row;
                self.clear_line(r);
            }
        } else {
            let r = self.cursor_row;
            let c = self.cursor_col;
            let end = if n > self.cols - c { self.cols } else { c + n };
            self.clear_span(r, c, end);
        }
        proof {
            assert(self@ =~= old(self)@.csi(ps@, private, action));
        }
    }

    fn csi_edit(&mut self, ps: &Vec<u16>, private: bool, action: char)
        requires
            old(self).wf(),
            action == 'L' || action == 'M' || action == 'P' || action == '@' || action == 'S' || action == 'T',
        ensures
            final(self)@ == old(self)@.csi(ps@, private, action),
            final(self).wf(),
    {
        let p1: usize = if ps.len() > 0 { ps[0] as usize } else { 0 };
        let n: usize = if p1 > 1 { p1 } else { 1 };
        self.pending_wrap = false;
        if action == 'L' {
            self.insert_lines(n);
        } else if action == 'M' {
            self.delete_lines(n);
        } else if action == 'P' {
            self.delete_chars(n);
        } else if action == '@' {
            self.insert_chars(n);
        } else if action == 'S' {
            self.scroll_up(n);
        } else {
            self.scroll_down(n);
        }
    }

    fn csi_state(&mut self, ps: &Vec<u16>, private: bool, action: char)
        requires
            old(self).wf(),
            !(action == 'A' || action == 'B' || action == 'C' || action == 'D' || action == 'E'
                || action == 'F' || action == 'G' || action == 'H' || action == 'f' || action == 'd'),
            !(action == 'J' || action == 'K' || action == 'X'),
            !(action == 'L' || action == 'M' || action == 'P' || action == '@' || action == 'S' || action == 'T'),
        ensures
            final(self)@ == old(self)@.csi(ps@, private, action),
            final(self).wf(),
    {
        self.pending_wrap = false;
        if action == 'm' {
            self.apply_sgr(ps);
        } else if action == 's' {
            self.save_cursor();
        } else if action == 'u' {
            self.restore_cursor();
        } else if action == 'h' {
            if private {
                self.set_modes(ps, true);
            }
        } else if action == 'l' {
            if private {
                self.set_modes(ps, false);
            }
        }
        proof {
            assert(self@ =~= old(self)@.csi(ps@, private, action));
        }
    }

    /// CSI dispatch action of the VT parser: `ps` holds the first value of
    /// each parameter group, `private` whether the sequence carries the `?`
    /// marker (see `GridModel::csi`).
    pub fn csi_dispatch(&mut self, ps: &Vec<u16>, private: bool, action: char)
        requires
            old(self).wf(),
        ensures
            final(self)@ == old(self)@.csi(ps@, private, action),
            final(self).wf(),
    {
        if action == 'A' || action == 'B' || action == 'C' || action == 'D' || action == 'E'
            || action == 'F' || action == 'G' || action == 'H' || action == 'f' || action == 'd' {
            assert(is_cursor_move(action));
            self.csi_move(ps, private, action);
        } else if action == 'J' || action == 'K' || action == 'X' {
            self.csi_erase(ps, private, action);
        } else if action == 'L' || action == 'M' || action == 'P' || action == '@' || action == 'S' || action == 'T' {
            self.csi_edit(ps, private, action);
        } else {
            self.csi_state(ps, private, action);
        }
    }

    /// ESC dispatch action of the VT parser (see `GridModel::esc`).
    pub fn esc_dispatch(&mut self, byte: u8)
        requires
            old(self).wf(),
        ensures
            final(self)@ == old(self)@.esc(byte),
            final(self).wf(),
    {
        self.pending_wrap = false;
        if byte == 0x37 {
            self.save_cursor();
        } else if byte == 0x38 {
            self.restore_cursor();
        } else if byte == 0x4D {
            if self.cursor_row == 0 {
                self.scroll_down(1);
            } else {
                self.cursor_row = self.cursor_row - 1;
            }
        } else if byte == 0x63 {
            *self = TerminalGrid::new(self.rows, self.cols, self.max_scrollback);
        }
        proof {
            assert(self@ =~= old(self)@.esc(byte));
        }
    }
}


/// Whether every cell of `row` looks blank.
fn row_blank(row: &Vec<Cell>) -> (b: bool)
    ensures
        b == row_is_blank(row@),
{
    let mut i: usize = 0;
    while i < row.len()
        invariant
            i <= row@.len(),
            forall|j: int| 0 <= j < i ==> (#[trigger] row@[j]).spec_is_default_empty(),
        decreases row@.len() - i,
    {
        if !row[i].is_default_empty() {
            return false;
        }
        i = i + 1;
    }
    true
}

/// Index of the last row of `v` that is not blank.
fn last_content_row(v: &Vec<Vec<Cell>>) -> (r: Option<usize>)
    ensures
        match r {
            Some(i) => i as int == last_content_below(rv(v@), v@.len() as int),
            None => last_content_below(rv(v@), v@.len() as int) == -1,
        },
{
    let mut i: usize = v.len();
    while i > 0
        invariant
            i <= v@.len(),
            last_content_below(rv(v@), v@.len() as int) == last_content_below(rv(v@), i as int),
        decreases i,
    {
        if !row_blank(&v[i - 1]) {
            return Some(i - 1);
        }
        i = i - 1;
    }
    None
}

/// Widens every row of `v` with blanks to at least `cols` cells.
fn widen_all(v: &mut Vec<Vec<Cell>>, cols: usize)
    ensures
        rv(final(v)@) == widen_rows(rv(old(v)@), cols as nat),
        final(v)@.len() == old(v)@.len(),
{
    let ghost o = rv(old(v)@);
    let mut i: usize = 0;
    while i < v.len()
        invariant
            i <= v@.len(),
            v@.len() == o.len(),
            o == rv(old(v)@),
            rv(v@) == Seq::new(o.len(), |j: int| if j < i { widen_row(o[j], cols as nat) } else { o[j] }),
        decreases v@.len() - i,
    {
        proof {
            assert(rv(v@)[i as int] == v@[i as int]@);
        }
        let ghost pre = v@;
        let mut line: Vec<Cell> = Vec::new();
        std::mem::swap(&mut line, &mut v[i]);
        proof {
            assert(line@ == o[i as int]);
        }
        if line.len() < cols {
            line.resize(cols, Cell::default());
            assert(line@ =~= widen_row(o[i as int], cols as nat));
        }
        assert(line@ == widen_row(o[i as int], cols as nat));
        std::mem::swap(&mut line, &mut v[i]);
        assert(v@ =~= pre.update(i as int, v@[i as int]));
        assert(rv(v@) =~= rv(pre).update(i as int, widen_row(o[i as int], cols as nat)));
        i = i + 1;
        assert(rv(v@) =~= Seq::new(o.len(), |j: int| if j < i { widen_row(o[j], cols as nat) } else { o[j] }));
    }
    assert(rv(v@) =~= widen_rows(o, cols as nat));
}

/// Removes the first `k` rows of `cells`, appending those with content to
/// `sb` when `keep`.
fn move_top_rows(cells: &mut Vec<Vec<Cell>>, sb: &mut Vec<Vec<Cell>>, k: usize, keep: bool)
    requires
        k <= old(cells)@.len(),
    ensures
        rv(final(cells)@) == rv(old(cells)@).skip(k as int),
        rv(final(sb)@) == if keep {
            rv(old(sb)@) + non_blank_rows(rv(old(cells)@).take(k as int))
        } else {
            rv(old(sb)@)
        },
{
    let ghost o = rv(old(cells)@);
    let mut i: usize = 0;
    while i < k
        invariant
            i <= k,
            k <= o.len(),
            o == rv(old(cells)@),
            cells@.len() == o.len() - i,
            rv(cells@) == o.skip(i as int),
            rv(sb@) == if keep { rv(old(sb)@) + non_blank_rows(o.take(i as int)) } else { rv(old(sb)@) },
        decreases k - i,
    {
        let row = rows_remove_first(cells);
        let blank = row_blank(&row);
        proof {
            let t = o.take(i + 1);
            assert(t.drop_last() =~= o.take(i as int));
            assert(t.last() == o[i as int]);
            assert(row@ == o[i as int]);
            reveal(Seq::filter);
            assert(non_blank_rows(t) == if !row_is_blank(o[i as int]) {
                non_blank_rows(o.take(i as int)).push(o[i as int])
            } else {
                non_blank_rows(o.take(i as int))
            });
        }
        if keep && !blank {
            rows_push(sb, row);
        }
        i = i + 1;
        assert(rv(cells@) =~= o.skip(i as int));
        if keep {
            assert(rv(sb@) =~= rv(old(sb)@) + non_blank_rows(o.take(i as int)));
        }
    }
}

/// Moves the last `k` rows of `sb` to the top of `cells`, in order.
fn pull_rows_back(cells: &mut Vec<Vec<Cell>>, sb: &mut Vec<Vec<Cell>>, k: usize)
    requires
        k <= old(sb)@.len(),
    ensures
        rv(final(cells)@) == rv(old(sb)@).skip(old(sb)@.len() - k) + rv(old(cells)@),
        rv(final(sb)@) == rv(old(sb)@).take(old(sb)@.len() - k),
{
    let ghost s = rv(old(sb)@);
    let ghost c = rv(old(cells)@);
    let ghost n = s.len();
    let mut i: usize = 0;
    while i < k
        invariant
            i <= k,
            k <= n,
            s == rv(old(sb)@),
            c == rv(old(cells)@),
            n == s.len(),
            sb@.len() == n - i,
            rv(sb@) == s.take(n - i),
            rv(cells@) == s.subrange(n - i, n as int) + c,
        decreases k - i,
    {
        let row = rows_pop(sb);
        rows_insert(cells, 0, row);
        i = i + 1;
        assert(rv(sb@) =~= s.take(n - i));
        assert(rv(cells@) =~= s.subrange(n - i, n as int) + c);
    }
    assert(s.subrange(n - k, n as int) =~= s.skip(n - k));
}

/// Cuts `v` to `n` rows or pads it with blank rows of `cols` cells.
fn fit_rows(v: &mut Vec<Vec<Cell>>, n: usize, cols: usize)
    ensures
        rv(final(v)@) == fit_len(rv(old(v)@), n as nat, blank_row(cols as nat)),
        final(v)@.len() == n,
{
    let ghost o = rv(old(v)@);
    if v.len() >= n {
        rows_truncate(v, n);
    } else {
        let ghost l = o.len();
        while v.len() < n
            invariant
                l == o.len(),
                l <= v@.len() <= n,
                rv(v@) == o + Seq::new((v@.len() - l) as nat, |i: int| blank_row(cols as nat)),
            decreases n - v@.len(),
        {
            rows_push(v, blank_line(cols));
            assert(rv(v@) =~= o + Seq::new((v@.len() - l) as nat, |i: int| blank_row(cols as nat)));
        }
    }
}

proof fn lemma_widen_rows_wide(rs: Seq<Seq<Cell>>, cols: nat)
    ensures
        rows_wide(widen_rows(rs, cols), cols),
{
    assert forall|i: int| 0 <= i < widen_rows(rs, cols).len() implies #[trigger] widen_rows(rs, cols)[i].len() >= cols by {
        assert(widen_rows(rs, cols)[i] == widen_row(rs[i], cols));
    }
}

proof fn lemma_fit_wide(s: Seq<Seq<Cell>>, n: nat, cols: nat)
    requires
        rows_wide(s, cols),
    ensures
        rows_wide(fit_len(s, n, blank_row(cols)), cols),
{
    let f = fit_len(s, n, blank_row(cols));
    assert forall|i: int| 0 <= i < f.len() implies #[trigger] f[i].len() >= cols by {
        if i < s.len() {
            assert(f[i] == s[i]);
        } else {
            assert(f[i] == blank_row(cols));
        }
    }
}

proof fn lemma_filter_wide(s: Seq<Seq<Cell>>, cols: nat)
    requires
        rows_wide(s, cols),
    ensures
        rows_wide(non_blank_rows(s), cols),
    decreases s.len(),
{
    reveal(Seq::filter);
    if s.len() > 0 {
        let d = s.drop_last();
        assert(rows_wide(d, cols)) by {
            assert forall|i: int| 0 <= i < d.len() implies #[trigger] d[i].len() >= cols by {
                assert(d[i] == s[i]);
            }
        }
        lemma_filter_wide(d, cols);
        assert(s.filter(|r: Seq<Cell>| !row_is_blank(r)) == if !row_is_blank(s.last()) {
            d.filter(|r: Seq<Cell>| !row_is_blank(r)).push(s.last())
        } else {
            d.filter(|r: Seq<Cell>| !row_is_blank(r))
        });
        assert(s.last().len() >= cols);
    }
}

proof fn lemma_last_content_below(rs: Seq<Seq<Cell>>, k: int)
    ensures
        -1 <= last_content_below(rs, k) < if k > 0 { k } else { 0 },
    decreases k,
{
    if k > 0 {
        lemma_last_content_below(rs, k - 1);
    }
}

/// Refits the primary screen `cells` and scrollback `sb` from `old_rows` to
/// `rows` rows (see `refit_primary`); returns the new cursor row.
fn refit_primary_rows(
    cells: &mut Vec<Vec<Cell>>,
    sb: &mut Vec<Vec<Cell>>,
    old_rows: usize,
    cursor_row: usize,
    keep: bool,
    rows: usize,
    cols: usize,
) -> (cr: usize)
    requires
        old(cells)@.len() == old_rows,
        cursor_row < old_rows,
        rows_wide(rv(old(cells)@), cols as nat),
    ensures
        (rv(final(cells)@), rv(final(sb)@), cr as int) == refit_primary(
            rv(old(cells)@), rv(old(sb)@), old_rows as int, cursor_row as int, keep, rows as int, cols as int),
{
    let ghost cells1 = rv(cells@);
    let last = last_content_row(cells);
    let bottom = match last {
        Some(r) => if r > cursor_row { r } else { cursor_row },
        None => cursor_row,
    };
    proof {
        lemma_last_content_below(cells1, cells1.len() as int);
    }
    assert(bottom == active_bottom(cells1, cursor_row as int));
    let mut cr = cursor_row;
    if rows < old_rows {
        if bottom + 1 > rows {
            let overflow = bottom + 1 - rows;
            move_top_rows(cells, sb, overflow, keep);
            cr = if cursor_row > overflow { cursor_row - overflow } else { 0 };
        }
        fit_rows(cells, rows, cols);
    } else if rows > old_rows {
        let delta = rows - old_rows;
        if bottom >= old_rows - 1 {
            let avail = sb.len();
            let pulled = if delta < avail { delta } else { avail };
            pull_rows_back(cells, sb, pulled);
            cr = if pulled > rows - 1 - cursor_row { rows - 1 } else { cursor_row + pulled };
        }
        fit_rows(cells, rows, cols);
    }
    cr
}

proof fn lemma_refit_wide(
    cells: Seq<Seq<Cell>>,
    sb: Seq<Seq<Cell>>,
    old_rows: int,
    cursor_row: int,
    keep: bool,
    rows: int,
    cols: int,
)
    requires
        rows_wide(cells, cols as nat),
        rows_wide(sb, cols as nat),
        cells.len() == old_rows,
        0 <= cursor_row < old_rows,
        rows >= 0,
    ensures
        rows_wide(refit_primary(cells, sb, old_rows, cursor_row, keep, rows, cols).0, cols as nat),
        rows_wide(refit_primary(cells, sb, old_rows, cursor_row, keep, rows, cols).1, cols as nat),
        refit_primary(cells, sb, old_rows, cursor_row, keep, rows, cols).0.len() == rows,
        refit_primary(cells, sb, old_rows, cursor_row, keep, rows, cols).1.len() <= sb.len() + cells.len(),
{
    let bottom = active_bottom(cells, cursor_row);
    lemma_last_content_below(cells, cells.len() as int);
    if rows < old_rows {
        let needed = bottom + 1;
        if needed > rows {
            let overflow = needed - rows;
            let moved = cells.take(overflow);
            let rest = cells.skip(overflow);
            assert forall|i: int| 0 <= i < moved.len() implies #[trigger] moved[i].len() >= cols by {
                assert(moved[i] == cells[i]);
            }
            assert forall|i: int| 0 <= i < rest.len() implies #[trigger] rest[i].len() >= cols by {
                assert(rest[i] == cells[i + overflow]);
            }
            lemma_filter_wide(moved, cols as nat);
            lemma_fit_wide(rest, rows as nat, cols as nat);
            let f = non_blank_rows(moved);
            let s2 = sb + f;
            assert forall|i: int| 0 <= i < s2.len() implies #[trigger] s2[i].len() >= cols by {
                if i < sb.len() { assert(s2[i] == sb[i]); } else { assert(s2[i] == f[i - sb.len()]); }
            }
            moved.lemma_filter_len(|r: Seq<Cell>| !row_is_blank(r));
        } else {
            lemma_fit_wide(cells, rows as nat, cols as nat);
        }
    } else if rows > old_rows {
        let delta = rows - old_rows;
        let filled = bottom >= old_rows - 1;
        let pulled = if filled { min_nat(delta, sb.len() as int) } else { 0 };
        let top = sb.skip(sb.len() - pulled);
        let grown = top + cells;
        assert forall|i: int| 0 <= i < grown.len() implies #[trigger] grown[i].len() >= cols by {
            if i < top.len() { assert(grown[i] == sb[i + sb.len() - pulled]); } else { assert(grown[i] == cells[i - top.len()]); }
        }
        lemma_fit_wide(grown, rows as nat, cols as nat);
        let t = sb.take(sb.len() - pulled);
        assert forall|i: int| 0 <= i < t.len() implies #[trigger] t[i].len() >= cols by {
            assert(t[i] == sb[i]);
        }
    }
}

impl TerminalGrid {
    /// Resizes the screen to `rows` x `cols`, keeping the visible content and
    /// the scrollback (see `GridModel::resized`).
    pub fn resize(&mut self, rows: usize, cols: usize)
        requires
            old(self).wf(),
        ensures
            final(self)@ == old(self)@.resized(rows, cols),
            rows > 0 && cols > 0 ==> final(self).wf(),
            final(self)@.rows == rows,
            final(self)@.cols == cols,
            final(self)@.cells.len() == rows,
            final(self)@.alt_cells.len() == rows,
            rows_wide(final(self)@.cells, cols as nat),
            rows_wide(final(self)@.alt_cells, cols as nat),
            rows_wide(final(self)@.scrollback, cols as nat),
            rows > 0 ==> final(self)@.cursor_row < rows,
            cols > 0 ==> final(self)@.cursor_col < cols,
            final(self)@.max_scrollback > 0 ==> final(self)@.scrollback.len() <= final(self)@.max_scrollback,
            final(self)@.is_alt_screen == old(self)@.is_alt_screen,
    {
        let ghost o = old(self)@;
        widen_all(&mut self.cells, cols);
        widen_all(&mut self.alt_cells, cols);
        widen_all(&mut self.scrollback, cols);
        let ghost cells1 = rv(self.cells@);
        let ghost sb1 = rv(self.scrollback@);
        proof {
            lemma_widen_rows_wide(o.cells, cols as nat);
            lemma_widen_rows_wide(o.alt_cells, cols as nat);
            lemma_widen_rows_wide(o.scrollback, cols as nat);
        }
        if !self.is_alt_screen {
            let old_rows = self.rows;
            let cr = self.cursor_row;
            let keep = self.max_scrollback > 0;
            let new_cr = refit_primary_rows(&mut self.cells, &mut self.scrollback, old_rows, cr, keep, rows, cols);
            self.cursor_row = new_cr;
        } else {
            fit_rows(&mut self.cells, rows, cols);
        }
        fit_rows(&mut self.alt_cells, rows, cols);
        let ghost sb2 = rv(self.scrollback@);
        if self.max_scrollback > 0 && self.scrollback.len() > self.max_scrollback {
            let m = self.max_scrollback;
            rows_keep_last(&mut self.scrollback, m);
        }
        assert(rv(self.scrollback@) == if o.max_scrollback > 0 { keep_last(sb2, o.max_scrollback as nat) } else { sb2 });
        self.rows = rows;
        self.cols = cols;
        self.clamp_cursor();
        proof {
            assert(self@ =~= o.resized(rows, cols));
            {
                if !o.is_alt_screen {
                    lemma_refit_wide(cells1, sb1, o.rows as int, o.cursor_row as int, o.max_scrollback > 0, rows as int, cols as int);
                } else {
                    lemma_fit_wide(cells1, rows as nat, cols as nat);
                }
                lemma_fit_wide(widen_rows(o.alt_cells, cols as nat), rows as nat, cols as nat);
                let s3 = self@.scrollback;
                assert forall|i: int| 0 <= i < s3.len() implies #[trigger] s3[i].len() >= cols by {
                    if o.max_scrollback > 0 && sb2.len() > o.max_scrollback {
                        assert(s3[i] == sb2[i + sb2.len() - o.max_scrollback]);
                    }
                }
                if o.max_scrollback == 0 {
                    assert(sb1.len() == 0);
                }
            }
        }
    }
}


/// The characters of `row[from..to]` (clipped to the row) without trailing
/// whitespace.
fn row_chars(row: &Vec<Cell>, from: usize, to: usize) -> (v: Vec<char>)
    ensures
        v@ == row_text(row@, from as int, to as int),
{
    let t = if to < row.len() { to } else { row.len() };
    let f = if from < t { from } else { t };
    let mut v: Vec<char> = Vec::new();
    let mut i = f;
    while i < t
        invariant
            f <= i <= t,
            t <= row@.len(),
            v@ == row@.subrange(f as int, i as int).map_values(|c: Cell| c.ch),
        decreases t - i,
    {
        v.push(row[i].ch);
        i = i + 1;
        assert(v@ =~= row@.subrange(f as int, i as int).map_values(|c: Cell| c.ch));
    }
    trim_end_chars(&mut v);
    v
}

/// Whether `a` comes before or at `b` in reading order.
fn pos_le_exec(a: (usize, usize), b: (usize, usize)) -> (r: bool)
    ensures
        r == pos_le(a, b),
{
    a.0 < b.0 || (a.0 == b.0 && a.1 <= b.1)
}

impl TerminalGrid {
    /// Returns the text selected between the grid positions `a` and `b`
    /// (absolute rows; either order): the selected part of each row without
    /// trailing whitespace, rows joined by newlines.
    pub fn selected_text(&self, a: (usize, usize), b: (usize, usize)) -> (s: String)
        requires
            self.wf(),
        ensures
            s@ == self@.selection_text(a, b),
    {
        let (start, end) = if pos_le_exec(a, b) { (a, b) } else { (b, a) };
        let (r1, c1) = start;
        let (r2, c2) = end;
        let ghost m = self@;
        // The row count of the addressable lines, which is at least 1.
        let actual_r2 = if self.is_alt_screen {
            if r2 < self.rows - 1 { r2 } else { self.rows - 1 }
        } else if r2 < self.scrollback.len() {
            r2
        } else if r2 - self.scrollback.len() < self.rows - 1 {
            r2
        } else {
            self.scrollback.len() + (self.rows - 1)
        };
        assert(actual_r2 == m.selection_last_row(r2));
        let mut out: Vec<char> = Vec::new();
        if r1 <= actual_r2 {
            let mut r = r1;
            loop
                invariant_except_break
                    self.wf(),
                    m == self@,
                    (start, end) == ordered(a, b),
                    start == (r1, c1),
                    end == (r2, c2),
                    actual_r2 == m.selection_last_row(r2),
                    actual_r2 < m.lines().len(),
                    r1 <= r <= actual_r2,
                    out@ == m.selection_prefix(start, end, r as int),
                ensures
                    out@ == m.selection_prefix(start, end, actual_r2 + 1),
                decreases actual_r2 - r,
            {
                let from = if r == r1 { c1 } else { 0 };
                let to = if r == r2 { if c2 < self.cols { c2 + 1 } else { self.cols } } else { self.cols };
                let line = self.get_line(r).unwrap();
                let piece = row_chars(line, from, to);
                let ghost before = out@;
                let mut k: usize = 0;
                while k < piece.len()
                    invariant
                        k <= piece@.len(),
                        out@ == before + piece@.take(k as int),
                    decreases piece@.len() - k,
                {
                    out.push(piece[k]);
                    k = k + 1;
                    assert(out@ =~= before + piece@.take(k as int));
                }
                if r < actual_r2 {
                    out.push('\n');
                }
                assert(piece@ == m.selection_piece(start, end, r as int));
                assert(out@ =~= m.selection_prefix(start, end, r + 1));
                if r == actual_r2 {
                    break;
                }
                r = r + 1;
            }
        }
        string_from_chars(&out)
    }

    /// Whether the cell `(row, col)` lies in the selection between `a` and `b`.
    pub fn in_selection(&self, row: usize, col: usize, a: (usize, usize), b: (usize, usize)) -> (r: bool)
        ensures
            r == spec_in_selection(row, col, a, b),
    {
        let (start, end) = if pos_le_exec(a, b) { (a, b) } else { (b, a) };
        let (r1, c1) = start;
        let (r2, c2) = end;
        if row < r1 || row > r2 {
            return false;
        }
        if row == r1 && col < c1 {
            return false;
        }
        if row == r2 && col > c2 {
            return false;
        }
        true
    }
}

} // verus!