//! The mathematical model of the terminal grid and of every operation on it.
//!
//! A grid is a screen of `rows` rows (each at least `cols` cells wide), a
//! scrollback of rows that left the top of the screen, an alternate screen
//! buffer, a cursor and the terminal modes.  Each operation of
//! `TerminalGrid` is specified as a function from model to model.

use vstd::prelude::*;
use crate::cell::{Cell, CellAttrs, default_attrs, default_cell, styled_cell, spec_apply_sgr};
use crate::rows::{blank_row, blank_rows, cleared, keep_last, fit_len};
use crate::text::{trim_end, unicode_whitespace};

verus! {

/// Mouse reporting mode requested by the application in the terminal.
#[derive(Debug, Clone, Copy, PartialEq, Eq, Structural)]
pub enum MouseMode {
    /// No mouse reporting.
    Off,
    /// Mode 1000: press and release.
    Normal,
    /// Mode 1002: press, release and drag.
    ButtonEvent,
    /// Mode 1003: every motion.
    AnyEvent,
}

/// The abstract state of a terminal grid.
#[verifier::ext_equal]
pub struct GridModel {
    pub cells: Seq<Seq<Cell>>,
    pub cursor_row: usize,
    pub cursor_col: usize,
    pub rows: usize,
    pub cols: usize,
    pub scrollback: Seq<Seq<Cell>>,
    pub attrs: CellAttrs,
    pub saved_cursor: (usize, usize),
    pub saved_attrs: CellAttrs,
    pub auto_wrap: bool,
    pub pending_wrap: bool,
    pub max_scrollback: usize,
    pub is_alt_screen: bool,
    pub alt_cells: Seq<Seq<Cell>>,
    pub saved_primary_cursor: (usize, usize),
    pub saved_primary_attrs: CellAttrs,
    pub mouse_mode: MouseMode,
    pub sgr_mouse: bool,
    pub bracketed_paste: bool,
    pub cursor_visible: bool,
}

/// Every row of `rs` is at least `n` cells wide.
pub open spec fn rows_wide(rs: Seq<Seq<Cell>>, n: nat) -> bool {
    forall|i: int| 0 <= i < rs.len() ==> #[trigger] rs[i].len() >= n
}

/// A row all of whose cells look blank.
pub open spec fn row_is_blank(row: Seq<Cell>) -> bool {
    forall|i: int| 0 <= i < row.len() ==> (#[trigger] row[i]).spec_is_default_empty()
}

/// `row` widened with blank cells to at least `cols` cells.
pub open spec fn widen_row(row: Seq<Cell>, cols: nat) -> Seq<Cell> {
    if row.len() < cols { row + blank_row((cols - row.len()) as nat) } else { row }
}

/// Every row of `rs` widened to at least `cols` cells.
pub open spec fn widen_rows(rs: Seq<Seq<Cell>>, cols: nat) -> Seq<Seq<Cell>> {
    Seq::new(rs.len(), |i: int| widen_row(rs[i], cols))
}

/// Index of the last row of `rs[..k]` that is not blank, or -1.
pub open spec fn last_content_below(rs: Seq<Seq<Cell>>, k: int) -> int
    decreases k,
{
    if k <= 0 {
        -1
    } else if !row_is_blank(rs[k - 1]) {
        k - 1
    } else {
        last_content_below(rs, k - 1)
    }
}

/// The lowest screen row in use: the last row with content or the cursor row.
pub open spec fn active_bottom(rs: Seq<Seq<Cell>>, cursor_row: int) -> int {
    let last = last_content_below(rs, rs.len() as int);
    if last > cursor_row { last } else { cursor_row }
}

/// The rows of `rs` that are not blank, in order.
pub open spec fn non_blank_rows(rs: Seq<Seq<Cell>>) -> Seq<Seq<Cell>> {
    rs.filter(|r: Seq<Cell>| !row_is_blank(r))
}

pub open spec fn min_nat(a: int, b: int) -> int {
    if a < b { a } else { b }
}

/// `(0, 0)` clamp of a position into a grid of `rows` x `cols` cells.
pub open spec fn clamp_pos(p: (usize, usize), rows: usize, cols: usize) -> (usize, usize) {
    (
        if p.0 < rows { p.0 } else { if rows == 0 { 0 } else { (rows - 1) as usize } },
        if p.1 < cols { p.1 } else { if cols == 0 { 0 } else { (cols - 1) as usize } },
    )
}

impl GridModel {
    /// The well-formedness that every operation keeps.
    pub open spec fn model_wf(self) -> bool {
        &&& self.rows > 0
        &&& self.cols > 0
        &&& self.cells.len() == self.rows
        &&& self.alt_cells.len() == self.rows
        &&& rows_wide(self.cells, self.cols as nat)
        &&& rows_wide(self.alt_cells, self.cols as nat)
        &&& rows_wide(self.scrollback, self.cols as nat)
        &&& self.cursor_row < self.rows
        &&& self.cursor_col < self.cols
        &&& self.scrollback.len() <= self.max_scrollback
        &&& self.auto_wrap
    }

    /// The grid of a fresh terminal.
    pub open spec fn initial(rows: usize, cols: usize, max_scrollback: usize) -> GridModel {
        GridModel {
            cells: blank_rows(rows as nat, cols as nat),
            cursor_row: 0,
            cursor_col: 0,
            rows,
            cols,
            scrollback: Seq::empty(),
            attrs: default_attrs(),
            saved_cursor: (0, 0),
            saved_attrs: default_attrs(),
            auto_wrap: true,
            pending_wrap: false,
            max_scrollback,
            is_alt_screen: false,
            alt_cells: blank_rows(rows as nat, cols as nat),
            saved_primary_cursor: (0, 0),
            saved_primary_attrs: default_attrs(),
            mouse_mode: MouseMode::Off,
            sgr_mouse: false,
            bracketed_paste: false,
            cursor_visible: true,
        }
    }

    /// The rows addressable by absolute index: scrollback then screen, or
    /// only the screen while the alternate screen is active.
    pub open spec fn lines(self) -> Seq<Seq<Cell>> {
        if self.is_alt_screen { self.cells } else { self.scrollback + self.cells }
    }

    /// Scrolls the screen up `n` rows: the top rows leave the screen (into the
    /// scrollback of the primary screen, which keeps at most
    /// `max_scrollback` rows) and blank rows enter at the bottom.
    pub open spec fn scroll_up(self, n: nat) -> GridModel {
        let all = self.cells + blank_rows(n, self.cols as nat);
        let keep = !self.is_alt_screen && self.max_scrollback > 0;
        let sb = if keep { self.scrollback + all.take(n as int) } else { self.scrollback };
        GridModel {
            cells: all.skip(n as int),
            scrollback: if keep {
                keep_last(sb, self.max_scrollback as nat)
            } else if self.max_scrollback == 0 {
                Seq::empty()
            } else {
                sb
            },
            ..self
        }
    }

    /// Scrolls the screen down `n` rows: blank rows enter at the top.
    pub open spec fn scroll_down(self, n: nat) -> GridModel {
        let m = min_nat(n as int, self.rows as int);
        GridModel {
            cells: blank_rows(m as nat, self.cols as nat) + self.cells.take(self.rows - m),
            ..self
        }
    }

    /// Line feed: the cursor moves down a row, scrolling at the bottom.
    pub open spec fn line_feed(self) -> GridModel {
        if self.cursor_row + 1 < self.rows {
            GridModel { cursor_row: (self.cursor_row + 1) as usize, ..self }
        } else {
            self.scroll_up(1)
        }
    }

    /// Printing `c`: a pending wrap first moves to the start of the next line;
    /// the character is written at the cursor with the current attributes and
    /// the cursor advances, stopping at the last column with a wrap pending.
    pub open spec fn put_char(self, c: char) -> GridModel {
        let m = if self.pending_wrap {
            GridModel { pending_wrap: false, cursor_col: 0, ..self }.line_feed()
        } else {
            self
        };
        if m.cursor_col < m.cols {
            let row = m.cells[m.cursor_row as int];
            let cells = m.cells.update(
                m.cursor_row as int,
                row.update(m.cursor_col as int, styled_cell(c, m.attrs)),
            );
            if m.cursor_col + 1 == m.cols && m.auto_wrap {
                GridModel { cells, pending_wrap: true, cursor_col: (m.cols - 1) as usize, ..m }
            } else {
                GridModel { cells, cursor_col: (m.cursor_col + 1) as usize, ..m }
            }
        } else {
            m
        }
    }

    /// The screen with row `r` replaced by `cleared(row, from, to)`.
    pub open spec fn clear_in_row(self, r: int, from: int, to: int) -> GridModel {
        GridModel { cells: self.cells.update(r, cleared(self.cells[r], from, to)), ..self }
    }

    /// Erases from the cursor to the end of its row.
    pub open spec fn clear_to_end_of_line(self) -> GridModel {
        let r = self.cursor_row as int;
        self.clear_in_row(r, self.cursor_col as int, self.cells[r].len() as int)
    }

    /// Erases from the start of the cursor row through the cursor.
    pub open spec fn clear_to_start_of_line(self) -> GridModel {
        let c = min_nat(self.cursor_col as int, self.cols - 1);
        self.clear_in_row(self.cursor_row as int, 0, c + 1)
    }

    /// Erases the whole of row `r`.
    pub open spec fn clear_line(self, r: int) -> GridModel {
        self.clear_in_row(r, 0, self.cells[r].len() as int)
    }

    /// Erases the rows `from..to` of the screen entirely.
    pub open spec fn clear_rows(self, from: int, to: int) -> GridModel {
        GridModel {
            cells: Seq::new(self.cells.len(), |i: int|
                if from <= i < to { cleared(self.cells[i], 0, self.cells[i].len() as int) } else { self.cells[i] }),
            ..self
        }
    }

    /// Erases from the cursor to the end of the screen.
    pub open spec fn clear_to_end_of_screen(self) -> GridModel {
        self.clear_to_end_of_line().clear_rows(self.cursor_row + 1, self.rows as int)
    }

    /// Erases from the start of the screen through the cursor.
    pub open spec fn clear_to_start_of_screen(self) -> GridModel {
        self.clear_rows(0, self.cursor_row as int).clear_to_start_of_line()
    }

    /// Erases the whole screen.
    pub open spec fn clear_all(self) -> GridModel {
        self.clear_rows(0, self.rows as int)
    }

    /// Switches to the alternate screen (a fresh blank screen), remembering the
    /// primary cursor and attributes.
    pub open spec fn enter_alt_screen(self) -> GridModel {
        if self.is_alt_screen {
            self
        } else {
            let fits = self.alt_cells.len() == self.rows
                && (if self.alt_cells.len() > 0 { self.alt_cells[0].len() as int } else { 0 }) == self.cols;
            let alt = if fits { self.alt_cells } else { blank_rows(self.rows as nat, self.cols as nat) };
            GridModel {
                is_alt_screen: true,
                saved_primary_cursor: (self.cursor_row, self.cursor_col),
                saved_primary_attrs: self.attrs,
                cells: alt,
                alt_cells: self.cells,
                cursor_row: 0,
                cursor_col: 0,
                ..self
            }.clear_all()
        }
    }

    /// Returns to the primary screen, restoring its cursor and attributes.
    pub open spec fn leave_alt_screen(self) -> GridModel {
        if self.is_alt_screen {
            let p = clamp_pos(self.saved_primary_cursor, self.rows, self.cols);
            GridModel {
                is_alt_screen: false,
                cells: self.alt_cells,
                alt_cells: self.cells,
                cursor_row: p.0,
                cursor_col: p.1,
                attrs: self.saved_primary_attrs,
                ..self
            }
        } else {
            self
        }
    }

    /// Clears the screen and the scrollback and homes the cursor.
    pub open spec fn reset(self) -> GridModel {
        GridModel { scrollback: Seq::empty(), cursor_row: 0, cursor_col: 0, ..self.clear_all() }
    }

    /// Applies an SGR sequence to the current attributes.
    pub open spec fn sgr(self, ps: Seq<u16>) -> GridModel {
        GridModel { attrs: spec_apply_sgr(self.attrs, ps), ..self }
    }
}


/// The parameter at index `i`, or 0 when there is none.
pub open spec fn param(ps: Seq<u16>, i: int) -> int {
    if 0 <= i < ps.len() { ps[i] as int } else { 0 }
}

/// The final characters of the CSI sequences that only move the cursor.
pub open spec fn is_cursor_move(action: char) -> bool {
    action == 'A' || action == 'B' || action == 'C' || action == 'D' || action == 'E'
        || action == 'F' || action == 'G' || action == 'H' || action == 'f' || action == 'd'
}

/// The cursor row after the cursor movement `action` (`n` is `p1` but at least 1).
pub open spec fn moved_row(row: int, rows: int, p1: int, n: int, action: char) -> int {
    if action == 'A' || action == 'F' { sat_sub(row, n) }
    else if action == 'B' || action == 'E' { min_nat(row + n, rows - 1) }
    else if action == 'H' || action == 'f' || action == 'd' { min_nat(sat_sub(p1, 1), rows - 1) }
    else { row }
}

/// The cursor column after the cursor movement `action`.
pub open spec fn moved_col(col: int, cols: int, p1: int, p2: int, n: int, action: char) -> int {
    if action == 'C' { min_nat(col + n, cols - 1) }
    else if action == 'D' { sat_sub(col, n) }
    else if action == 'E' || action == 'F' { 0 }
    else if action == 'G' { min_nat(sat_sub(p1, 1), cols - 1) }
    else if action == 'H' || action == 'f' { min_nat(sat_sub(p2, 1), cols - 1) }
    else { col }
}

/// `a - b`, or 0 when `b > a`.
pub open spec fn sat_sub(a: int, b: int) -> int {
    if a > b { a - b } else { 0 }
}

impl GridModel {
    /// A C0 control character.
    pub open spec fn execute(self, byte: u8) -> GridModel {
        let m = GridModel { pending_wrap: false, ..self };
        if byte == 0x08 {
            if m.cursor_col > 0 { GridModel { cursor_col: (m.cursor_col - 1) as usize, ..m } } else { m }
        } else if byte == 0x09 {
            let next_tab = (m.cursor_col / 8 + 1) * 8;
            GridModel { cursor_col: min_nat(next_tab, m.cols - 1) as usize, ..m }
        } else if byte == 0x0A || byte == 0x0B || byte == 0x0C {
            m.line_feed()
        } else if byte == 0x0D {
            GridModel { cursor_col: 0, ..m }
        } else {
            m
        }
    }

    /// Inserts `n` blank lines at the cursor row; lines below move down and
    /// those pushed past the bottom are lost.
    pub open spec fn insert_lines(self, n: int) -> GridModel {
        let r = self.cursor_row as int;
        let k = min_nat(n, self.rows - r);
        GridModel {
            cells: self.cells.take(r) + blank_rows(k as nat, self.cols as nat)
                + self.cells.subrange(r, self.rows - k),
            ..self
        }
    }

    /// Deletes `n` lines at the cursor row; lines below move up and blank lines
    /// enter at the bottom.
    pub open spec fn delete_lines(self, n: int) -> GridModel {
        let r = self.cursor_row as int;
        let k = min_nat(n, self.rows - r);
        GridModel {
            cells: self.cells.take(r) + self.cells.subrange(r + k, self.rows as int)
                + blank_rows(k as nat, self.cols as nat),
            ..self
        }
    }

    /// Deletes `n` characters at the cursor; the rest of the row moves left and
    /// blanks enter at its end.
    pub open spec fn delete_chars(self, n: int) -> GridModel {
        let r = self.cursor_row as int;
        let c = self.cursor_col as int;
        let row = self.cells[r];
        let k = min_nat(n, row.len() - c);
        GridModel {
            cells: self.cells.update(r, row.take(c) + row.subrange(c + k, row.len() as int) + blank_row(k as nat)),
            ..self
        }
    }

    /// Inserts `n` blanks at the cursor; the rest of the row moves right and the
    /// row is cut to `cols` cells.
    pub open spec fn insert_chars(self, n: int) -> GridModel {
        let r = self.cursor_row as int;
        let c = self.cursor_col as int;
        let row = self.cells[r];
        let k = min_nat(n, self.cols - c);
        GridModel {
            cells: self.cells.update(r, row.take(c) + blank_row(k as nat) + row.subrange(c, self.cols - k)),
            ..self
        }
    }

    /// Saves the cursor position and attributes (`CSI s`, `ESC 7`).
    pub open spec fn save_cursor(self) -> GridModel {
        GridModel { saved_cursor: (self.cursor_row, self.cursor_col), saved_attrs: self.attrs, ..self }
    }

    /// Restores the saved cursor (clamped to the screen) and attributes.
    pub open spec fn restore_cursor(self) -> GridModel {
        let p = clamp_pos(self.saved_cursor, self.rows, self.cols);
        GridModel { cursor_row: p.0, cursor_col: p.1, attrs: self.saved_attrs, ..self }
    }

    /// One private mode of `CSI ? ... h` (`on`) or `CSI ? ... l` (off).
    pub open spec fn set_mode(self, p: u16, on: bool) -> GridModel {
        if p == 1049 || p == 1047 || p == 47 {
            if on { self.enter_alt_screen() } else { self.leave_alt_screen() }
        } else if p == 1000 {
            GridModel { mouse_mode: if on { MouseMode::Normal } else { MouseMode::Off }, ..self }
        } else if p == 1002 {
            GridModel { mouse_mode: if on { MouseMode::ButtonEvent } else { MouseMode::Off }, ..self }
        } else if p == 1003 {
            GridModel { mouse_mode: if on { MouseMode::AnyEvent } else { MouseMode::Off }, ..self }
        } else if p == 1006 {
            GridModel { sgr_mouse: on, ..self }
        } else if p == 2004 {
            GridModel { bracketed_paste: on, ..self }
        } else if p == 25 {
            GridModel { cursor_visible: on, ..self }
        } else {
            self
        }
    }

    /// The private modes `ps[i..]`, applied in order.
    pub open spec fn set_modes(self, ps: Seq<u16>, i: int, on: bool) -> GridModel
        decreases ps.len() - i,
    {
        if i < 0 || i >= ps.len() {
            self
        } else {
            self.set_mode(ps[i], on).set_modes(ps, i + 1, on)
        }
    }

    /// A CSI sequence with parameters `ps` (the first value of each group),
    /// a `?` private marker or not, and final character `action`.
    pub open spec fn csi(self, ps: Seq<u16>, private: bool, action: char) -> GridModel {
        let p1 = param(ps, 0);
        let p2 = param(ps, 1);
        let n = if p1 > 1 { p1 } else { 1 };
        let m = GridModel { pending_wrap: false, ..self };
        let last_row = m.rows - 1;
        let last_col = m.cols - 1;
        if is_cursor_move(action) {
            GridModel {
                cursor_row: moved_row(m.cursor_row as int, m.rows as int, p1, n, action) as usize,
                cursor_col: moved_col(m.cursor_col as int, m.cols as int, p1, p2, n, action) as usize,
                ..m
            }
        } else if action == 'J' {
            if p1 == 0 { m.clear_to_end_of_screen() }
            else if p1 == 1 { m.clear_to_start_of_screen() }
            else if p1 == 2 || p1 == 3 { m.clear_all() }
            else { m }
        } else if action == 'K' {
            if p1 == 0 { m.clear_to_end_of_line() }
            else if p1 == 1 { m.clear_to_start_of_line() }
            else if p1 == 2 { m.clear_line(m.cursor_row as int) }
            else { m }
        } else if action == 'X' {
            m.clear_in_row(m.cursor_row as int, m.cursor_col as int, min_nat(m.cursor_col + n, m.cols as int))
        } else if action == 'L' {
            m.insert_lines(n)
        } else if action == 'M' {
            m.delete_lines(n)
        } else if action == 'P' {
            m.delete_chars(n)
        } else if action == '@' {
            m.insert_chars(n)
        } else if action == 'S' {
            m.scroll_up(n as nat)
        } else if action == 'T' {
            m.scroll_down(n as nat)
        } else if action == 'm' {
            m.sgr(ps)
        } else if action == 's' {
            m.save_cursor()
        } else if action == 'u' {
            m.restore_cursor()
        } else if action == 'h' {
            if private { m.set_modes(ps, 0, true) } else { m }
        } else if action == 'l' {
            if private { m.set_modes(ps, 0, false) } else { m }
        } else {
            m
        }
    }

    /// An escape sequence with final byte `byte`.
    pub open spec fn esc(self, byte: u8) -> GridModel {
        let m = GridModel { pending_wrap: false, ..self };
        if byte == 0x37 {
            m.save_cursor()
        } else if byte == 0x38 {
            m.restore_cursor()
        } else if byte == 0x4D {
            if m.cursor_row == 0 {
                m.scroll_down(1)
            } else {
                GridModel { cursor_row: (m.cursor_row - 1) as usize, ..m }
            }
        } else if byte == 0x63 {
            GridModel::initial(m.rows, m.cols, m.max_scrollback)
        } else {
            m
        }
    }
}


/// The primary screen and scrollback after a change of height from
/// `old_rows` to `rows`, with `cells` and `sb` already widened: shrinking
/// moves the rows above the lowest row in use (the last row with content, or
/// the cursor row) into the scrollback, keeping only rows with content (and
/// none when `keep` is false); growing a full screen pulls rows back from the
/// scrollback.  Returns the screen rows, the scrollback and the cursor row.
pub open spec fn refit_primary(
    cells: Seq<Seq<Cell>>,
    sb: Seq<Seq<Cell>>,
    old_rows: int,
    cursor_row: int,
    keep: bool,
    rows: int,
    cols: int,
) -> (Seq<Seq<Cell>>, Seq<Seq<Cell>>, int) {
    let bottom = active_bottom(cells, cursor_row);
    if rows < old_rows {
        let needed = bottom + 1;
        if needed > rows {
            let overflow = needed - rows;
            let moved = cells.take(overflow);
            (
                fit_len(cells.skip(overflow), rows as nat, blank_row(cols as nat)),
                if keep { sb + non_blank_rows(moved) } else { sb },
                sat_sub(cursor_row, overflow),
            )
        } else {
            (fit_len(cells, rows as nat, blank_row(cols as nat)), sb, cursor_row)
        }
    } else if rows > old_rows {
        let delta = rows - old_rows;
        let filled = bottom >= old_rows - 1;
        let pulled = if filled { min_nat(delta, sb.len() as int) } else { 0 };
        let grown = sb.skip(sb.len() - pulled) + cells;
        (
            fit_len(grown, rows as nat, blank_row(cols as nat)),
            sb.take(sb.len() - pulled),
            if filled { min_nat(cursor_row + pulled, rows - 1) } else { cursor_row },
        )
    } else {
        (cells, sb, cursor_row)
    }
}

impl GridModel {
    /// The grid after resizing the screen to `rows` x `cols`: rows narrower
    /// than `cols` are widened with blanks (wider rows are kept), the primary
    /// screen is refitted (see `refit_primary`), the alternate screen is cut
    /// or padded, the scrollback is held to `max_scrollback` rows and the
    /// cursor is clamped into the new screen.
    pub open spec fn resized(self, rows: usize, cols: usize) -> GridModel {
        let cells1 = widen_rows(self.cells, cols as nat);
        let alt1 = widen_rows(self.alt_cells, cols as nat);
        let sb1 = widen_rows(self.scrollback, cols as nat);
        let (cells2, sb2, cr) = if !self.is_alt_screen {
            refit_primary(
                cells1,
                sb1,
                self.rows as int,
                self.cursor_row as int,
                self.max_scrollback > 0,
                rows as int,
                cols as int,
            )
        } else {
            (fit_len(cells1, rows as nat, blank_row(cols as nat)), sb1, self.cursor_row as int)
        };
        let sb3 = if self.max_scrollback > 0 { keep_last(sb2, self.max_scrollback as nat) } else { sb2 };
        let p = clamp_pos((cr as usize, self.cursor_col), rows, cols);
        GridModel {
            cells: cells2,
            alt_cells: fit_len(alt1, rows as nat, blank_row(cols as nat)),
            scrollback: sb3,
            rows,
            cols,
            cursor_row: p.0,
            cursor_col: p.1,
            ..self
        }
    }
}


/// Reading order of grid positions `(row, col)`.
pub open spec fn pos_le(a: (usize, usize), b: (usize, usize)) -> bool {
    a.0 < b.0 || (a.0 == b.0 && a.1 <= b.1)
}

/// The two ends of a selection in reading order.
pub open spec fn ordered(a: (usize, usize), b: (usize, usize)) -> ((usize, usize), (usize, usize)) {
    if pos_le(a, b) { (a, b) } else { (b, a) }
}

/// Whether cell `(row, col)` lies in the selection between `a` and `b`
/// (both ends included).
pub open spec fn spec_in_selection(row: usize, col: usize, a: (usize, usize), b: (usize, usize)) -> bool {
    let (s, e) = ordered(a, b);
    &&& s.0 <= row <= e.0
    &&& (row == s.0 ==> col >= s.1)
    &&& (row == e.0 ==> col <= e.1)
}

/// The characters of the cells of `row` at columns `from..to` (clipped to
/// the row), without trailing whitespace.
pub open spec fn row_text(row: Seq<Cell>, from: int, to: int) -> Seq<char> {
    let t = min_nat(to, row.len() as int);
    let f = min_nat(from, t);
    trim_end(row.subrange(f, t).map_values(|c: Cell| c.ch))
}

impl GridModel {
    /// The last absolute row a selection ending at row `r2` reaches.
    pub open spec fn selection_last_row(self, r2: usize) -> int {
        min_nat(r2 as int, sat_sub(self.lines().len() as int, 1))
    }

    /// The text of absolute row `r` of the selection from `start` to `end`.
    pub open spec fn selection_piece(self, start: (usize, usize), end: (usize, usize), r: int) -> Seq<char> {
        let from = if r == start.0 { start.1 as int } else { 0 };
        let to = if r == end.0 { min_nat(end.1 + 1, self.cols as int) } else { self.cols as int };
        row_text(self.lines()[r], from, to)
    }

    /// The text of the selected rows before absolute row `k`, each row but
    /// the last followed by a newline.
    pub open spec fn selection_prefix(self, start: (usize, usize), end: (usize, usize), k: int) -> Seq<char>
        decreases k - start.0,
    {
        if k <= start.0 {
            Seq::empty()
        } else {
            let r = k - 1;
            let last = self.selection_last_row(end.0);
            self.selection_prefix(start, end, r) + self.selection_piece(start, end, r)
                + if r < last { seq!['\n'] } else { Seq::empty() }
        }
    }

    /// The text selected between `a` and `b`: the selected part of each row
    /// without trailing whitespace, rows joined by newlines.
    pub open spec fn selection_text(self, a: (usize, usize), b: (usize, usize)) -> Seq<char> {
        let (s, e) = ordered(a, b);
        let last = self.selection_last_row(e.0);
        if s.0 > last { Seq::empty() } else { self.selection_prefix(s, e, last + 1) }
    }
}

// ─── Laws ───────────────────────────────────────────────────────────────────

/// The two ends of a selection can be given in either order.
pub proof fn law_selection_symmetric(m: GridModel, row: usize, col: usize, a: (usize, usize), b: (usize, usize))
    ensures
        spec_in_selection(row, col, a, b) == spec_in_selection(row, col, b, a),
        m.selection_text(a, b) == m.selection_text(b, a),
{
    assert(ordered(a, b) == ordered(b, a));
}

proof fn lemma_trim_end_shape(t: Seq<char>)
    ensures
        trim_end(t).len() <= t.len(),
        trim_end(t) == t.take(trim_end(t).len() as int),
        forall|i: int| trim_end(t).len() <= i < t.len() ==> unicode_whitespace(#[trigger] t[i]),
        trim_end(t).len() == 0 || !unicode_whitespace(trim_end(t).last()),
    decreases t.len(),
{
    if t.len() > 0 && unicode_whitespace(t.last()) {
        lemma_trim_end_shape(t.drop_last());
        let r = trim_end(t);
        assert forall|i: int| r.len() <= i < t.len() implies unicode_whitespace(#[trigger] t[i]) by {
            if i < t.len() - 1 {
                assert(t[i] == t.drop_last()[i]);
            }
        }
        assert(t.drop_last().take(r.len() as int) =~= t.take(r.len() as int));
    } else {
        assert(t.take(t.len() as int) =~= t);
    }
}

/// A selection within one row gives the characters of the selected cells
/// (from the first column through the last, both included) in order, with
/// the trailing whitespace dropped and nothing else: what is left out is
/// whitespace, and what is kept does not end with whitespace.
pub proof fn law_one_row_selection(m: GridModel, r: usize, c1: usize, c2: usize)
    requires
        m.model_wf(),
        r < m.lines().len(),
        c1 <= c2 < m.cols,
    ensures
        ({
            let t = m.selection_text((r, c1), (r, c2));
            let cells = m.lines()[r as int];
            let n = c2 - c1 + 1;
            &&& t.len() <= n
            &&& forall|i: int| 0 <= i < t.len() ==> #[trigger] t[i] == cells[c1 + i].ch
            &&& forall|i: int| t.len() <= i < n ==> unicode_whitespace(#[trigger] cells[c1 + i].ch)
            &&& t.len() == 0 || !unicode_whitespace(t.last())
        }),
{
    let cells = m.lines()[r as int];
    assert(m.lines().len() > 0);
    assert(cells.len() >= m.cols) by {
        if m.is_alt_screen {
            assert(cells == m.cells[r as int]);
        } else if r < m.scrollback.len() {
            assert(cells == m.scrollback[r as int]);
        } else {
            assert(cells == m.cells[r - m.scrollback.len()]);
        }
    }
    let raw = cells.subrange(c1 as int, c2 + 1).map_values(|c: Cell| c.ch);
    assert(m.selection_piece((r, c1), (r, c2), r as int) == trim_end(raw));
    assert(m.selection_prefix((r, c1), (r, c2), r as int) == Seq::<char>::empty());
    assert(m.selection_text((r, c1), (r, c2)) =~= trim_end(raw));
    lemma_trim_end_shape(raw);
    let t = trim_end(raw);
    assert forall|i: int| 0 <= i < t.len() implies #[trigger] t[i] == cells[c1 + i].ch by {
        assert(t[i] == raw.take(t.len() as int)[i]);
        assert(raw[i] == cells[c1 + i].ch);
    }
    assert forall|i: int| t.len() <= i < c2 - c1 + 1 implies unicode_whitespace(#[trigger] cells[c1 + i].ch) by {
        assert(raw[i] == cells[c1 + i].ch);
        assert(unicode_whitespace(raw[i]));
    }
}

proof fn lemma_selection_prefix_split(m: GridModel, r1: usize, c1: usize, e: (usize, usize), k: int)
    requires
        r1 < usize::MAX,
        r1 + 1 <= k <= m.selection_last_row(e.0) + 1,
        r1 < m.selection_last_row(e.0),
        e.0 > r1,
    ensures
        m.selection_prefix((r1, c1), e, k) == m.selection_piece((r1, c1), e, r1 as int) + seq!['\n']
            + m.selection_prefix(((r1 + 1) as usize, 0), e, k),
    decreases k,
{
    let s = (r1, c1);
    let s2 = ((r1 + 1) as usize, 0usize);
    if k == r1 + 1 {
        assert(m.selection_prefix(s, e, r1 as int) == Seq::<char>::empty());
        assert(m.selection_prefix(s2, e, k) == Seq::<char>::empty());
        assert(m.selection_prefix(s, e, k) =~= m.selection_piece(s, e, r1 as int) + seq!['\n']
            + m.selection_prefix(s2, e, k));
    } else {
        lemma_selection_prefix_split(m, r1, c1, e, k - 1);
        assert(m.selection_piece(s, e, k - 1) == m.selection_piece(s2, e, k - 1));
        assert(m.selection_prefix(s, e, k) =~= m.selection_piece(s, e, r1 as int) + seq!['\n']
            + m.selection_prefix(s2, e, k));
    }
}

/// A selection over several rows reads as the selected part of its first
/// row, a newline, then the selection of the rows below it from their first
/// column: rows are joined by a single `\n` and no row is left out.
pub proof fn law_selection_rows_joined(m: GridModel, r1: usize, c1: usize, r2: usize, c2: usize)
    requires
        m.model_wf(),
        r1 < r2 < m.lines().len(),
        c1 < m.cols,
        c2 < m.cols,
    ensures
        m.selection_text((r1, c1), (r2, c2)) == m.selection_text((r1, c1), (r1, (m.cols - 1) as usize))
            + seq!['\n'] + m.selection_text(((r1 + 1) as usize, 0), (r2, c2)),
{
    let e = (r2, c2);
    let last = m.selection_last_row(r2);
    assert(last == r2);
    lemma_selection_prefix_split(m, r1, c1, e, last + 1);
    let one = (r1, (m.cols - 1) as usize);
    assert(m.selection_last_row(r1) == r1);
    assert(m.selection_prefix((r1, c1), one, r1 as int) == Seq::<char>::empty());
    assert(m.selection_piece((r1, c1), one, r1 as int) == m.selection_piece((r1, c1), e, r1 as int));
    assert(m.selection_text((r1, c1), one) =~= m.selection_piece((r1, c1), e, r1 as int));
}

/// `CSI K` with no parameter (or 0) erases from the cursor to the end of its
/// row: the cells left of the cursor and every other row stay as they were,
/// the cells from the cursor on become blank, and the cursor stays.
/// `CSI 1 K` erases from the start of the row through the cursor instead,
/// and `CSI 2 K` the whole row.
pub proof fn law_erase_in_line(m: GridModel, ps: Seq<u16>)
    requires
        m.model_wf(),
    ensures
        ({
            let r = m.csi(ps, false, 'K');
            let cr = m.cursor_row as int;
            let cc = m.cursor_col as int;
            let row = m.cells[cr];
            let p = if ps.len() > 0 { ps[0] as int } else { 0 };
            &&& r.cells.len() == m.cells.len()
            &&& r.cursor_row == m.cursor_row && r.cursor_col == m.cursor_col
            &&& forall|k: int| 0 <= k < m.cells.len() && k != cr ==> #[trigger] r.cells[k] == m.cells[k]
            &&& r.cells[cr].len() == row.len()
            &&& p == 0 ==> forall|c: int| 0 <= c < row.len() ==>
                    #[trigger] r.cells[cr][c] == (if c < cc { row[c] } else { default_cell() })
            &&& p == 1 ==> forall|c: int| 0 <= c < row.len() ==>
                    #[trigger] r.cells[cr][c] == (if c <= cc { default_cell() } else { row[c] })
            &&& p == 2 ==> forall|c: int| 0 <= c < row.len() ==> #[trigger] r.cells[cr][c] == default_cell()
        }),
{
}

/// `CSI J` (or `CSI 0 J`) erases from the cursor to the end of the screen:
/// the rows above the cursor and the cells left of it keep their content and
/// every other cell becomes blank.  `CSI 1 J` erases from the top of the
/// screen through the cursor instead, and `CSI 2 J` or `CSI 3 J` the whole
/// screen.  The cursor and the scrollback stay as they were.
pub proof fn law_erase_in_display(m: GridModel, ps: Seq<u16>)
    requires
        m.model_wf(),
    ensures
        ({
            let r = m.csi(ps, false, 'J');
            let cr = m.cursor_row as int;
            let cc = m.cursor_col as int;
            let p = if ps.len() > 0 { ps[0] as int } else { 0 };
            &&& r.cells.len() == m.cells.len()
            &&& r.cursor_row == m.cursor_row && r.cursor_col == m.cursor_col
            &&& r.scrollback == m.scrollback
            &&& forall|k: int| 0 <= k < m.cells.len() ==> (#[trigger] r.cells[k]).len() == m.cells[k].len()
            &&& p == 0 ==> forall|k: int, c: int| 0 <= k < m.cells.len() && 0 <= c < m.cells[k].len() ==>
                    #[trigger] r.cells[k][c] == (if k < cr || (k == cr && c < cc) { m.cells[k][c] } else { default_cell() })
            &&& p == 1 ==> forall|k: int, c: int| 0 <= k < m.cells.len() && 0 <= c < m.cells[k].len() ==>
                    #[trigger] r.cells[k][c] == (if k < cr || (k == cr && c <= cc) { default_cell() } else { m.cells[k][c] })
            &&& (p == 2 || p == 3) ==> forall|k: int, c: int| 0 <= k < m.cells.len() && 0 <= c < m.cells[k].len() ==>
                    #[trigger] r.cells[k][c] == default_cell()
        }),
{
}

/// Cursor positioning: `CSI row ; col H` puts the cursor on the given
/// 1-based row and column, a missing or zero parameter counting as 1 and a
/// position past the screen stopping at its last row or column.  `CSI n A`,
/// `B`, `C` and `D` move the cursor `n` (at least 1) rows up, rows down,
/// columns right and columns left, stopping at the edges of the screen.
/// None of them changes a cell.
pub proof fn law_cursor_moves(m: GridModel, ps: Seq<u16>)
    requires
        m.model_wf(),
    ensures
        ({
            let p1 = if ps.len() > 0 { ps[0] as int } else { 0 };
            let p2 = if ps.len() > 1 { ps[1] as int } else { 0 };
            let n = if p1 == 0 { 1 } else { p1 };
            let cr = m.cursor_row as int;
            let cc = m.cursor_col as int;
            let rows = m.rows as int;
            let cols = m.cols as int;
            let h = m.csi(ps, false, 'H');
            let up = m.csi(ps, false, 'A');
            let down = m.csi(ps, false, 'B');
            let right = m.csi(ps, false, 'C');
            let left = m.csi(ps, false, 'D');
            &&& h.cells == m.cells && up.cells == m.cells && down.cells == m.cells
            &&& right.cells == m.cells && left.cells == m.cells
            &&& 1 <= p1 <= rows ==> h.cursor_row == p1 - 1
            &&& p1 == 0 ==> h.cursor_row == 0
            &&& p1 > rows ==> h.cursor_row == rows - 1
            &&& 1 <= p2 <= cols ==> h.cursor_col == p2 - 1
            &&& p2 == 0 ==> h.cursor_col == 0
            &&& p2 > cols ==> h.cursor_col == cols - 1
            &&& up.cursor_col == cc && up.cursor_row == (if n <= cr { cr - n } else { 0 })
            &&& down.cursor_col == cc && down.cursor_row == (if cr + n < rows { cr + n } else { rows - 1 })
            &&& right.cursor_row == cr && right.cursor_col == (if cc + n < cols { cc + n } else { cols - 1 })
            &&& left.cursor_row == cr && left.cursor_col == (if n <= cc { cc - n } else { 0 })
        }),
{
}

/// Printing a character writes it, with the current attributes, into the
/// cell under the cursor and moves the cursor one column right.  At the last
/// column the cursor stays and a wrap is left pending, so that the next
/// character goes to the first column of the next row (the screen scrolls up
/// when that row is the last).  No other cell of the screen changes.
pub proof fn law_print_writes_at_cursor(m: GridModel, ch: char)
    requires
        m.model_wf(),
    ensures
        ({
            let r = m.put_char(ch);
            let cr = m.cursor_row as int;
            let cc = m.cursor_col as int;
            &&& !m.pending_wrap ==> {
                &&& r.cells.len() == m.cells.len()
                &&& r.cells[cr].len() == m.cells[cr].len()
                &&& r.cells[cr][cc] == styled_cell(ch, m.attrs)
                &&& forall|k: int, c: int| 0 <= k < m.cells.len() && 0 <= c < m.cells[k].len()
                        && !(k == cr && c == cc) ==> #[trigger] r.cells[k][c] == m.cells[k][c]
                &&& r.cursor_row == m.cursor_row
                &&& cc + 1 < m.cols ==> r.cursor_col == cc + 1 && !r.pending_wrap
                &&& cc + 1 == m.cols ==> r.cursor_col == cc && r.pending_wrap
            }
            &&& (m.pending_wrap && cr + 1 < m.rows) ==> {
                &&& r.cursor_row == cr + 1
                &&& r.cells[cr + 1][0] == styled_cell(ch, m.attrs)
                &&& forall|k: int, c: int| 0 <= k < m.cells.len() && 0 <= c < m.cells[k].len()
                        && !(k == cr + 1 && c == 0) ==> #[trigger] r.cells[k][c] == m.cells[k][c]
            }
            &&& (m.pending_wrap && cr + 1 == m.rows) ==> {
                &&& r.cursor_row == cr
                &&& r.cells[cr][0] == styled_cell(ch, m.attrs)
                &&& forall|k: int| 0 <= k < cr ==> #[trigger] r.cells[k] == m.cells[k + 1]
            }
        }),
{
}

/// `CSI n P` deletes `n` (at least 1) characters at the cursor: the rest of
/// the row moves `n` columns left and blanks fill its end.  `CSI n @` inserts
/// `n` blanks at the cursor: the rest of the row moves `n` columns right and
/// what passes the last column is dropped.  The cells left of the cursor and
/// the other rows stay as they were.
pub proof fn law_delete_insert_chars(m: GridModel, ps: Seq<u16>)
    requires
        m.model_wf(),
    ensures
        ({
            let p1 = if ps.len() > 0 { ps[0] as int } else { 0 };
            let n = if p1 == 0 { 1 } else { p1 };
            let cr = m.cursor_row as int;
            let cc = m.cursor_col as int;
            let row = m.cells[cr];
            let w = row.len() as int;
            let d = m.csi(ps, false, 'P');
            let i = m.csi(ps, false, '@');
            &&& d.cells.len() == m.cells.len() && i.cells.len() == m.cells.len()
            &&& forall|k: int| 0 <= k < m.cells.len() && k != cr ==> #[trigger] d.cells[k] == m.cells[k]
            &&& forall|k: int| 0 <= k < m.cells.len() && k != cr ==> #[trigger] i.cells[k] == m.cells[k]
            &&& d.cells[cr].len() == w
            &&& forall|c: int| 0 <= c < w ==> #[trigger] d.cells[cr][c] ==
                    (if c < cc { row[c] } else if c + n < w { row[c + n] } else { default_cell() })
            &&& i.cells[cr].len() == m.cols
            &&& forall|c: int| 0 <= c < m.cols ==> #[trigger] i.cells[cr][c] ==
                    (if c < cc { row[c] } else if c < cc + n { default_cell() } else { row[c - n] })
        }),
{
}

/// `CSI n L` inserts `n` (at least 1) blank rows at the cursor row: the rows
/// from there down move `n` rows down and those pushed past the bottom are
/// lost.  `CSI n M` deletes `n` rows at the cursor row: the rows below move
/// up and blank rows enter at the bottom.  The rows above the cursor stay.
pub proof fn law_insert_delete_lines(m: GridModel, ps: Seq<u16>)
    requires
        m.model_wf(),
    ensures
        ({
            let p1 = if ps.len() > 0 { ps[0] as int } else { 0 };
            let n = if p1 == 0 { 1 } else { p1 };
            let cr = m.cursor_row as int;
            let rows = m.rows as int;
            let blank = Seq::new(m.cols as nat, |c: int| default_cell());
            let il = m.csi(ps, false, 'L');
            let dl = m.csi(ps, false, 'M');
            &&& il.cells.len() == rows && dl.cells.len() == rows
            &&& forall|k: int| 0 <= k < rows ==> #[trigger] il.cells[k] ==
                    (if k < cr { m.cells[k] } else if k < cr + n { blank } else { m.cells[k - n] })
            &&& forall|k: int| 0 <= k < rows ==> #[trigger] dl.cells[k] ==
                    (if k < cr { m.cells[k] } else if k + n < rows { m.cells[k + n] } else { blank })
        }),
{
}

/// Control characters move the cursor without changing a cell: backspace
/// one column left (not past the first), a tab to the next column that is a
/// multiple of 8 (not past the last), carriage return to the first column,
/// and line feed one row down, scrolling the screen up at the last row.
pub proof fn law_control_characters(m: GridModel)
    requires
        m.model_wf(),
    ensures
        ({
            let cr = m.cursor_row as int;
            let cc = m.cursor_col as int;
            let bs = m.execute(0x08);
            let tab = m.execute(0x09);
            let cret = m.execute(0x0D);
            let lf = m.execute(0x0A);
            &&& bs.cells == m.cells && tab.cells == m.cells && cret.cells == m.cells
            &&& bs.cursor_row == cr && bs.cursor_col == (if cc > 0 { cc - 1 } else { 0 })
            &&& tab.cursor_row == cr
            &&& tab.cursor_col < m.cols
            &&& (tab.cursor_col % 8 == 0 && cc < tab.cursor_col <= cc + 8)
                || (tab.cursor_col == m.cols - 1 && m.cols - 1 <= cc + 8 - cc % 8)
            &&& cret.cursor_row == cr && cret.cursor_col == 0
            &&& lf.cursor_col == cc
            &&& cr + 1 < m.rows ==> lf.cursor_row == cr + 1 && lf.cells == m.cells
            &&& cr + 1 == m.rows ==> lf.cursor_row == cr
                && forall|k: int| 0 <= k < cr ==> #[trigger] lf.cells[k] == m.cells[k + 1]
        }),
{
    let cc = m.cursor_col as int;
    assert((cc / 8 + 1) * 8 == cc + 8 - cc % 8) by (nonlinear_arith)
        requires 0 <= cc;
}

/// `CSI n S` scrolls the screen up `n` (at least 1) rows: every row moves
/// `n` rows up, blank rows enter at the bottom and, on the primary screen
/// with room for history, the rows that leave the top are appended to the
/// scrollback in order (the oldest history rows going first once it holds
/// its maximum).  `CSI n T` scrolls down: blank rows enter at the top and
/// the rows pushed past the bottom are lost.  The cursor stays.
pub proof fn law_scroll_up_down(m: GridModel, ps: Seq<u16>)
    requires
        m.model_wf(),
    ensures
        ({
            let p1 = if ps.len() > 0 { ps[0] as int } else { 0 };
            let n = if p1 == 0 { 1 } else { p1 };
            let rows = m.rows as int;
            let blank = Seq::new(m.cols as nat, |c: int| default_cell());
            let up = m.csi(ps, false, 'S');
            let down = m.csi(ps, false, 'T');
            &&& up.cells.len() == rows && down.cells.len() == rows
            &&& up.cursor_row == m.cursor_row && up.cursor_col == m.cursor_col
            &&& down.cursor_row == m.cursor_row && down.cursor_col == m.cursor_col
            &&& forall|k: int| 0 <= k < rows ==> #[trigger] up.cells[k] ==
                    (if k + n < rows { m.cells[k + n] } else { blank })
            &&& forall|k: int| 0 <= k < rows ==> #[trigger] down.cells[k] ==
                    (if k < n { blank } else { m.cells[k - n] })
            &&& down.scrollback == m.scrollback
            &&& (!m.is_alt_screen && n <= rows && m.scrollback.len() + n <= m.max_scrollback) ==>
                    up.scrollback == m.scrollback + m.cells.take(n)
            &&& (!m.is_alt_screen && n <= rows && m.max_scrollback > 0) ==> {
                    &&& up.scrollback.len() <= m.max_scrollback
                    &&& up.scrollback.len() >= n || up.scrollback.len() == m.max_scrollback
                    &&& forall|k: int| 0 <= k < n && up.scrollback.len() - n + k >= 0 ==>
                        #[trigger] up.scrollback[up.scrollback.len() - n + k] == m.cells[k]
                }
            &&& m.is_alt_screen ==> up.scrollback == m.scrollback
        }),
{
    let p1 = if ps.len() > 0 { ps[0] as int } else { 0 };
    let n = if p1 == 0 { 1 } else { p1 };
    let all = m.cells + blank_rows(n as nat, m.cols as nat);
    assert(all.take(n) =~= m.cells.take(n) || n > m.rows);
}

/// Entering the alternate screen and leaving it again gives back the
/// primary screen as it was: its cells, cursor, attributes and scrollback.
pub proof fn law_alt_screen_round_trip(m: GridModel)
    requires
        m.model_wf(),
        !m.is_alt_screen,
    ensures
        ({
            let r = m.enter_alt_screen().leave_alt_screen();
            &&& !r.is_alt_screen
            &&& r.cells == m.cells
            &&& r.cursor_row == m.cursor_row
            &&& r.cursor_col == m.cursor_col
            &&& r.attrs == m.attrs
            &&& r.scrollback == m.scrollback
        }),
{
}

/// While the alternate screen is active, printing, control characters and
/// escape sequences leave the saved primary screen and the scrollback
/// alone: what a full-screen program draws never reaches them.
pub proof fn law_alt_screen_keeps_primary(m: GridModel, c: char, byte: u8)
    requires
        m.model_wf(),
        m.is_alt_screen,
    ensures
        m.put_char(c).alt_cells == m.alt_cells && m.put_char(c).scrollback == m.scrollback,
        m.execute(byte).alt_cells == m.alt_cells && m.execute(byte).scrollback == m.scrollback,
        byte != 0x63 ==> m.esc(byte).alt_cells == m.alt_cells && m.esc(byte).scrollback == m.scrollback,
{
    assert(m.scrollback.len() == 0 ==> m.scrollback =~= Seq::<Seq<Cell>>::empty());
}

/// Control sequences on the alternate screen leave the saved primary screen
/// and the scrollback alone too (except the private modes, which may switch
/// screens).
pub proof fn law_alt_screen_csi_keeps_primary(m: GridModel, ps: Seq<u16>, action: char)
    requires
        m.model_wf(),
        m.is_alt_screen,
    ensures
        m.csi(ps, false, action).alt_cells == m.alt_cells,
        m.csi(ps, false, action).scrollback == m.scrollback,
{
    assert(m.scrollback.len() == 0 ==> m.scrollback =~= Seq::<Seq<Cell>>::empty());
}


/// What the alternate screen keeps for the primary screen, and the screen
/// size: both unchanged by anything drawn on the alternate screen.
pub open spec fn keeps_saved_screen(a: GridModel, b: GridModel) -> bool {
    &&& a.is_alt_screen == b.is_alt_screen
    &&& a.alt_cells == b.alt_cells
    &&& a.saved_primary_cursor == b.saved_primary_cursor
    &&& a.saved_primary_attrs == b.saved_primary_attrs
    &&& a.rows == b.rows
    &&& a.cols == b.cols
    &&& a.max_scrollback == b.max_scrollback
}

/// `keeps_saved_screen`, with the scrollback unchanged too.
pub open spec fn same_saved_primary(a: GridModel, b: GridModel) -> bool {
    &&& keeps_saved_screen(a, b)
    &&& a.scrollback == b.scrollback
}

/// A private mode that leaves the alternate screen when switched off.
pub open spec fn is_screen_mode(p: u16) -> bool {
    p == 1049 || p == 1047 || p == 47
}

#[verifier::spinoff_prover]
pub(crate) proof fn lemma_put_char_keeps_saved(m: GridModel, c: char)
    requires
        m.is_alt_screen,
        m.scrollback.len() <= m.max_scrollback,
    ensures
        same_saved_primary(m.put_char(c), m),
{
    assert(m.scrollback.len() == 0 ==> m.scrollback =~= Seq::<Seq<Cell>>::empty());
}

#[verifier::spinoff_prover]
pub(crate) proof fn lemma_execute_keeps_saved(m: GridModel, b: u8)
    requires
        m.is_alt_screen,
        m.scrollback.len() <= m.max_scrollback,
    ensures
        same_saved_primary(m.execute(b), m),
{
    assert(m.scrollback.len() == 0 ==> m.scrollback =~= Seq::<Seq<Cell>>::empty());
}

#[verifier::spinoff_prover]
pub(crate) proof fn lemma_esc_keeps_saved(m: GridModel, b: u8)
    requires
        m.is_alt_screen,
        m.scrollback.len() <= m.max_scrollback,
        b != 0x63,
    ensures
        same_saved_primary(m.esc(b), m),
{
    assert(m.scrollback.len() == 0 ==> m.scrollback =~= Seq::<Seq<Cell>>::empty());
}

#[verifier::spinoff_prover]
#[verifier::rlimit(60)]
pub(crate) proof fn lemma_csi_keeps_saved(m: GridModel, ps: Seq<u16>, action: char)
    requires
        m.is_alt_screen,
        m.scrollback.len() <= m.max_scrollback,
    ensures
        same_saved_primary(m.csi(ps, false, action), m),
{
    assert(m.scrollback.len() == 0 ==> m.scrollback =~= Seq::<Seq<Cell>>::empty());
}

proof fn lemma_set_modes_keeps_saved(m: GridModel, ps: Seq<u16>, i: int, on: bool)
    requires
        m.is_alt_screen,
        m.scrollback.len() <= m.max_scrollback,
        !on ==> forall|k: int| i <= k < ps.len() ==> !is_screen_mode(#[trigger] ps[k]),
    ensures
        same_saved_primary(m.set_modes(ps, i, on), m),
    decreases ps.len() - i,
{
    if 0 <= i < ps.len() {
        let m1 = m.set_mode(ps[i], on);
        assert(same_saved_primary(m1, m));
        lemma_set_modes_keeps_saved(m1, ps, i + 1, on);
    }
}

#[verifier::spinoff_prover]
pub(crate) proof fn lemma_private_csi_keeps_saved(m: GridModel, ps: Seq<u16>, action: char)
    requires
        m.is_alt_screen,
        m.scrollback.len() <= m.max_scrollback,
        !(action == 'l' && exists|k: int| 0 <= k < ps.len() && is_screen_mode(#[trigger] ps[k])),
    ensures
        same_saved_primary(m.csi(ps, true, action), m),
{
    assert(m.scrollback.len() == 0 ==> m.scrollback =~= Seq::<Seq<Cell>>::empty());
    let m0 = GridModel { pending_wrap: false, ..m };
    if action == 'h' {
        lemma_set_modes_keeps_saved(m0, ps, 0, true);
    } else if action == 'l' {
        lemma_set_modes_keeps_saved(m0, ps, 0, false);
    } else {
        lemma_csi_keeps_saved(m, ps, action);
        assert(m.csi(ps, true, action) == m.csi(ps, false, action));
    }
}

proof fn lemma_widen_rows_same(rs: Seq<Seq<Cell>>, n: nat)
    requires
        rows_wide(rs, n),
    ensures
        widen_rows(rs, n) == rs,
{
    assert(widen_rows(rs, n) =~= rs);
}

proof fn lemma_last_content_row(rs: Seq<Seq<Cell>>, k: int)
    requires
        0 <= k <= rs.len(),
    ensures
        last_content_below(rs, k) < k,
        last_content_below(rs, k) >= 0 ==> !row_is_blank(rs[last_content_below(rs, k)]),
    decreases k,
{
    if k > 0 && row_is_blank(rs[k - 1]) {
        lemma_last_content_row(rs, k - 1);
    }
}

proof fn lemma_non_blank_rows_all(s: Seq<Seq<Cell>>)
    requires
        forall|i: int| 0 <= i < s.len() ==> !row_is_blank(#[trigger] s[i]),
    ensures
        non_blank_rows(s) == s,
    decreases s.len(),
{
    reveal(Seq::filter);
    if s.len() > 0 {
        lemma_non_blank_rows_all(s.drop_last());
        assert(s.drop_last().push(s.last()) =~= s);
    }
}

/// The rows at and below `from` are blank rows of `cols` cells.
pub open spec fn blank_from(rs: Seq<Seq<Cell>>, from: int, cols: nat) -> bool {
    forall|i: int| from <= i < rs.len() ==> #[trigger] rs[i] == blank_row(cols)
}

/// Shrinking the screen and growing it back to its height gives back the
/// lines, the scrollback and the cursor as they were, when nothing is lost
/// on the way: the primary screen is shown, the scrollback starts empty and
/// has room for the lines pushed into it, the lines pushed out of the top
/// have content, the cursor is not among them, and the rows below the
/// lowest row in use are blank.
#[verifier::spinoff_prover]
#[verifier::rlimit(40)]
pub proof fn law_resize_round_trip(m: GridModel, rows: usize)
    requires
        m.model_wf(),
        !m.is_alt_screen,
        0 < rows < m.rows,
        m.scrollback.len() == 0,
        m.max_scrollback >= m.rows,
        blank_from(m.cells, active_bottom(m.cells, m.cursor_row as int) + 1, m.cols as nat),
        forall|i: int| 0 <= i < active_bottom(m.cells, m.cursor_row as int) + 1 - rows
            ==> !row_is_blank(#[trigger] m.cells[i]),
        m.cursor_row + rows >= active_bottom(m.cells, m.cursor_row as int) + 1,
    ensures
        ({
            let back = m.resized(rows, m.cols).resized(m.rows, m.cols);
            &&& back.cells == m.cells
            &&& back.scrollback == m.scrollback
            &&& back.cursor_row == m.cursor_row
            &&& back.cursor_col == m.cursor_col
            &&& back.rows == m.rows
        }),
{
    let big = m.rows as int;
    let small = rows as int;
    let cols = m.cols as nat;
    let cells = m.cells;
    let bottom = active_bottom(cells, m.cursor_row as int);
    lemma_last_content_row(cells, big);
    lemma_widen_rows_same(cells, cols);
    lemma_widen_rows_same(m.scrollback, cols);
    let m1 = m.resized(rows, m.cols);
    if bottom + 1 > small {
        let o = bottom + 1 - small;
        let moved = cells.take(o);
        lemma_non_blank_rows_all(moved);
        let c1 = cells.skip(o).take(small);
        assert(m1.cells == c1);
        assert(m1.scrollback == moved);
        assert(m1.cursor_row == m.cursor_row - o);
        assert(rows_wide(m1.cells, cols));
        assert(rows_wide(m1.scrollback, cols));
        lemma_widen_rows_same(m1.cells, cols);
        lemma_widen_rows_same(m1.scrollback, cols);
        lemma_last_content_row(c1, small);
        let b1 = active_bottom(c1, m1.cursor_row as int);
        if m.cursor_row as int >= last_content_below(cells, big) {
            assert(b1 >= small - 1);
        } else {
            assert(c1[small - 1] == cells[bottom]);
            assert(last_content_below(c1, small) == small - 1);
        }
        assert(b1 >= small - 1);
        let m2 = m1.resized(m.rows, m.cols);
        assert(moved.skip(0) + c1 =~= cells.take(bottom + 1));
        assert(m2.cells =~= cells);
        assert(m2.scrollback =~= m.scrollback);
    } else {
        assert(m1.cells == cells.take(small));
        assert(m1.scrollback == m.scrollback);
        assert(rows_wide(m1.cells, cols));
        lemma_widen_rows_same(m1.cells, cols);
        let m2 = m1.resized(m.rows, m.cols);
        assert(m2.cells =~= cells);
        assert(m2.scrollback =~= m.scrollback);
    }
}

} // verus!