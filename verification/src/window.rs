//! The terminal window's reactions to keyboard, mouse, resize and network
//! events: what changes in the selection and scroll position, and what is
//! sent to the remote side.  The window itself (pixels, clipboard, timers)
//! maps its messages to these calls.

use vstd::prelude::*;
use vstd::string::StrSliceExecFns;
use vstd::utf8::encode_utf8;
use crate::grid::TerminalGrid;
use crate::grid_model::{MouseMode, GridModel};
use crate::input::{
    InputState, format_sgr_mouse, sgr_mouse_report, select_word_at, select_line_at, spec_has_selection,
    word_span,
};
use crate::net::NetworkEvent;
use crate::render::{spec_viewport_top, viewport_top};
use crate::text::{chars_of, string_from_chars};

verus! {

// ─── Keys ───────────────────────────────────────────────────────────────────

/// The bytes a named key sends, by its Windows virtual-key code (Shift
/// turns Tab into back-tab).
pub open spec fn key_sequence(vk: u16, shift: bool) -> Option<Seq<u8>> {
    if vk == 0x26 { Some(seq![0x1bu8, 0x5b, 0x41]) }
    else if vk == 0x28 { Some(seq![0x1bu8, 0x5b, 0x42]) }
    else if vk == 0x27 { Some(seq![0x1bu8, 0x5b, 0x43]) }
    else if vk == 0x25 { Some(seq![0x1bu8, 0x5b, 0x44]) }
    else if vk == 0x24 { Some(seq![0x1bu8, 0x5b, 0x48]) }
    else if vk == 0x23 { Some(seq![0x1bu8, 0x5b, 0x46]) }
    else if vk == 0x21 { Some(seq![0x1bu8, 0x5b, 0x35, 0x7e]) }
    else if vk == 0x22 { Some(seq![0x1bu8, 0x5b, 0x36, 0x7e]) }
    else if vk == 0x2d { Some(seq![0x1bu8, 0x5b, 0x32, 0x7e]) }
    else if vk == 0x2e { Some(seq![0x1bu8, 0x5b, 0x33, 0x7e]) }
    else if vk == 0x08 { Some(seq![0x7fu8]) }
    else if vk == 0x1b { Some(seq![0x1bu8]) }
    else if vk == 0x09 { if shift { Some(seq![0x1bu8, 0x5b, 0x5a]) } else { Some(seq![0x09u8]) } }
    else if vk == 0x0d { Some(seq![0x0du8]) }
    else if vk == 0x70 { Some(seq![0x1bu8, 0x4f, 0x50]) }
    else if vk == 0x71 { Some(seq![0x1bu8, 0x4f, 0x51]) }
    else if vk == 0x72 { Some(seq![0x1bu8, 0x4f, 0x52]) }
    else if vk == 0x73 { Some(seq![0x1bu8, 0x4f, 0x53]) }
    else if vk == 0x74 { Some(seq![0x1bu8, 0x5b, 0x31, 0x35, 0x7e]) }
    else if vk == 0x75 { Some(seq![0x1bu8, 0x5b, 0x31, 0x37, 0x7e]) }
    else if vk == 0x76 { Some(seq![0x1bu8, 0x5b, 0x31, 0x38, 0x7e]) }
    else if vk == 0x77 { Some(seq![0x1bu8, 0x5b, 0x31, 0x39, 0x7e]) }
    else if vk == 0x78 { Some(seq![0x1bu8, 0x5b, 0x32, 0x30, 0x7e]) }
    else if vk == 0x79 { Some(seq![0x1bu8, 0x5b, 0x32, 0x31, 0x7e]) }
    else if vk == 0x7a { Some(seq![0x1bu8, 0x5b, 0x32, 0x33, 0x7e]) }
    else if vk == 0x7b { Some(seq![0x1bu8, 0x5b, 0x32, 0x34, 0x7e]) }
    else { None }
}

/// Each named key sends its own bytes: two different keys never send the
/// same sequence, and Delete sends `ESC [ 3 ~`, Insert `ESC [ 2 ~`.
pub proof fn law_keys_send_distinct_sequences(vk1: u16, s1: bool, vk2: u16, s2: bool)
    ensures
        key_sequence(vk1, s1) is Some && key_sequence(vk1, s1) == key_sequence(vk2, s2) ==> vk1 == vk2,
        key_sequence(0x2e, s1) == Some(seq![0x1bu8, 0x5b, 0x33, 0x7e]),
        key_sequence(0x2d, s1) == Some(seq![0x1bu8, 0x5b, 0x32, 0x7e]),
{
    if key_sequence(vk1, s1) is Some && key_sequence(vk1, s1) == key_sequence(vk2, s2) {
        let a = key_sequence(vk1, s1)->0;
        assert(a.len() >= 1);
        if a.len() == 1 {
            assert(a[0] == 0x7f || a[0] == 0x1b || a[0] == 0x09 || a[0] == 0x0d);
        } else if a.len() == 3 {
            assert(a[1] == 0x5b || a[1] == 0x4f);
        } else if a.len() == 4 {
            assert(a[2] == 0x35 || a[2] == 0x36 || a[2] == 0x32 || a[2] == 0x33);
        } else {
            assert(a.len() == 5);
        }
    }
}

/// The xterm sequences of the navigation and editing keys: the arrows Up,
/// Down, Right and Left send `ESC [ A`, `B`, `C`, `D`; Home and End
/// `ESC [ H` and `ESC [ F`; Page Up and Page Down `ESC [ 5 ~` and
/// `ESC [ 6 ~`; Backspace sends DEL, Enter CR, Escape ESC, Tab HT and
/// Shift+Tab `ESC [ Z`; F1 to F4 send `ESC O P` to `ESC O S`.  A key that is
/// not a named key sends nothing here (its text comes as characters).
pub proof fn law_navigation_keys(shift: bool)
    ensures
        key_sequence(0x26, shift) == Some(seq![27u8, 91, 65]),
        key_sequence(0x28, shift) == Some(seq![27u8, 91, 66]),
        key_sequence(0x27, shift) == Some(seq![27u8, 91, 67]),
        key_sequence(0x25, shift) == Some(seq![27u8, 91, 68]),
        key_sequence(0x24, shift) == Some(seq![27u8, 91, 72]),
        key_sequence(0x23, shift) == Some(seq![27u8, 91, 70]),
        key_sequence(0x21, shift) == Some(seq![27u8, 91, 53, 126]),
        key_sequence(0x22, shift) == Some(seq![27u8, 91, 54, 126]),
        key_sequence(0x08, shift) == Some(seq![127u8]),
        key_sequence(0x0d, shift) == Some(seq![13u8]),
        key_sequence(0x1b, shift) == Some(seq![27u8]),
        key_sequence(0x09, false) == Some(seq![9u8]),
        key_sequence(0x09, true) == Some(seq![27u8, 91, 90]),
        key_sequence(0x70, shift) == Some(seq![27u8, 79, 80]),
        key_sequence(0x71, shift) == Some(seq![27u8, 79, 81]),
        key_sequence(0x72, shift) == Some(seq![27u8, 79, 82]),
        key_sequence(0x73, shift) == Some(seq![27u8, 79, 83]),
        key_sequence(0x41, shift) is None,
{
}

/// The bytes a named key sends (see `key_sequence`): arrows, Home/End,
/// Page Up/Down, Insert/Delete, Backspace, Escape, Tab, Enter and F1-F12.
pub fn keydown_to_escape_sequence(vk: u16, shift: bool) -> (r: Option<Vec<u8>>)
    ensures
        match r {
            Some(v) => key_sequence(vk, shift) == Some(v@),
            None => key_sequence(vk, shift) is None,
        },
{
    let r: Option<Vec<u8>> = if vk == 0x26 { Some(vec![0x1bu8, 0x5b, 0x41]) }
    else if vk == 0x28 { Some(vec![0x1bu8, 0x5b, 0x42]) }
    else if vk == 0x27 { Some(vec![0x1bu8, 0x5b, 0x43]) }
    else if vk == 0x25 { Some(vec![0x1bu8, 0x5b, 0x44]) }
    else if vk == 0x24 { Some(vec![0x1bu8, 0x5b, 0x48]) }
    else if vk == 0x23 { Some(vec![0x1bu8, 0x5b, 0x46]) }
    else if vk == 0x21 { Some(vec![0x1bu8, 0x5b, 0x35, 0x7e]) }
    else if vk == 0x22 { Some(vec![0x1bu8, 0x5b, 0x36, 0x7e]) }
    else if vk == 0x2d { Some(vec![0x1bu8, 0x5b, 0x32, 0x7e]) }
    else if vk == 0x2e { Some(vec![0x1bu8, 0x5b, 0x33, 0x7e]) }
    else if vk == 0x08 { Some(vec![0x7fu8]) }
    else if vk == 0x1b { Some(vec![0x1bu8]) }
    else if vk == 0x09 { if shift { Some(vec![0x1bu8, 0x5b, 0x5a]) } else { Some(vec![0x09u8]) } }
    else if vk == 0x0d { Some(vec![0x0du8]) }
    else if vk == 0x70 { Some(vec![0x1bu8, 0x4f, 0x50]) }
    else if vk == 0x71 { Some(vec![0x1bu8, 0x4f, 0x51]) }
    else if vk == 0x72 { Some(vec![0x1bu8, 0x4f, 0x52]) }
    else if vk == 0x73 { Some(vec![0x1bu8, 0x4f, 0x53]) }
    else if vk == 0x74 { Some(vec![0x1bu8, 0x5b, 0x31, 0x35, 0x7e]) }
    else if vk == 0x75 { Some(vec![0x1bu8, 0x5b, 0x31, 0x37, 0x7e]) }
    else if vk == 0x76 { Some(vec![0x1bu8, 0x5b, 0x31, 0x38, 0x7e]) }
    else if vk == 0x77 { Some(vec![0x1bu8, 0x5b, 0x31, 0x39, 0x7e]) }
    else if vk == 0x78 { Some(vec![0x1bu8, 0x5b, 0x32, 0x30, 0x7e]) }
    else if vk == 0x79 { Some(vec![0x1bu8, 0x5b, 0x32, 0x31, 0x7e]) }
    else if vk == 0x7a { Some(vec![0x1bu8, 0x5b, 0x32, 0x33, 0x7e]) }
    else if vk == 0x7b { Some(vec![0x1bu8, 0x5b, 0x32, 0x34, 0x7e]) }
    else { None };
    r
}

/// A named key was pressed: the selection is dropped and the view goes back
/// to the bottom; the window then sends the key's bytes.
pub fn on_named_key(input: &mut InputState, scroll_offset: &mut usize)
    ensures
        final(input).sel_anchor is None,
        final(input).sel_cursor is None,
        final(input).dragging == old(input).dragging,
        final(input).click_count == old(input).click_count,
        *final(scroll_offset) == 0,
{
    input.clear_selection();
    *scroll_offset = 0;
}

/// Calls `char::from_u32`: the character with that code, absent for a
/// surrogate or a code past U+10FFFF.
#[verifier::external_body]
fn char_from_code(code: u32) -> (r: Option<char>)
    ensures
        r is Some <==> (code < 0xd800 || (0xdfff < code && code <= 0x10ffff)),
        r matches Some(c) ==> c == code as char,
{
    char::from_u32(code)
}

/// The bytes a typed character (a UTF-16 unit from the keyboard) sends: its
/// UTF-8 encoding.  Backspace, Tab, Enter and Escape were already sent as
/// named keys, and a lone surrogate is no character: they send nothing.
pub open spec fn char_bytes(unit: u16) -> Option<Seq<u8>> {
    if unit == 8 || unit == 9 || unit == 13 || unit == 27 {
        None
    } else if 0xd800 <= unit <= 0xdfff {
        None
    } else {
        Some(encode_utf8(seq![unit as char]))
    }
}

/// A character was typed: when it sends bytes (see `char_bytes`), the
/// selection is dropped and the view goes back to the bottom.
pub fn on_char(input: &mut InputState, scroll_offset: &mut usize, unit: u16) -> (r: Option<Vec<u8>>)
    ensures
        match r {
            Some(v) => char_bytes(unit) == Some(v@)
                && final(input).sel_anchor is None && final(input).sel_cursor is None
                && *final(scroll_offset) == 0,
            None => char_bytes(unit) is None && *final(input) == *old(input)
                && *final(scroll_offset) == *old(scroll_offset),
        },
        final(input).dragging == old(input).dragging,
        final(input).click_count == old(input).click_count,
{
    if unit == 8 || unit == 9 || unit == 13 || unit == 27 {
        return None;
    }
    match char_from_code(unit as u32) {
        Some(c) => {
            input.clear_selection();
            *scroll_offset = 0;
            let mut one: Vec<char> = Vec::new();
            one.push(c);
            let s = string_from_chars(&one);
            let bytes = s.as_str().as_bytes_vec();
            proof {
                assert(one@ =~= seq![unit as char]);
            }
            Some(bytes)
        },
        None => None,
    }
}

// ─── Mouse ──────────────────────────────────────────────────────────────────

/// Whether the remote program gets the mouse: it asked for reports and
/// Shift (which keeps the mouse for local selection) is not held.
pub open spec fn mouse_to_remote(m: GridModel, shift: bool) -> bool {
    m.mouse_mode != MouseMode::Off && !shift
}

fn mouse_to_remote_exec(grid: &TerminalGrid, shift: bool) -> (b: bool)
    ensures
        b == mouse_to_remote(grid@, shift),
{
    let m = grid.mouse_mode_now();
    !(m == MouseMode::Off) && !shift
}

/// The click count after a press: one more than before when the previous
/// press was recent (`recent`, 500 ms in the window), otherwise one.
pub open spec fn next_click_count(old_count: u8, had_click: bool, recent: bool) -> int {
    if had_click && recent { old_count + 1 } else { 1 }
}

/// The left button went down on screen cell `(row, col)` at `now`.  When the
/// remote program gets the mouse, a press report is sent.  Otherwise a
/// local selection starts: one click sets both ends on the cell, two select
/// the word there, three or more the whole row (the count stops at three).
/// `recent` tells whether the previous press was recent enough to count.
pub fn on_left_button_down(grid: &TerminalGrid, input: &mut InputState, scroll_offset: usize, row: usize, col: usize, shift: bool, now: std::time::Instant, recent: bool) -> (r: Option<Vec<u8>>)
    requires
        grid.wf(),
        old(input).click_count < 255,
        row < usize::MAX,
        col < usize::MAX,
        spec_viewport_top(grid@.is_alt_screen, grid@.scrollback.len(), scroll_offset as nat) + row <= usize::MAX,
    ensures
        mouse_to_remote(grid@, shift) ==> (r matches Some(v) && v@ == sgr_mouse_report(0, col as nat, row as nat, false)
            && *final(input) == (InputState { dragging: true, ..*old(input) })),
        !mouse_to_remote(grid@, shift) ==> ({
            let abs_row = (spec_viewport_top(grid@.is_alt_screen, grid@.scrollback.len(), scroll_offset as nat) + row) as usize;
            let count = next_click_count(old(input).click_count, old(input).last_click_time is Some, recent);
            &&& r is None
            &&& final(input).dragging
            &&& !final(input).has_dragged
            &&& final(input).start_pos == Some((abs_row, col))
            &&& final(input).last_click_time == Some(now)
            &&& final(input).click_count == if count >= 3 { 3 } else { count }
            &&& count == 1 ==> final(input).sel_anchor == Some((abs_row, col)) && final(input).sel_cursor == Some((abs_row, col))
            &&& count == 2 ==> (abs_row < grid@.lines().len() ==> ({
                    let span = word_span(grid@.lines()[abs_row as int], col as int);
                    final(input).sel_anchor == Some((abs_row, span.0 as usize))
                        && final(input).sel_cursor == Some((abs_row, span.1 as usize))
                }))
                && (abs_row >= grid@.lines().len() ==> final(input).sel_anchor == old(input).sel_anchor
                    && final(input).sel_cursor == old(input).sel_cursor)
            &&& count >= 3 ==> final(input).sel_anchor == Some((abs_row, 0usize))
                && final(input).sel_cursor == Some((abs_row, (if grid@.cols > 0 { grid@.cols - 1 } else { 0 }) as usize))
        }),
{
    if mouse_to_remote_exec(grid, shift) {
        input.dragging = true;
        return Some(format_sgr_mouse(0, col, row, false));
    }
    let abs_row = viewport_top(grid, scroll_offset) + row;
    input.dragging = true;
    input.has_dragged = false;
    input.start_pos = Some((abs_row, col));
    let had_click = input.last_click_time.is_some();
    if had_click && recent {
        input.click_count = input.click_count + 1;
    } else {
        input.click_count = 1;
    }
    input.last_click_time = Some(now);
    if input.click_count == 1 {
        input.sel_anchor = Some((abs_row, col));
        input.sel_cursor = Some((abs_row, col));
    } else if input.click_count == 2 {
        select_word_at(grid, abs_row, col, input);
    } else {
        input.click_count = 3;
        select_line_at(grid, abs_row, input);
    }
    None
}

/// The mouse moved over screen cell `(row, col)`.  When the remote program
/// gets the mouse, a motion report is sent in any-event mode, or in
/// button-event mode while a button is down (code 32 dragging, 35 not).
/// Otherwise, while dragging, the selection follows the mouse (starting at
/// the press position when it had no anchor yet).  Gives the bytes to send
/// and whether to repaint.
pub fn on_mouse_move(grid: &TerminalGrid, input: &mut InputState, scroll_offset: usize, row: usize, col: usize, shift: bool) -> (r: (Option<Vec<u8>>, bool))
    requires
        row < usize::MAX,
        col < usize::MAX,
        spec_viewport_top(grid@.is_alt_screen, grid@.scrollback.len(), scroll_offset as nat) + row <= usize::MAX,
    ensures
        mouse_to_remote(grid@, shift) ==> *final(input) == *old(input) && !r.1 && (
            if grid@.mouse_mode == MouseMode::AnyEvent || (grid@.mouse_mode == MouseMode::ButtonEvent && old(input).dragging) {
                r.0 matches Some(v) && v@ == sgr_mouse_report(if old(input).dragging { 32 } else { 35 }, col as nat, row as nat, false)
            } else {
                r.0 is None
            }),
        !mouse_to_remote(grid@, shift) ==> r.0 is None && r.1 == old(input).dragging && (if old(input).dragging {
            let abs_row = (spec_viewport_top(grid@.is_alt_screen, grid@.scrollback.len(), scroll_offset as nat) + row) as usize;
            *final(input) == (InputState {
                has_dragged: true,
                sel_anchor: if old(input).sel_anchor is None { old(input).start_pos } else { old(input).sel_anchor },
                sel_cursor: Some((abs_row, col)),
                ..*old(input)
            })
        } else {
            *final(input) == *old(input)
        }),
{
    if mouse_to_remote_exec(grid, shift) {
        let m = grid.mouse_mode_now();
        if m == MouseMode::AnyEvent || (m == MouseMode::ButtonEvent && input.dragging) {
            let code: u32 = if input.dragging { 32 } else { 35 };
            return (Some(format_sgr_mouse(code, col, row, false)), false);
        }
        return (None, false);
    }
    if input.dragging {
        input.has_dragged = true;
        let abs_row = viewport_top(grid, scroll_offset) + row;
        if input.sel_anchor.is_none() {
            input.sel_anchor = input.start_pos;
        }
        input.sel_cursor = Some((abs_row, col));
        return (None, true);
    }
    (None, false)
}

/// The left button went up over screen cell `(row, col)`.  When the remote
/// program gets the mouse, a release report is sent.  Otherwise dragging
/// stops, and a single click that did not drag drops the selection.
pub fn on_left_button_up(grid: &TerminalGrid, input: &mut InputState, row: usize, col: usize, shift: bool) -> (r: Option<Vec<u8>>)
    requires
        row < usize::MAX,
        col < usize::MAX,
    ensures
        mouse_to_remote(grid@, shift) ==> (r matches Some(v) && v@ == sgr_mouse_report(0, col as nat, row as nat, true)
            && *final(input) == (InputState { dragging: false, ..*old(input) })),
        !mouse_to_remote(grid@, shift) ==> r is None && *final(input) == (if !old(input).has_dragged && old(input).click_count <= 1 {
            InputState { dragging: false, sel_anchor: None, sel_cursor: None, ..*old(input) }
        } else {
            InputState { dragging: false, ..*old(input) }
        }),
{
    if mouse_to_remote_exec(grid, shift) {
        input.dragging = false;
        return Some(format_sgr_mouse(0, col, row, true));
    }
    input.dragging = false;
    if !input.has_dragged && input.click_count <= 1 {
        input.clear_selection();
    }
    None
}

/// What a right click or Ctrl+C does.
pub enum ClipboardAction {
    /// Copy this text (the selection) to the clipboard.
    Copy(String),
    /// Paste the clipboard into the terminal.
    Paste,
    /// Nothing reaches the clipboard or the remote side (a selection whose
    /// text is empty, or Ctrl+Shift+C without a selection).
    Ignore,
    /// Not a clipboard action: the key goes to the remote side.
    PassThrough,
}

/// The right button went down: with a selection, the selection is dropped
/// and its text copied (nothing is copied when that text is empty, so the
/// clipboard keeps what it held); otherwise the clipboard is pasted.
pub fn on_right_button_down(grid: &TerminalGrid, input: &mut InputState) -> (r: ClipboardAction)
    requires
        grid.wf(),
    ensures
        spec_has_selection(old(input).sel_anchor, old(input).sel_cursor) ==> ({
            let t = grid@.selection_text(old(input).sel_anchor->0, old(input).sel_cursor->0);
            &&& t.len() > 0 ==> (r matches ClipboardAction::Copy(x) && x@ == t)
            &&& t.len() == 0 ==> r is Ignore
            &&& *final(input) == (InputState { sel_anchor: None, sel_cursor: None, ..*old(input) })
        }),
        !spec_has_selection(old(input).sel_anchor, old(input).sel_cursor) ==> r is Paste && *final(input) == *old(input),
{
    match (input.sel_anchor, input.sel_cursor) {
        (Some(a), Some(b)) => {
            if input.has_selection() {
                let text = grid.selected_text(a, b);
                input.clear_selection();
                if text.as_str().is_empty() {
                    return ClipboardAction::Ignore;
                }
                return ClipboardAction::Copy(text);
            }
        },
        _ => {},
    }
    ClipboardAction::Paste
}

/// Ctrl+C was pressed: with a selection, the selection is dropped and its
/// text copied (nothing is copied when that text is empty) and nothing is
/// sent; with Shift and no selection nothing happens; otherwise the key goes
/// on to the remote side as an interrupt.
pub fn on_copy_shortcut(grid: &TerminalGrid, input: &mut InputState, shift: bool) -> (r: ClipboardAction)
    requires
        grid.wf(),
    ensures
        spec_has_selection(old(input).sel_anchor, old(input).sel_cursor) ==> ({
            let t = grid@.selection_text(old(input).sel_anchor->0, old(input).sel_cursor->0);
            &&& t.len() > 0 ==> (r matches ClipboardAction::Copy(x) && x@ == t)
            &&& t.len() == 0 ==> r is Ignore
            &&& *final(input) == (InputState { sel_anchor: None, sel_cursor: None, ..*old(input) })
        }),
        !spec_has_selection(old(input).sel_anchor, old(input).sel_cursor) ==> *final(input) == *old(input)
            && (if shift { r is Ignore } else { r is PassThrough }),
{
    match on_right_button_down(grid, input) {
        ClipboardAction::Copy(t) => ClipboardAction::Copy(t),
        ClipboardAction::Paste => if shift { ClipboardAction::Ignore } else { ClipboardAction::PassThrough },
        _ => ClipboardAction::Ignore,
    }
}

// ─── Wheel ──────────────────────────────────────────────────────────────────

/// `n` copies of `s`.
pub open spec fn repeated(s: Seq<u8>, n: nat) -> Seq<u8>
    decreases n,
{
    if n == 0 { seq![] } else { repeated(s, (n - 1) as nat) + s }
}

/// The mouse wheel turned `notches` steps (at least one), up or down.  On
/// the alternate screen it sends that many cursor-up or cursor-down keys;
/// otherwise the view scrolls `notches * scroll_lines` rows into the
/// scrollback (never past its oldest row) or back toward the bottom.
pub fn on_wheel(grid: &TerminalGrid, scroll_offset: &mut usize, notches: usize, up: bool, scroll_lines: usize) -> (r: Option<Vec<u8>>)
    requires
        notches >= 1,
        notches * scroll_lines <= usize::MAX,
    ensures
        grid@.is_alt_screen ==> (r matches Some(v)
            && v@ == repeated(if up { seq![0x1bu8, 0x5b, 0x41] } else { seq![0x1bu8, 0x5b, 0x42] }, notches as nat)),
        grid@.is_alt_screen ==> *final(scroll_offset) == *old(scroll_offset),
        !grid@.is_alt_screen ==> r is None && *final(scroll_offset) == (if up {
            if *old(scroll_offset) + notches * scroll_lines <= grid@.scrollback.len() {
                (*old(scroll_offset) + notches * scroll_lines) as usize
            } else if *old(scroll_offset) + notches * scroll_lines > usize::MAX {
                if usize::MAX <= grid@.scrollback.len() { usize::MAX } else { grid@.scrollback.len() as usize }
            } else {
                grid@.scrollback.len() as usize
            }
        } else {
            if *old(scroll_offset) >= notches * scroll_lines { (*old(scroll_offset) - notches * scroll_lines) as usize } else { 0 }
        }),
{
    if grid.alt_screen_active() {
        let mut bytes: Vec<u8> = Vec::new();
        let mut i: usize = 0;
        let ghost s = if up { seq![0x1bu8, 0x5b, 0x41] } else { seq![0x1bu8, 0x5b, 0x42] };
        while i < notches
            invariant
                i <= notches,
                s == if up { seq![0x1bu8, 0x5b, 0x41] } else { seq![0x1bu8, 0x5b, 0x42] },
                bytes@ == repeated(s, i as nat),
            decreases notches - i,
        {
            bytes.push(0x1b);
            bytes.push(0x5b);
            bytes.push(if up { 0x41 } else { 0x42 });
            i = i + 1;
            assert(bytes@ =~= repeated(s, i as nat));
        }
        return Some(bytes);
    }
    let max_offset = grid.scrollback_len();
    let jump = notches * scroll_lines;
    if up {
        let raised = scroll_offset.saturating_add(jump);
        *scroll_offset = if raised < max_offset { raised } else { max_offset };
    } else {
        *scroll_offset = scroll_offset.saturating_sub(jump);
    }
    None
}

// ─── Resize ─────────────────────────────────────────────────────────────────

/// What to tell the remote side about the window's new size.
#[derive(Debug, Clone, Copy, PartialEq, Eq, Structural)]
pub enum PtyResize {
    /// The window is too small: nothing changes.
    Unchanged,
    /// Send this size (columns, rows) once the resizing settles.
    Schedule(u16, u16),
    /// The remote side already has this size: drop any pending one.
    Cancel,
}

/// The window now holds `new_rows` x `new_cols` cells.  Below 10 columns or
/// 5 rows nothing happens.  Otherwise a grid of another size is resized
/// (the scroll position kept within the scrollback), and the new size is
/// scheduled for the remote side unless it already has it (`last_sent`,
/// columns then rows).
pub fn on_resize(grid: &mut TerminalGrid, scroll_offset: &mut usize, new_rows: usize, new_cols: usize, last_sent: (u16, u16)) -> (r: PtyResize)
    requires
        old(grid).wf(),
    ensures
        new_cols < 10 || new_rows < 5 ==> r == PtyResize::Unchanged && final(grid)@ == old(grid)@
            && *final(scroll_offset) == *old(scroll_offset),
        new_cols >= 10 && new_rows >= 5 ==> ({
            let resized = new_cols != old(grid)@.cols || new_rows != old(grid)@.rows;
            let pty = (new_cols as u16, new_rows as u16);
            &&& final(grid)@ == if resized { old(grid)@.resized(new_rows, new_cols) } else { old(grid)@ }
            &&& final(grid).wf()
            &&& *final(scroll_offset) == if resized && *old(scroll_offset) > final(grid)@.scrollback.len() {
                    final(grid)@.scrollback.len() as usize
                } else {
                    *old(scroll_offset)
                }
            &&& r == if pty != last_sent { PtyResize::Schedule(pty.0, pty.1) } else { PtyResize::Cancel }
        }),
{
    if new_cols < 10 || new_rows < 5 {
        return PtyResize::Unchanged;
    }
    if new_cols != grid.num_cols() || new_rows != grid.num_rows() {
        grid.resize(new_rows, new_cols);
        let n = grid.scrollback_len();
        if *scroll_offset > n {
            *scroll_offset = n;
        }
    }
    let pty_cols = new_cols as u16;
    let pty_rows = new_rows as u16;
    if pty_cols != last_sent.0 || pty_rows != last_sent.1 {
        PtyResize::Schedule(pty_cols, pty_rows)
    } else {
        PtyResize::Cancel
    }
}

// ─── Network events ─────────────────────────────────────────────────────────

/// What a network event does to the terminal window.
pub struct EventEffect {
    /// The new connection-status mark for the title, if it changes.
    pub status_tag: Option<String>,
    /// Whether the terminal is reset (a new connection starts clean).
    pub reset: bool,
    /// Bytes fed to the terminal as if received.
    pub feed: Vec<u8>,
    /// Whether the view jumps back to the bottom.
    pub to_bottom: bool,
}

/// `a` + `msg` + `b` as text.
pub(crate) fn framed(a: &str, msg: &String, b: &str) -> (s: String)
    ensures
        s@ == a@ + msg@ + b@,
{
    let mut v = chars_of(a);
    let m = chars_of(msg.as_str());
    let e = chars_of(b);
    let ghost v0 = v@;
    let mut i: usize = 0;
    while i < m.len()
        invariant
            i <= m@.len(),
            v@ == v0 + m@.take(i as int),
        decreases m@.len() - i,
    {
        v.push(m[i]);
        i = i + 1;
        assert(v@ =~= v0 + m@.take(i as int));
    }
    let ghost v1 = v@;
    let mut j: usize = 0;
    while j < e.len()
        invariant
            j <= e@.len(),
            v@ == v1 + e@.take(j as int),
        decreases e@.len() - j,
    {
        v.push(e[j]);
        j = j + 1;
        assert(v@ =~= v1 + e@.take(j as int));
    }
    assert(m@.take(m@.len() as int) =~= m@);
    assert(e@.take(e@.len() as int) =~= e@);
    assert(v@ =~= a@ + msg@ + b@);
    string_from_chars(&v)
}

/// The effect of each network event: a connection marks the title "●" and
/// resets the terminal; data is fed to the terminal and the view returns to
/// the bottom; a disconnection marks "○" and shows the reason framed by
/// rules; an error marks "✕" and shows the message in red.
pub open spec fn event_effect(ev: NetworkEvent) -> (Option<Seq<char>>, bool, Seq<u8>, bool) {
    match ev {
        NetworkEvent::Connected(_) => (Some("●"@), true, seq![], false),
        NetworkEvent::DataReceived(bytes) => (None, false, bytes@, true),
        NetworkEvent::Disconnected(msg) => (Some("○"@), false, encode_utf8("\r\n\r\n── "@ + msg@ + " ──\r\n"@), false),
        NetworkEvent::Error(msg) => (Some("✕"@), false, encode_utf8("\r\n\u{1b}[31mERRO: "@ + msg@ + "\u{1b}[0m\r\n"@), false),
    }
}

/// The effect of a network event (see `event_effect`).
pub fn network_event_effect(ev: NetworkEvent) -> (r: EventEffect)
    ensures
        (match r.status_tag { Some(t) => Some(t@), None => None::<Seq<char>> }, r.reset, r.feed@, r.to_bottom) == event_effect(ev),
{
    match ev {
        NetworkEvent::Connected(_) => EventEffect { status_tag: Some("●".to_owned()), reset: true, feed: Vec::new(), to_bottom: false },
        NetworkEvent::DataReceived(bytes) => EventEffect { status_tag: None, reset: false, feed: bytes, to_bottom: true },
        NetworkEvent::Disconnected(msg) => {
            let note = framed("\r\n\r\n── ", &msg, " ──\r\n");
            EventEffect { status_tag: Some("○".to_owned()), reset: false, feed: note.as_str().as_bytes_vec(), to_bottom: false }
        },
        NetworkEvent::Error(msg) => {
            let note = framed("\r\n\u{1b}[31mERRO: ", &msg, "\u{1b}[0m\r\n");
            EventEffect { status_tag: Some("✕".to_owned()), reset: false, feed: note.as_str().as_bytes_vec(), to_bottom: false }
        },
    }
}

} // verus!
