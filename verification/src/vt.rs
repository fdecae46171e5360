//! The actions a VT parser hands to the terminal, and a stream of them
//! applied to the grid.

use vstd::prelude::*;
use crate::grid::TerminalGrid;
use crate::grid_model::{
    GridModel, keeps_saved_screen, same_saved_primary, is_screen_mode, lemma_put_char_keeps_saved,
    lemma_execute_keeps_saved, lemma_esc_keeps_saved, lemma_csi_keeps_saved, lemma_private_csi_keeps_saved,
};

verus! {

/// One action of the VT parser: a printed character, a control character,
/// a control sequence (the first value of each parameter group, whether it
/// carries the `?` marker, and its final character) or an escape sequence.
pub enum VtAction {
    Print(char),
    Execute(u8),
    Csi { params: Vec<u16>, private: bool, action: char },
    Esc(u8),
}

/// The grid after one action.
pub open spec fn action_applied(m: GridModel, a: VtAction) -> GridModel {
    match a {
        VtAction::Print(c) => m.put_char(c),
        VtAction::Execute(b) => m.execute(b),
        VtAction::Csi { params, private, action } => m.csi(params@, private, action),
        VtAction::Esc(b) => m.esc(b),
    }
}

/// The grid after the actions `acts`, in order.
pub open spec fn actions_applied(m: GridModel, acts: Seq<VtAction>) -> GridModel
    decreases acts.len(),
{
    if acts.len() == 0 {
        m
    } else {
        action_applied(actions_applied(m, acts.drop_last()), acts.last())
    }
}

#[verifier::spinoff_prover]
proof fn lemma_put_char_size(m: GridModel, c: char)
    ensures
        m.put_char(c).rows == m.rows && m.put_char(c).cols == m.cols,
{
}

#[verifier::spinoff_prover]
proof fn lemma_execute_size(m: GridModel, b: u8)
    ensures
        m.execute(b).rows == m.rows && m.execute(b).cols == m.cols,
{
}

proof fn lemma_set_modes_size(m: GridModel, ps: Seq<u16>, i: int, on: bool)
    ensures
        m.set_modes(ps, i, on).rows == m.rows && m.set_modes(ps, i, on).cols == m.cols,
    decreases ps.len() - i,
{
    if 0 <= i < ps.len() {
        lemma_set_modes_size(m.set_mode(ps[i], on), ps, i + 1, on);
    }
}

#[verifier::spinoff_prover]
proof fn lemma_csi_size(m: GridModel, ps: Seq<u16>, private: bool, action: char)
    ensures
        m.csi(ps, private, action).rows == m.rows && m.csi(ps, private, action).cols == m.cols,
{
    let m0 = GridModel { pending_wrap: false, ..m };
    lemma_set_modes_size(m0, ps, 0, true);
    lemma_set_modes_size(m0, ps, 0, false);
}

#[verifier::spinoff_prover]
proof fn lemma_esc_size(m: GridModel, b: u8)
    ensures
        m.esc(b).rows == m.rows && m.esc(b).cols == m.cols,
{
}

impl TerminalGrid {
    /// Applies a stream of parser actions in order.  Whatever the stream, the
    /// grid stays well formed (its size, row widths and cursor within
    /// bounds) and keeps its number of rows and columns.
    pub fn apply_actions(&mut self, acts: &Vec<VtAction>)
        requires
            old(self).wf(),
        ensures
            final(self).wf(),
            final(self)@ == actions_applied(old(self)@, acts@),
            final(self)@.rows == old(self)@.rows,
            final(self)@.cols == old(self)@.cols,
    {
        let mut i: usize = 0;
        while i < acts.len()
            invariant
                i <= acts@.len(),
                self.wf(),
                self@ == actions_applied(old(self)@, acts@.take(i as int)),
                self@.rows == old(self)@.rows,
                self@.cols == old(self)@.cols,
            decreases acts@.len() - i,
        {
            let ghost before = self@;
            match &acts[i] {
                VtAction::Print(c) => {
                    proof { lemma_put_char_size(before, *c); }
                    self.print(*c);
                },
                VtAction::Execute(b) => {
                    proof { lemma_execute_size(before, *b); }
                    self.execute(*b);
                },
                VtAction::Csi { params, private, action } => {
                    proof { lemma_csi_size(before, params@, *private, *action); }
                    self.csi_dispatch(params, *private, *action);
                },
                VtAction::Esc(b) => {
                    proof { lemma_esc_size(before, *b); }
                    self.esc_dispatch(*b);
                },
            }
            assert(acts@.take(i + 1).drop_last() =~= acts@.take(i as int));
            i = i + 1;
        }
        assert(acts@.take(acts@.len() as int) =~= acts@);
    }
}

/// `vte::Parser`, the VT parser's state between chunks of input.
#[verifier::external_type_specification]
#[verifier::external_body]
pub struct ExVteParser<const N: usize>(vte::Parser<N>);

/// `vte::Params`, the parameters of a control sequence as the parser hands
/// them over.
#[verifier::external_type_specification]
#[verifier::external_body]
pub struct ExVteParams(vte::Params);

/// Collects the parser's actions, one `VtAction` per callback.
struct ActionCollector {
    acts: Vec<VtAction>,
}

impl vte::Perform for ActionCollector {
    #[verifier::external_body]
    fn print(&mut self, c: char) {
        self.acts.push(VtAction::Print(c));
    }

    #[verifier::external_body]
    fn execute(&mut self, byte: u8) {
        self.acts.push(VtAction::Execute(byte));
    }

    #[verifier::external_body]
    fn csi_dispatch(&mut self, params: &vte::Params, intermediates: &[u8], _ignore: bool, action: char) {
        let ps: Vec<u16> = params.iter().map(|p| *p.first().unwrap_or(&0)).collect();
        self.acts.push(VtAction::Csi { params: ps, private: intermediates.contains(&b'?'), action });
    }

    #[verifier::external_body]
    fn esc_dispatch(&mut self, _intermediates: &[u8], _ignore: bool, byte: u8) {
        self.acts.push(VtAction::Esc(byte));
    }
}

/// Runs `data` through `vte::Parser::advance`, byte by byte, and gives the
/// actions the parser reported, in order (a control sequence with the first
/// value of each parameter group and whether it carries the `?` marker).
/// Which actions come out depends on the bytes and on the parser's state
/// from earlier chunks; nothing more is stated of them.
#[verifier::external_body]
fn vt_parse(parser: &mut vte::Parser, data: &[u8]) -> (acts: Vec<VtAction>) {
    let mut collector = ActionCollector { acts: Vec::new() };
    for &byte in data {
        parser.advance(&mut collector, byte);
    }
    collector.acts
}

/// Calls `vte::Parser::new`: a parser in its ground state.
#[verifier::external_body]
fn new_parser() -> (p: vte::Parser) {
    vte::Parser::new()
}

/// A terminal screen with the VT parser state that feeds it.
pub struct TerminalState {
    pub grid: TerminalGrid,
    /// The parser's state between chunks of input.
    pub parser: vte::Parser,
}

impl TerminalState {
    /// A blank screen of `rows` x `cols` cells keeping at most
    /// `max_scrollback` rows of scrollback, and a fresh parser.
    pub fn new(rows: usize, cols: usize, max_scrollback: usize) -> (s: TerminalState)
        requires
            rows > 0,
            cols > 0,
        ensures
            s.grid.wf(),
            s.grid@ == GridModel::initial(rows, cols, max_scrollback),
    {
        TerminalState { grid: TerminalGrid::new(rows, cols, max_scrollback), parser: new_parser() }
    }

    /// Runs raw bytes from the remote side through the parser and applies
    /// the actions it reports to the grid (see `apply_actions`): whatever
    /// the bytes, the grid stays well formed and keeps its size.
    pub fn process_bytes(&mut self, data: &[u8])
        requires
            old(self).grid.wf(),
        ensures
            final(self).grid.wf(),
            final(self).grid@.rows == old(self).grid@.rows,
            final(self).grid@.cols == old(self).grid@.cols,
            exists|acts: Seq<VtAction>| final(self).grid@ == actions_applied(old(self).grid@, acts),
    {
        let acts = vt_parse(&mut self.parser, data);
        self.grid.apply_actions(&acts);
    }

    /// Resizes the screen (see `TerminalGrid::resize`).
    pub fn resize(&mut self, rows: usize, cols: usize)
        requires
            old(self).grid.wf(),
        ensures
            final(self).grid@ == old(self).grid@.resized(rows, cols),
            rows > 0 && cols > 0 ==> final(self).grid.wf(),
    {
        self.grid.resize(rows, cols);
    }

    /// Clears the screen and the scrollback and homes the cursor (see
    /// `TerminalGrid::reset`).
    pub fn reset(&mut self)
        requires
            old(self).grid.wf(),
        ensures
            final(self).grid@ == old(self).grid@.reset(),
            final(self).grid.wf(),
    {
        self.grid.reset();
    }
}

/// A change made to a grid other than a resize: a parser action, the
/// Clear Terminal reset, or entering the alternate screen.
pub enum GridCall {
    Action(VtAction),
    Reset,
    EnterAlt,
}

/// The grid after one call.
pub open spec fn call_applied(m: GridModel, c: GridCall) -> GridModel {
    match c {
        GridCall::Action(a) => action_applied(m, a),
        GridCall::Reset => m.reset(),
        GridCall::EnterAlt => m.enter_alt_screen(),
    }
}

/// The grid after the calls `cs`, in order.
pub open spec fn calls_applied(m: GridModel, cs: Seq<GridCall>) -> GridModel
    decreases cs.len(),
{
    if cs.len() == 0 {
        m
    } else {
        call_applied(calls_applied(m, cs.drop_last()), cs.last())
    }
}

/// The call neither resets the whole terminal (`ESC c`) nor leaves the
/// alternate screen (`CSI ? 1049 l`, `? 1047 l` or `? 47 l`).
pub open spec fn stays_on_alt(c: GridCall) -> bool {
    match c {
        GridCall::Action(VtAction::Esc(b)) => b != 0x63,
        GridCall::Action(VtAction::Csi { params, private, action }) =>
            !(private && action == 'l' && exists|k: int| 0 <= k < params@.len() && is_screen_mode(#[trigger] params@[k])),
        _ => true,
    }
}

/// The call clears the scrollback.
pub open spec fn is_reset(c: GridCall) -> bool {
    c is Reset
}

proof fn lemma_call_keeps_saved(m: GridModel, c: GridCall)
    requires
        m.is_alt_screen,
        m.scrollback.len() <= m.max_scrollback,
        stays_on_alt(c),
    ensures
        keeps_saved_screen(call_applied(m, c), m),
        call_applied(m, c).scrollback.len() <= call_applied(m, c).max_scrollback,
        !is_reset(c) ==> call_applied(m, c).scrollback == m.scrollback,
{
    match c {
        GridCall::Action(VtAction::Print(ch)) => lemma_put_char_keeps_saved(m, ch),
        GridCall::Action(VtAction::Execute(b)) => lemma_execute_keeps_saved(m, b),
        GridCall::Action(VtAction::Esc(b)) => lemma_esc_keeps_saved(m, b),
        GridCall::Action(VtAction::Csi { params, private, action }) => {
            if private {
                lemma_private_csi_keeps_saved(m, params@, action);
            } else {
                lemma_csi_keeps_saved(m, params@, action);
            }
        },
        GridCall::Reset => {},
        GridCall::EnterAlt => {},
    }
}

proof fn lemma_calls_keep_saved(m: GridModel, cs: Seq<GridCall>)
    requires
        m.is_alt_screen,
        m.scrollback.len() <= m.max_scrollback,
        forall|k: int| 0 <= k < cs.len() ==> stays_on_alt(#[trigger] cs[k]),
    ensures
        keeps_saved_screen(calls_applied(m, cs), m),
        calls_applied(m, cs).scrollback.len() <= calls_applied(m, cs).max_scrollback,
        (forall|k: int| 0 <= k < cs.len() ==> !is_reset(#[trigger] cs[k])) ==> calls_applied(m, cs).scrollback == m.scrollback,
    decreases cs.len(),
{
    if cs.len() > 0 {
        let rest = cs.drop_last();
        assert forall|k: int| 0 <= k < rest.len() implies stays_on_alt(#[trigger] rest[k]) by {
            assert(rest[k] == cs[k]);
        }
        lemma_calls_keep_saved(m, rest);
        assert(stays_on_alt(cs[cs.len() - 1]));
        lemma_call_keeps_saved(calls_applied(m, rest), cs.last());
        if forall|k: int| 0 <= k < cs.len() ==> !is_reset(#[trigger] cs[k]) {
            assert forall|k: int| 0 <= k < rest.len() implies !is_reset(#[trigger] rest[k]) by {
                assert(rest[k] == cs[k]);
            }
            assert(!is_reset(cs[cs.len() - 1]));
        }
    }
}

/// Whatever is done to the grid on the alternate screen (anything but a
/// resize, a full reset or leaving the alternate screen), leaving it gives
/// back the primary screen as it was: its cells, cursor and attributes, and
/// its scrollback when the Clear Terminal reset was not used.  Leaving when
/// the primary screen is shown changes nothing.
pub proof fn law_alt_screen_restores_primary(m: GridModel, cs: Seq<GridCall>)
    requires
        m.model_wf(),
        !m.is_alt_screen,
        forall|k: int| 0 <= k < cs.len() ==> stays_on_alt(#[trigger] cs[k]),
    ensures
        ({
            let back = calls_applied(m.enter_alt_screen(), cs).leave_alt_screen();
            &&& !back.is_alt_screen
            &&& back.cells == m.cells
            &&& back.cursor_row == m.cursor_row
            &&& back.cursor_col == m.cursor_col
            &&& back.attrs == m.attrs
            &&& (forall|k: int| 0 <= k < cs.len() ==> !is_reset(#[trigger] cs[k])) ==> back.scrollback == m.scrollback
        }),
        m.leave_alt_screen() == m,
{
    let e = m.enter_alt_screen();
    assert(e.is_alt_screen && e.alt_cells == m.cells && e.scrollback == m.scrollback);
    lemma_calls_keep_saved(e, cs);
}

} // verus!
