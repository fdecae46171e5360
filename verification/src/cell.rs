//! Colours, SGR attributes and the cells of the terminal grid.

use vstd::prelude::*;

verus! {

/// An RGB colour of a terminal cell.
#[derive(Debug, Clone, Copy, PartialEq, Eq, Structural)]
pub struct CellColor {
    pub r: u8,
    pub g: u8,
    pub b: u8,
}

/// The colour with the three given channels.
pub open spec fn color(r: u8, g: u8, b: u8) -> CellColor {
    CellColor { r, g, b }
}

/// The 16-colour ANSI palette (Windows Terminal / xterm defaults), by index.
pub open spec fn spec_palette16(i: int) -> CellColor {
    if i == 0 { color(12, 12, 12) }
    else if i == 1 { color(197, 15, 31) }
    else if i == 2 { color(19, 161, 14) }
    else if i == 3 { color(193, 156, 0) }
    else if i == 4 { color(0, 55, 218) }
    else if i == 5 { color(136, 23, 152) }
    else if i == 6 { color(58, 150, 221) }
    else if i == 7 { color(204, 204, 204) }
    else if i == 8 { color(118, 118, 118) }
    else if i == 9 { color(231, 72, 86) }
    else if i == 10 { color(22, 198, 12) }
    else if i == 11 { color(249, 241, 165) }
    else if i == 12 { color(59, 120, 255) }
    else if i == 13 { color(180, 0, 158) }
    else if i == 14 { color(97, 214, 214) }
    else { color(242, 242, 242) }
}

/// Default background colour of the terminal (palette black).
pub open spec fn default_bg() -> CellColor {
    color(12, 12, 12)
}

/// Default foreground colour of the terminal (palette white).
pub open spec fn default_fg() -> CellColor {
    color(242, 242, 242)
}

/// One channel of the 6x6x6 colour cube of the 256-colour palette.
pub open spec fn cube_level(x: int) -> u8 {
    if x == 0 { 0 } else { (55 + x * 40) as u8 }
}

/// The xterm 256-colour palette: 16 ANSI colours, a 6x6x6 cube, then 24 greys.
pub open spec fn spec_color256(index: u8) -> CellColor {
    if index < 16 {
        spec_palette16(index as int)
    } else if index < 232 {
        let i = index - 16;
        color(cube_level((i / 36) % 6), cube_level((i / 6) % 6), cube_level(i % 6))
    } else {
        let v = (8 + (index - 232) * 10) as u8;
        color(v, v, v)
    }
}

impl CellColor {
    /// Builds a colour from its three channels.
    pub fn rgb(r: u8, g: u8, b: u8) -> (c: CellColor)
        ensures
            c == color(r, g, b),
    {
        CellColor { r, g, b }
    }

    /// Default background colour of the terminal.
    pub fn default_bg() -> (c: CellColor)
        ensures
            c == default_bg(),
    {
        CellColor { r: 12, g: 12, b: 12 }
    }

    /// Default foreground colour of the terminal.
    pub fn default_fg() -> (c: CellColor)
        ensures
            c == default_fg(),
    {
        CellColor { r: 242, g: 242, b: 242 }
    }

    /// Palette white, the default foreground.
    pub fn white() -> (c: CellColor)
        ensures
            c == spec_palette16(15),
    {
        CellColor { r: 242, g: 242, b: 242 }
    }

    /// The colour of index `i` (0 to 15) of the ANSI 16-colour palette.
    pub fn palette16(i: u8) -> (c: CellColor)
        requires
            i < 16,
        ensures
            c == spec_palette16(i as int),
    {
        match i {
            0 => CellColor { r: 12, g: 12, b: 12 },
            1 => CellColor { r: 197, g: 15, b: 31 },
            2 => CellColor { r: 19, g: 161, b: 14 },
            3 => CellColor { r: 193, g: 156, b: 0 },
            4 => CellColor { r: 0, g: 55, b: 218 },
            5 => CellColor { r: 136, g: 23, b: 152 },
            6 => CellColor { r: 58, g: 150, b: 221 },
            7 => CellColor { r: 204, g: 204, b: 204 },
            8 => CellColor { r: 118, g: 118, b: 118 },
            9 => CellColor { r: 231, g: 72, b: 86 },
            10 => CellColor { r: 22, g: 198, b: 12 },
            11 => CellColor { r: 249, g: 241, b: 165 },
            12 => CellColor { r: 59, g: 120, b: 255 },
            13 => CellColor { r: 180, g: 0, b: 158 },
            14 => CellColor { r: 97, g: 214, b: 214 },
            _ => CellColor { r: 242, g: 242, b: 242 },
        }
    }
}

fn cube_level_exec(x: u8) -> (v: u8)
    requires
        x < 6,
    ensures
        v == cube_level(x as int),
{
    if x == 0 { 0 } else { 55 + x * 40 }
}

/// Maps an index of the xterm 256-colour palette to its colour.
pub fn color256(index: u8) -> (c: CellColor)
    ensures
        c == spec_color256(index),
{
    if index < 16 {
        CellColor::palette16(index)
    } else if index < 232 {
        let i = index - 16;
        let r = (i / 36) % 6;
        let g = (i / 6) % 6;
        let b = i % 6;
        CellColor::rgb(cube_level_exec(r), cube_level_exec(g), cube_level_exec(b))
    } else {
        let v = 8 + (index - 232) * 10;
        CellColor::rgb(v, v, v)
    }
}

/// The SGR attributes applied to newly printed characters.
#[derive(Debug, Clone, Copy, PartialEq, Eq, Structural)]
pub struct CellAttrs {
    pub fg: CellColor,
    pub bg: CellColor,
    pub bold: bool,
    pub underline: bool,
    pub reverse: bool,
}

/// The attributes in force after a reset (SGR 0).
pub open spec fn default_attrs() -> CellAttrs {
    CellAttrs { fg: default_fg(), bg: default_bg(), bold: false, underline: false, reverse: false }
}

impl Default for CellAttrs {
    fn default() -> (a: CellAttrs)
        ensures
            a == default_attrs(),
    {
        CellAttrs {
            fg: CellColor::default_fg(),
            bg: CellColor::default_bg(),
            bold: false,
            underline: false,
            reverse: false,
        }
    }
}

/// One cell of the terminal grid: a character and its visual attributes.
#[derive(Debug, Clone, Copy, PartialEq, Eq, Structural)]
pub struct Cell {
    pub ch: char,
    pub fg: CellColor,
    pub bg: CellColor,
    pub bold: bool,
    pub underline: bool,
    pub reverse: bool,
}

/// The blank cell: a space in the default colours without attributes.
pub open spec fn default_cell() -> Cell {
    Cell {
        ch: ' ',
        fg: default_fg(),
        bg: default_bg(),
        bold: false,
        underline: false,
        reverse: false,
    }
}

/// The cell that printing `c` with attributes `a` writes.
pub open spec fn styled_cell(c: char, a: CellAttrs) -> Cell {
    Cell { ch: c, fg: a.fg, bg: a.bg, bold: a.bold, underline: a.underline, reverse: a.reverse }
}

impl Default for Cell {
    fn default() -> (c: Cell)
        ensures
            c == default_cell(),
    {
        Cell {
            ch: ' ',
            fg: CellColor::default_fg(),
            bg: CellColor::default_bg(),
            bold: false,
            underline: false,
            reverse: false,
        }
    }
}

impl Cell {
    /// The foreground as drawn: the background when reverse video is on.
    pub open spec fn spec_effective_fg(self) -> CellColor {
        if self.reverse { self.bg } else { self.fg }
    }

    /// The background as drawn: the foreground when reverse video is on.
    pub open spec fn spec_effective_bg(self) -> CellColor {
        if self.reverse { self.fg } else { self.bg }
    }

    /// A space on the default background without reverse video.
    pub open spec fn spec_is_default_empty(self) -> bool {
        self.ch == ' ' && self.bg == default_bg() && !self.reverse
    }

    /// Returns the effective foreground colour (taking reverse video into account).
    pub fn effective_fg(&self) -> (c: CellColor)
        ensures
            c == self.spec_effective_fg(),
    {
        if self.reverse { self.bg } else { self.fg }
    }

    /// Returns the effective background colour (taking reverse video into account).
    pub fn effective_bg(&self) -> (c: CellColor)
        ensures
            c == self.spec_effective_bg(),
    {
        if self.reverse { self.fg } else { self.bg }
    }

    /// Whether the cell looks like an untouched blank cell.
    pub fn is_default_empty(&self) -> (b: bool)
        ensures
            b == self.spec_is_default_empty(),
    {
        self.ch == ' ' && self.bg == CellColor::default_bg() && !self.reverse
    }
}

/// Builds the cell that printing `c` with attributes `a` writes.
pub fn styled(c: char, a: CellAttrs) -> (cell: Cell)
    ensures
        cell == styled_cell(c, a),
{
    Cell { ch: c, fg: a.fg, bg: a.bg, bold: a.bold, underline: a.underline, reverse: a.reverse }
}

} // verus!

verus! {

/// The effect of the SGR parameter at index `i` on `a`, and the index of the
/// next parameter to read (extended colours consume their arguments).
pub open spec fn sgr_step(a: CellAttrs, ps: Seq<u16>, i: int) -> (CellAttrs, int) {
    let p = ps[i];
    if p == 0 { (default_attrs(), i + 1) }
    else if p == 1 { (CellAttrs { bold: true, ..a }, i + 1) }
    else if p == 4 { (CellAttrs { underline: true, ..a }, i + 1) }
    else if p == 7 { (CellAttrs { reverse: true, ..a }, i + 1) }
    else if p == 22 { (CellAttrs { bold: false, ..a }, i + 1) }
    else if p == 24 { (CellAttrs { underline: false, ..a }, i + 1) }
    else if p == 27 { (CellAttrs { reverse: false, ..a }, i + 1) }
    else if 30 <= p <= 37 { (CellAttrs { fg: spec_palette16(p - 30), ..a }, i + 1) }
    else if p == 38 || p == 48 {
        let c = if i + 2 < ps.len() && ps[i + 1] == 5 {
            Some((spec_color256(#[verifier::truncate] (ps[i + 2] as u8)), i + 3))
        } else if i + 4 < ps.len() && ps[i + 1] == 2 {
            Some((color(ps[i + 2] as u8, ps[i + 3] as u8, ps[i + 4] as u8), i + 5))
        } else {
            None
        };
        match c {
            Some((col, j)) => if p == 38 { (CellAttrs { fg: col, ..a }, j) } else { (CellAttrs { bg: col, ..a }, j) },
            None => (a, i + 1),
        }
    }
    else if p == 39 { (CellAttrs { fg: default_fg(), ..a }, i + 1) }
    else if 40 <= p <= 47 { (CellAttrs { bg: spec_palette16(p - 40), ..a }, i + 1) }
    else if p == 49 { (CellAttrs { bg: default_bg(), ..a }, i + 1) }
    else if 90 <= p <= 97 { (CellAttrs { fg: spec_palette16(p - 90 + 8), ..a }, i + 1) }
    else if 100 <= p <= 107 { (CellAttrs { bg: spec_palette16(p - 100 + 8), ..a }, i + 1) }
    else { (a, i + 1) }
}

/// The attributes after applying the SGR parameters from index `i` on.
pub open spec fn sgr_from(a: CellAttrs, ps: Seq<u16>, i: int) -> CellAttrs
    decreases ps.len() - i,
{
    if i < 0 || i >= ps.len() {
        a
    } else {
        let (a2, j) = sgr_step(a, ps, i);
        if j <= i { a2 } else { sgr_from(a2, ps, j) }
    }
}

/// The attributes after an SGR sequence with parameters `ps` (no parameter resets).
pub open spec fn spec_apply_sgr(a: CellAttrs, ps: Seq<u16>) -> CellAttrs {
    if ps.len() == 0 { default_attrs() } else { sgr_from(a, ps, 0) }
}

/// Applies the parameters of an SGR sequence (`CSI ... m`) to `attrs`.
pub fn apply_sgr_params(attrs: CellAttrs, ps: &Vec<u16>) -> (out: CellAttrs)
    ensures
        out == spec_apply_sgr(attrs, ps@),
{
    if ps.len() == 0 {
        return CellAttrs::default();
    }
    let mut a = attrs;
    let mut i: usize = 0;
    while i < ps.len()
        invariant
            0 <= i <= ps@.len(),
            sgr_from(a, ps@, i as int) == sgr_from(attrs, ps@, 0),
        decreases ps@.len() - i,
    {
        let p = ps[i];
        let ghost step = sgr_step(a, ps@, i as int);
        let mut next: usize = i + 1;
        if p == 0 {
            a = CellAttrs::default();
        } else if p == 1 {
            a.bold = true;
        } else if p == 4 {
            a.underline = true;
        } else if p == 7 {
            a.reverse = true;
        } else if p == 22 {
            a.bold = false;
        } else if p == 24 {
            a.underline = false;
        } else if p == 27 {
            a.reverse = false;
        } else if 30 <= p && p <= 37 {
            a.fg = CellColor::palette16((p - 30) as u8);
        } else if p == 38 || p == 48 {
            let len = ps.len();
            let mut col: Option<CellColor> = None;
            if len - i > 2 && ps[i + 1] == 5 {
                col = Some(color256(#[verifier::truncate] (ps[i + 2] as u8)));
                next = i + 3;
            } else if len - i > 4 && ps[i + 1] == 2 {
                col = Some(CellColor::rgb(
                    #[verifier::truncate] (ps[i + 2] as u8),
                    #[verifier::truncate] (ps[i + 3] as u8),
                    #[verifier::truncate] (ps[i + 4] as u8),
                ));
                next = i + 5;
            }
            match col {
                Some(c) => {
                    if p == 38 { a.fg = c; } else { a.bg = c; }
                },
                None => {},
            }
        } else if p == 39 {
            a.fg = CellColor::default_fg();
        } else if 40 <= p && p <= 47 {
            a.bg = CellColor::palette16((p - 40) as u8);
        } else if p == 49 {
            a.bg = CellColor::default_bg();
        } else if 90 <= p && p <= 97 {
            a.fg = CellColor::palette16((p - 90 + 8) as u8);
        } else if 100 <= p && p <= 107 {
            a.bg = CellColor::palette16((p - 100 + 8) as u8);
        }
        assert(step == (a, next as int));
        i = next;
    }
    a
}

/// Each SGR parameter on its own: no parameter or `0` resets every
/// attribute; `1`, `4` and `7` turn bold, underline and reverse video on,
/// `22`, `24` and `27` turn them off; `30`-`37` and `90`-`97` take the
/// foreground from the 16 ANSI colours (normal, then bright), `40`-`47` and
/// `100`-`107` the background; `39` and `49` restore the default colours.
/// Each of them changes only what it names.
pub proof fn law_sgr_single_parameters(a: CellAttrs, k: u16)
    requires
        k < 8,
    ensures
        spec_apply_sgr(a, Seq::empty()) == default_attrs(),
        spec_apply_sgr(a, seq![0u16]) == default_attrs(),
        spec_apply_sgr(a, seq![1u16]) == (CellAttrs { bold: true, ..a }),
        spec_apply_sgr(a, seq![4u16]) == (CellAttrs { underline: true, ..a }),
        spec_apply_sgr(a, seq![7u16]) == (CellAttrs { reverse: true, ..a }),
        spec_apply_sgr(a, seq![22u16]) == (CellAttrs { bold: false, ..a }),
        spec_apply_sgr(a, seq![24u16]) == (CellAttrs { underline: false, ..a }),
        spec_apply_sgr(a, seq![27u16]) == (CellAttrs { reverse: false, ..a }),
        spec_apply_sgr(a, seq![(30 + k) as u16]) == (CellAttrs { fg: spec_palette16(k as int), ..a }),
        spec_apply_sgr(a, seq![(40 + k) as u16]) == (CellAttrs { bg: spec_palette16(k as int), ..a }),
        spec_apply_sgr(a, seq![(90 + k) as u16]) == (CellAttrs { fg: spec_palette16(8 + k), ..a }),
        spec_apply_sgr(a, seq![(100 + k) as u16]) == (CellAttrs { bg: spec_palette16(8 + k), ..a }),
        spec_apply_sgr(a, seq![39u16]) == (CellAttrs { fg: default_fg(), ..a }),
        spec_apply_sgr(a, seq![49u16]) == (CellAttrs { bg: default_bg(), ..a }),
{
    lemma_one_sgr_param(a, 0);
    lemma_one_sgr_param(a, 1);
    lemma_one_sgr_param(a, 4);
    lemma_one_sgr_param(a, 7);
    lemma_one_sgr_param(a, 22);
    lemma_one_sgr_param(a, 24);
    lemma_one_sgr_param(a, 27);
    lemma_one_sgr_param(a, (30 + k) as u16);
    lemma_one_sgr_param(a, (40 + k) as u16);
    lemma_one_sgr_param(a, (90 + k) as u16);
    lemma_one_sgr_param(a, (100 + k) as u16);
    lemma_one_sgr_param(a, 39);
    lemma_one_sgr_param(a, 49);
}

proof fn lemma_one_sgr_param(a: CellAttrs, p: u16)
    ensures
        spec_apply_sgr(a, seq![p]) == sgr_step(a, seq![p], 0).0,
{
    let s = seq![p];
    assert(sgr_from(sgr_step(a, s, 0).0, s, 1) == sgr_step(a, s, 0).0);
}

proof fn lemma_sgr_shift(a: CellAttrs, pre: Seq<u16>, ps: Seq<u16>, i: int)
    requires
        0 <= i,
    ensures
        sgr_from(a, pre + ps, pre.len() + i) == sgr_from(a, ps, i),
    decreases ps.len() - i,
{
    let all = pre + ps;
    let l = pre.len() as int;
    if i < ps.len() {
        assert(all[l + i] == ps[i]);
        if i + 1 < ps.len() { assert(all[l + i + 1] == ps[i + 1]); }
        if i + 2 < ps.len() { assert(all[l + i + 2] == ps[i + 2]); }
        if i + 3 < ps.len() { assert(all[l + i + 3] == ps[i + 3]); }
        if i + 4 < ps.len() { assert(all[l + i + 4] == ps[i + 4]); }
        let (a2, j) = sgr_step(a, ps, i);
        assert(sgr_step(a, all, l + i) == (a2, j + l));
        lemma_sgr_shift(a2, pre, ps, j);
    }
}

/// A sequence of SGR parameters acts as its parameters applied one after
/// another: `CSI q ; ... m` is `CSI q m` followed by `CSI ... m`, for every
/// first parameter `q` other than `38` and `48` (which read the parameters
/// after them as a colour).
pub proof fn law_sgr_applies_in_order(a: CellAttrs, q: u16, ps: Seq<u16>)
    requires
        q != 38,
        q != 48,
        ps.len() > 0,
    ensures
        spec_apply_sgr(a, seq![q] + ps) == spec_apply_sgr(spec_apply_sgr(a, seq![q]), ps),
{
    let all = seq![q] + ps;
    lemma_one_sgr_param(a, q);
    assert(all[0] == q);
    assert(sgr_step(a, all, 0) == (sgr_step(a, seq![q], 0).0, 1int));
    lemma_sgr_shift(sgr_step(a, all, 0).0, seq![q], ps, 0);
}

/// Extended colours: `38;5;n` and `48;5;n` set the foreground and the
/// background to colour `n` of the 256-colour palette, `38;2;r;g;b` and
/// `48;2;r;g;b` to the colour with those red, green and blue channels.
pub proof fn law_sgr_extended_colors(a: CellAttrs, n: u8, r: u8, g: u8, b: u8)
    ensures
        spec_apply_sgr(a, seq![38u16, 5, n as u16]) == (CellAttrs { fg: spec_color256(n), ..a }),
        spec_apply_sgr(a, seq![48u16, 5, n as u16]) == (CellAttrs { bg: spec_color256(n), ..a }),
        spec_apply_sgr(a, seq![38u16, 2, r as u16, g as u16, b as u16]) == (CellAttrs { fg: CellColor { r, g, b }, ..a }),
        spec_apply_sgr(a, seq![48u16, 2, r as u16, g as u16, b as u16]) == (CellAttrs { bg: CellColor { r, g, b }, ..a }),
{
    let s5 = seq![38u16, 5, n as u16];
    assert(sgr_from(sgr_step(a, s5, 0).0, s5, 3) == sgr_step(a, s5, 0).0);
    let t5 = seq![48u16, 5, n as u16];
    assert(sgr_from(sgr_step(a, t5, 0).0, t5, 3) == sgr_step(a, t5, 0).0);
    let s2 = seq![38u16, 2, r as u16, g as u16, b as u16];
    assert(sgr_from(sgr_step(a, s2, 0).0, s2, 5) == sgr_step(a, s2, 0).0);
    let t2 = seq![48u16, 2, r as u16, g as u16, b as u16];
    assert(sgr_from(sgr_step(a, t2, 0).0, t2, 5) == sgr_step(a, t2, 0).0);
}

/// Colours 16 to 231 of the 256-colour palette form a 6x6x6 cube: colour
/// `16 + 36 r + 6 g + b` has the channel levels 0, 95, 135, 175, 215, 255
/// picked by `r`, `g` and `b`.  Colours 232 to 255 are 24 greys from 8 up
/// in steps of 10.
pub proof fn law_color256_cube_and_greys(r: u8, g: u8, b: u8, k: u8)
    requires
        r < 6,
        g < 6,
        b < 6,
        k < 24,
    ensures
        ({
            let level = seq![0u8, 95, 135, 175, 215, 255];
            spec_color256((16 + 36 * r + 6 * g + b) as u8) == color(level[r as int], level[g as int], level[b as int])
        }),
        spec_color256((232 + k) as u8) == color((8 + 10 * k) as u8, (8 + 10 * k) as u8, (8 + 10 * k) as u8),
{
    let i = 36 * r + 6 * g + b;
    assert(i / 36 == r && (i / 6) % 6 == g && i % 6 == b) by (nonlinear_arith)
        requires i == 36 * r + 6 * g + b, r < 6, g < 6, b < 6;
}

} // verus!
