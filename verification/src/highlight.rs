//! Highlighting rules of the terminal renderer: hex colours, keyword
//! matches on token boundaries, and the candidate IP tokens of a row.

use vstd::prelude::*;
use vstd::utf8::encode_utf8;
use crate::cell::{Cell, CellColor, color};
use crate::text::{is_alphanumeric, unicode_alphanumeric, unicode_lowercase, to_lowercase, chars_of, string_from_chars, same_text};
use crate::config::client::{CustomizationConfig, IpCustomization, KeywordTheme};

verus! {

/// A keyword prepared for matching: its target text (already lowercased for
/// case-insensitive keywords) and its colour.
#[derive(Clone, Debug, PartialEq, Eq)]
pub struct CachedKeyword {
    pub target: String,
    pub color: CellColor,
    pub case_insensitive: bool,
}

/// The IP highlight colours, parsed once from the configuration.
#[derive(Clone, Copy, Debug, PartialEq, Eq, Structural)]
pub struct CachedIpColors {
    pub ipv4_unified: Option<CellColor>,
    pub ipv4_public: Option<CellColor>,
    pub ipv4_private: Option<CellColor>,
    pub ipv6_unified: Option<CellColor>,
    pub ipv6_public: Option<CellColor>,
    pub ipv6_private: Option<CellColor>,
}

impl Default for CachedIpColors {
    fn default() -> (c: CachedIpColors)
        ensures
            c.ipv4_unified is None && c.ipv4_public is None && c.ipv4_private is None,
            c.ipv6_unified is None && c.ipv6_public is None && c.ipv6_private is None,
    {
        CachedIpColors {
            ipv4_unified: None,
            ipv4_public: None,
            ipv4_private: None,
            ipv6_unified: None,
            ipv6_public: None,
            ipv6_private: None,
        }
    }
}

// ─── Hex colours ────────────────────────────────────────────────────────────

/// The value of an ASCII hexadecimal digit.
pub open spec fn hex_digit(b: u8) -> Option<u8> {
    if 0x30 <= b <= 0x39 { Some((b - 0x30) as u8) }
    else if 0x61 <= b <= 0x66 { Some((b - 0x61 + 10) as u8) }
    else if 0x41 <= b <= 0x46 { Some((b - 0x41 + 10) as u8) }
    else { None }
}

/// A two-byte field parsed as a hexadecimal `u8` the way `u8::from_str_radix`
/// parses it: two hex digits, or a `+` sign and one digit.
pub open spec fn hex_pair(a: u8, b: u8) -> Option<u8> {
    if a == 0x2b {
        hex_digit(b)
    } else {
        match (hex_digit(a), hex_digit(b)) {
            (Some(x), Some(y)) => Some((x * 16 + y) as u8),
            _ => None,
        }
    }
}

/// `s` without its leading `#` bytes.
pub open spec fn strip_hashes(s: Seq<u8>) -> Seq<u8>
    decreases s.len(),
{
    if s.len() > 0 && s[0] == 0x23 { strip_hashes(s.drop_first()) } else { s }
}

/// A byte that starts a character in UTF-8 (not a continuation byte).
pub open spec fn starts_char(b: u8) -> bool {
    !(0x80 <= b < 0xc0)
}

/// The colour written as `#RRGGBB` (any number of leading `#`, then six
/// bytes read as three hexadecimal fields).
pub open spec fn spec_parse_hex_color(bytes: Seq<u8>) -> Option<CellColor> {
    let c = strip_hashes(bytes);
    if c.len() != 6 {
        None
    } else {
        match (hex_pair(c[0], c[1]), hex_pair(c[2], c[3]), hex_pair(c[4], c[5])) {
            (Some(r), Some(g), Some(b)) => Some(color(r, g, b)),
            _ => None,
        }
    }
}

fn hex_digit_exec(b: u8) -> (r: Option<u8>)
    ensures
        r == hex_digit(b),
{
    if 0x30 <= b && b <= 0x39 { Some(b - 0x30) }
    else if 0x61 <= b && b <= 0x66 { Some(b - 0x61 + 10) }
    else if 0x41 <= b && b <= 0x46 { Some(b - 0x41 + 10) }
    else { None }
}

fn hex_pair_exec(a: u8, b: u8) -> (r: Option<u8>)
    ensures
        r == hex_pair(a, b),
{
    if a == 0x2b {
        hex_digit_exec(b)
    } else {
        match (hex_digit_exec(a), hex_digit_exec(b)) {
            (Some(x), Some(y)) => Some(x * 16 + y),
            _ => None,
        }
    }
}

/// Whether the three two-byte fields of a six-byte colour text start on
/// character boundaries (they are read by slicing the text there).
pub open spec fn hex_fields_sliceable(text: Seq<char>) -> bool {
    let c = strip_hashes(encode_utf8(text));
    c.len() == 6 ==> starts_char(c[2]) && starts_char(c[4])
}

/// Parses a `#RRGGBB` colour.  The three fields are read by slicing the text
/// at byte offsets 2 and 4, which is only possible on character boundaries:
/// other inputs are excluded.
pub fn parse_hex_color(hex: &str) -> (r: Result<CellColor, ()>)
    requires
        hex_fields_sliceable(hex@),
    ensures
        match r {
            Ok(c) => spec_parse_hex_color(encode_utf8(hex@)) == Some(c),
            Err(()) => spec_parse_hex_color(encode_utf8(hex@)) is None,
        },
{
    let bytes = hex.as_bytes();
    let mut i: usize = 0;
    assert(bytes@.skip(0) =~= bytes@);
    while i < bytes.len() && bytes[i] == 0x23
        invariant
            i <= bytes@.len(),
            bytes@ == encode_utf8(hex@),
            strip_hashes(bytes@.skip(i as int)) == strip_hashes(bytes@),
        decreases bytes@.len() - i,
    {
        assert(bytes@.skip(i as int).drop_first() =~= bytes@.skip(i + 1));
        i = i + 1;
    }
    let ghost c = bytes@.skip(i as int);
    assert(strip_hashes(c) == c);
    if bytes.len() - i != 6 {
        return Err(());
    }
    let r = hex_pair_exec(bytes[i], bytes[i + 1]);
    let g = hex_pair_exec(bytes[i + 2], bytes[i + 3]);
    let b = hex_pair_exec(bytes[i + 4], bytes[i + 5]);
    match (r, g, b) {
        (Some(r), Some(g), Some(b)) => Ok(CellColor::rgb(r, g, b)),
        _ => Err(()),
    }
}

// ─── Keywords ───────────────────────────────────────────────────────────────

/// Characters that continue a keyword token: a keyword only matches where
/// the characters around it are not of this kind.
pub open spec fn spec_is_keyword_token_char(c: char) -> bool {
    unicode_alphanumeric(c) || c == '_' || c == '-'
}

/// Whether `c` continues a keyword token (alphanumeric, `_` or `-`).
pub fn is_keyword_token_char(c: char) -> (b: bool)
    ensures
        b == spec_is_keyword_token_char(c),
{
    is_alphanumeric(c) || c == '_' || c == '-'
}

/// `t` occurs in `s` at position `p`.
pub open spec fn occurs_at(s: Seq<char>, t: Seq<char>, p: int) -> bool {
    0 <= p && p + t.len() <= s.len() && s.subrange(p, p + t.len()) == t
}

/// The occurrence of `t` at `p` stands alone: no token character touches it.
pub open spec fn standalone_at(s: Seq<char>, t: Seq<char>, p: int) -> bool {
    (p == 0 || !spec_is_keyword_token_char(s[p - 1]))
        && (p + t.len() == s.len() || !spec_is_keyword_token_char(s[p + t.len()]))
}

/// `colors` with the entries `from..to` below `cols` set to `c`.
pub open spec fn painted(colors: Seq<Option<CellColor>>, from: int, to: int, cols: int, c: CellColor) -> Seq<Option<CellColor>> {
    Seq::new(colors.len(), |i: int| if from <= i < to && i < cols { Some(c) } else { colors[i] })
}

/// `colors` with the entries `from..to` below `cols` that have no colour yet
/// set to `c`: a keyword never repaints what an earlier keyword painted.
pub open spec fn painted_free(colors: Seq<Option<CellColor>>, from: int, to: int, cols: int, c: CellColor) -> Seq<Option<CellColor>> {
    Seq::new(colors.len(), |i: int| if from <= i < to && i < cols && colors[i] is None { Some(c) } else { colors[i] })
}

/// The colours after scanning `s` for `t` from position `p`: occurrences are
/// taken left to right without overlap and only standalone ones are painted,
/// on the cells that have no colour yet.
pub open spec fn keyword_scan(colors: Seq<Option<CellColor>>, s: Seq<char>, t: Seq<char>, p: int, cols: int, c: CellColor) -> Seq<Option<CellColor>>
    decreases s.len() - p,
{
    if t.len() == 0 || p < 0 || p + t.len() > s.len() {
        colors
    } else if occurs_at(s, t, p) {
        let next = if standalone_at(s, t, p) { painted_free(colors, p, p + t.len(), cols, c) } else { colors };
        keyword_scan(next, s, t, p + t.len(), cols, c)
    } else {
        keyword_scan(colors, s, t, p + 1, cols, c)
    }
}

proof fn lemma_keyword_scan_len(colors: Seq<Option<CellColor>>, s: Seq<char>, t: Seq<char>, p: int, cols: int, c: CellColor)
    ensures
        keyword_scan(colors, s, t, p, cols, c).len() == colors.len(),
    decreases s.len() - p,
{
    if t.len() == 0 || p < 0 || p + t.len() > s.len() {
    } else if occurs_at(s, t, p) {
        let next = if standalone_at(s, t, p) { painted_free(colors, p, p + t.len(), cols, c) } else { colors };
        lemma_keyword_scan_len(next, s, t, p + t.len(), cols, c);
    } else {
        lemma_keyword_scan_len(colors, s, t, p + 1, cols, c);
    }
}

/// The characters of a row as matched: `cols` cells, NUL shown as a space,
/// missing cells as spaces.
pub open spec fn row_chars(line: Seq<Cell>, cols: int) -> Seq<char> {
    Seq::new(cols as nat, |i: int| if i < line.len() { if line[i].ch == '\0' { ' ' } else { line[i].ch } } else { ' ' })
}

/// The colours after applying the keywords `kws[..k]` in order to `s`
/// (lowercased for case-insensitive keywords).
pub open spec fn keywords_applied(colors: Seq<Option<CellColor>>, s: Seq<char>, kws: Seq<CachedKeyword>, k: int, cols: int) -> Seq<Option<CellColor>>
    decreases k,
{
    if k <= 0 {
        colors
    } else {
        let prev = keywords_applied(colors, s, kws, k - 1, cols);
        let kw = kws[k - 1];
        let text = if kw.case_insensitive { unicode_lowercase(s) } else { s };
        keyword_scan(prev, text, kw.target@, 0, cols, kw.color)
    }
}

/// The keyword colours of a row of `cols` cells: the first `cols` entries
/// are reset, then (unless the row is all spaces) every standalone
/// occurrence of each keyword is painted with its colour, keywords in their
/// order; where two occurrences overlap, the earlier keyword keeps its cells.
pub open spec fn spec_keyword_highlights(colors: Seq<Option<CellColor>>, line: Seq<Cell>, cols: int, kws: Seq<CachedKeyword>) -> Seq<Option<CellColor>> {
    let reset = Seq::new(colors.len(), |i: int| if i < cols { None } else { colors[i] });
    let s = row_chars(line, cols);
    if forall|i: int| 0 <= i < s.len() ==> s[i] == ' ' {
        reset
    } else {
        keywords_applied(reset, s, kws, kws.len() as int, cols)
    }
}

/// Whether `t` occurs in `s` at `p`.
fn occurs_at_exec(s: &Vec<char>, t: &Vec<char>, p: usize) -> (b: bool)
    requires
        p + t@.len() <= s@.len(),
    ensures
        b == occurs_at(s@, t@, p as int),
{
    let slen = s.len();
    let mut j: usize = 0;
    while j < t.len()
        invariant
            j <= t@.len(),
            slen == s@.len(),
            p + t@.len() <= s@.len(),
            forall|k: int| 0 <= k < j ==> s@[p + k] == t@[k],
        decreases t@.len() - j,
    {
        if s[p + j] != t[j] {
            assert(s@.subrange(p as int, p + t@.len())[j as int] != t@[j as int]);
            return false;
        }
        j = j + 1;
    }
    assert(s@.subrange(p as int, p + t@.len()) =~= t@);
    true
}

/// Sets `colors[from..to]` (entries below `cols` only) to `Some(c)`.
fn paint(colors: &mut Vec<Option<CellColor>>, from: usize, to: usize, cols: usize, c: CellColor)
    requires
        cols <= old(colors)@.len(),
    ensures
        final(colors)@ == painted(old(colors)@, from as int, to as int, cols as int, c),
{
    let mut i = from;
    while i < to
        invariant
            from <= i,
            from <= to ==> i <= to,
            from > to ==> i == from,
            cols <= colors@.len(),
            colors@ == painted(old(colors)@, from as int, i as int, cols as int, c),
        decreases to - i,
    {
        if i < cols {
            colors.set(i, Some(c));
        }
        i = i + 1;
        assert(colors@ =~= painted(old(colors)@, from as int, i as int, cols as int, c));
    }
    assert(colors@ =~= painted(old(colors)@, from as int, to as int, cols as int, c));
}

/// Sets the entries of `colors[from..to]` below `cols` that have no colour
/// yet to `Some(c)`.
fn paint_free(colors: &mut Vec<Option<CellColor>>, from: usize, to: usize, cols: usize, c: CellColor)
    requires
        cols <= old(colors)@.len(),
    ensures
        final(colors)@ == painted_free(old(colors)@, from as int, to as int, cols as int, c),
{
    let mut i = from;
    while i < to
        invariant
            from <= i,
            from <= to ==> i <= to,
            from > to ==> i == from,
            cols <= colors@.len(),
            colors@ == painted_free(old(colors)@, from as int, i as int, cols as int, c),
        decreases to - i,
    {
        if i < cols && colors[i].is_none() {
            colors.set(i, Some(c));
        }
        i = i + 1;
        assert(colors@ =~= painted_free(old(colors)@, from as int, i as int, cols as int, c));
    }
    assert(colors@ =~= painted_free(old(colors)@, from as int, to as int, cols as int, c));
}

/// Paints every standalone occurrence of `t` in `s` (see `keyword_scan`).
fn scan_keyword(colors: &mut Vec<Option<CellColor>>, s: &Vec<char>, t: &Vec<char>, cols: usize, c: CellColor)
    requires
        cols <= old(colors)@.len(),
    ensures
        final(colors)@ == keyword_scan(old(colors)@, s@, t@, 0, cols as int, c),
        final(colors)@.len() == old(colors)@.len(),
{
    proof { lemma_keyword_scan_len(colors@, s@, t@, 0, cols as int, c); }
    if t.len() == 0 || t.len() > s.len() {
        return;
    }
    let mut p: usize = 0;
    while p <= s.len() - t.len()
        invariant
            t@.len() > 0,
            t@.len() <= s@.len(),
            p <= s@.len(),
            cols <= colors@.len(),
            keyword_scan(colors@, s@, t@, p as int, cols as int, c) == keyword_scan(old(colors)@, s@, t@, 0, cols as int, c),
        decreases s@.len() - p,
    {
        if occurs_at_exec(s, t, p) {
            let end = p + t.len();
            let before_ok = p == 0 || !is_keyword_token_char(s[p - 1]);
            let after_ok = end == s.len() || !is_keyword_token_char(s[end]);
            if before_ok && after_ok {
                paint_free(colors, p, end, cols, c);
            }
            p = end;
        } else {
            p = p + 1;
        }
    }
}

/// Colours the keywords of a row (see `spec_keyword_highlights`): the first
/// half of the renderer's line highlighting.  An empty keyword colours
/// nothing (see `keyword_scan`): it would match at the same place forever.
pub fn compute_keyword_highlights(
    line_cells: &Vec<Cell>,
    cols: usize,
    keywords: &Vec<CachedKeyword>,
    custom_colors: &mut Vec<Option<CellColor>>,
)
    requires
        cols <= old(custom_colors)@.len(),
    ensures
        final(custom_colors)@ == spec_keyword_highlights(old(custom_colors)@, line_cells@, cols as int, keywords@),
{
    let mut i: usize = 0;
    while i < cols
        invariant
            i <= cols,
            cols <= custom_colors@.len(),
            custom_colors@ == Seq::new(old(custom_colors)@.len(), |j: int| if j < i { None } else { old(custom_colors)@[j] }),
        decreases cols - i,
    {
        custom_colors.set(i, None);
        i = i + 1;
        assert(custom_colors@ =~= Seq::new(old(custom_colors)@.len(), |j: int| if j < i { None } else { old(custom_colors)@[j] }));
    }
    let ghost reset = custom_colors@;
    let mut row: Vec<char> = Vec::new();
    let mut any_non_space = false;
    let mut col: usize = 0;
    while col < cols
        invariant
            col <= cols,
            row@ == row_chars(line_cells@, cols as int).take(col as int),
            any_non_space == exists|j: int| 0 <= j < col && #[trigger] row@[j] != ' ',
        decreases cols - col,
    {
        let ch = if col < line_cells.len() {
            if line_cells[col].ch == '\0' { ' ' } else { line_cells[col].ch }
        } else {
            ' '
        };
        let ghost old_row = row@;
        row.push(ch);
        assert(row@[col as int] == ch);
        assert(forall|j: int| 0 <= j < col ==> row@[j] == old_row[j]);
        if ch != ' ' {
            any_non_space = true;
        }
        col = col + 1;
        assert(row@ =~= row_chars(line_cells@, cols as int).take(col as int));
    }
    assert(row@ =~= row_chars(line_cells@, cols as int));
    if !any_non_space {
        return;
    }
    let mut lowered: Option<Vec<char>> = None;
    let mut k: usize = 0;
    while k < keywords.len()
        invariant
            k <= keywords@.len(),
            cols <= custom_colors@.len(),
            row@ == row_chars(line_cells@, cols as int),
            lowered matches Some(l) ==> l@ == unicode_lowercase(row@),
            custom_colors@ == keywords_applied(reset, row@, keywords@, k as int, cols as int),
        decreases keywords@.len() - k,
    {
        let kw = &keywords[k];
        let target = chars_of(kw.target.as_str());
        if kw.case_insensitive {
            if lowered.is_none() {
                let s = string_from_chars(&row);
                let low = to_lowercase(s.as_str());
                lowered = Some(chars_of(low.as_str()));
            }
            match &lowered {
                Some(l) => scan_keyword(custom_colors, l, &target, cols, kw.color),
                None => {},
            }
        } else {
            scan_keyword(custom_colors, &row, &target, cols, kw.color);
        }
        k = k + 1;
    }
}

// ─── IP tokens ──────────────────────────────────────────────────────────────

/// Characters an IP address token is made of.
pub open spec fn is_ip_char(c: char) -> bool {
    ascii_alnum(c) || c == '.' || c == ':'
}

pub open spec fn ascii_alnum(c: char) -> bool {
    ('a' <= c && c <= 'z') || ('A' <= c && c <= 'Z') || ('0' <= c && c <= '9')
}

fn ip_char(c: char) -> (b: bool)
    ensures
        b == is_ip_char(c),
{
    ('a' <= c && c <= 'z') || ('A' <= c && c <= 'Z') || ('0' <= c && c <= '9') || c == '.' || c == ':'
}

/// The span `sp` covers position `i`.
pub open spec fn span_covers(sp: (usize, usize), i: int) -> bool {
    sp.0 <= i < sp.1
}

/// `(start, end)` is a maximal run of IP characters of `s`.
pub open spec fn is_ip_token(s: Seq<char>, start: int, end: int) -> bool {
    &&& 0 <= start < end <= s.len()
    &&& forall|i: int| start <= i < end ==> is_ip_char(#[trigger] s[i])
    &&& (start == 0 || !is_ip_char(s[start - 1]))
    &&& (end == s.len() || !is_ip_char(s[end]))
}

/// The maximal runs of IP characters of `s`, left to right: the candidate
/// IP addresses of a row.
pub fn ip_token_spans(s: &Vec<char>) -> (spans: Vec<(usize, usize)>)
    ensures
        forall|k: int| 0 <= k < spans@.len() ==> is_ip_token(s@, spans@[k].0 as int, spans@[k].1 as int),
        forall|k: int| 0 <= k < spans@.len() - 1 ==> spans@[k].1 < spans@[k + 1].0,
        forall|i: int| 0 <= i < s@.len() && is_ip_char(#[trigger] s@[i]) ==>
            exists|k: int| 0 <= k < spans@.len() && #[trigger] span_covers(spans@[k], i),
{
    let mut spans: Vec<(usize, usize)> = Vec::new();
    let mut start: Option<usize> = None;
    let mut i: usize = 0;
    while i < s.len()
        invariant
            i <= s@.len(),
            forall|k: int| 0 <= k < spans@.len() ==> is_ip_token(s@, spans@[k].0 as int, spans@[k].1 as int),
            forall|k: int| 0 <= k < spans@.len() ==> spans@[k].1 < i || (start is None && spans@[k].1 <= i),
            forall|k: int| 0 <= k < spans@.len() - 1 ==> spans@[k].1 < spans@[k + 1].0,
            match start {
                Some(st) => st < i
                    && (st == 0 || !is_ip_char(s@[st - 1]))
                    && (forall|j: int| st <= j < i ==> is_ip_char(#[trigger] s@[j]))
                    && (forall|k: int| 0 <= k < spans@.len() ==> spans@[k].1 < st),
                None => i == 0 || !is_ip_char(s@[i - 1]),
            },
            forall|j: int| 0 <= j < i && is_ip_char(#[trigger] s@[j]) ==>
                (exists|k: int| 0 <= k < spans@.len() && #[trigger] span_covers(spans@[k], j))
                || (start matches Some(st) && st <= j),
        decreases s@.len() - i,
    {
        let ghost old_spans = spans@;
        let ghost old_start = start;
        if ip_char(s[i]) {
            if start.is_none() {
                start = Some(i);
            }
        } else {
            match start {
                Some(st) => {
                    spans.push((st, i));
                    start = None;
                    assert(is_ip_token(s@, st as int, i as int));
                },
                None => {},
            }
        }
        proof {
            assert(old_spans.len() <= spans@.len());
            assert(forall|k: int| 0 <= k < old_spans.len() ==> spans@[k] == old_spans[k]);
            assert forall|j: int| 0 <= j < i + 1 && is_ip_char(#[trigger] s@[j]) implies
                (exists|k: int| 0 <= k < spans@.len() && #[trigger] span_covers(spans@[k], j))
                || (start matches Some(st) && st <= j) by {
                if j < i {
                    if exists|k: int| 0 <= k < old_spans.len() && #[trigger] span_covers(old_spans[k], j) {
                        let k = choose|k: int| 0 <= k < old_spans.len() && #[trigger] span_covers(old_spans[k], j);
                        assert(spans@[k] == old_spans[k]);
                        assert(span_covers(spans@[k], j));
                    } else if start is None {
                        assert(span_covers(spans@[spans@.len() - 1], j));
                    }
                }
            }
        }
        i = i + 1;
    }
    let ghost old_spans = spans@;
    match start {
        Some(st) => {
            spans.push((st, s.len()));
        },
        None => {},
    }
    proof {
        assert forall|j: int| 0 <= j < s@.len() && is_ip_char(#[trigger] s@[j]) implies
            exists|k: int| 0 <= k < spans@.len() && #[trigger] span_covers(spans@[k], j) by {
            if exists|k: int| 0 <= k < old_spans.len() && #[trigger] span_covers(old_spans[k], j) {
                let k = choose|k: int| 0 <= k < old_spans.len() && #[trigger] span_covers(old_spans[k], j);
                assert(spans@[k] == old_spans[k]);
                assert(span_covers(spans@[k], j));
            } else {
                assert(span_covers(spans@[spans@.len() - 1], j));
            }
        }
    }
    spans
}

/// The part of an IP token left after dropping its trailing `.` and `:`
/// and then its leading `.` (as offsets into `t`).
pub open spec fn ip_core(t: Seq<char>) -> (int, int) {
    let e = trailing_core_end(t, t.len() as int);
    (leading_core_start(t, 0, e), e)
}

pub open spec fn trailing_core_end(t: Seq<char>, e: int) -> int
    decreases e,
{
    if e > 0 && (t[e - 1] == '.' || t[e - 1] == ':') { trailing_core_end(t, e - 1) } else { e }
}

pub open spec fn leading_core_start(t: Seq<char>, b: int, e: int) -> int
    decreases e - b,
{
    if b < e && t[b] == '.' { leading_core_start(t, b + 1, e) } else { b }
}

/// Finds the core of the token `s[start..end]` (see `ip_core`), as absolute
/// offsets into `s`.
pub fn ip_token_core(s: &Vec<char>, start: usize, end: usize) -> (r: (usize, usize))
    requires
        start <= end <= s@.len(),
    ensures
        r.0 - start == ip_core(s@.subrange(start as int, end as int)).0,
        r.1 - start == ip_core(s@.subrange(start as int, end as int)).1,
        start <= r.0 <= r.1 <= end,
{
    let ghost t = s@.subrange(start as int, end as int);
    let mut e = end;
    while e > start && (s[e - 1] == '.' || s[e - 1] == ':')
        invariant
            start <= e <= end,
            end <= s@.len(),
            t == s@.subrange(start as int, end as int),
            trailing_core_end(t, t.len() as int) == trailing_core_end(t, e - start),
        decreases e,
    {
        e = e - 1;
    }
    let mut b = start;
    while b < e && s[b] == '.'
        invariant
            start <= b <= e,
            t == s@.subrange(start as int, end as int),
            e <= end,
            end <= s@.len(),
            leading_core_start(t, 0, e - start) == leading_core_start(t, b - start, e - start),
        decreases e - b,
    {
        b = b + 1;
    }
    (b, e)
}

/// IPv4 addresses painted with the private colour: 10/8, 172.16/12,
/// 192.168/16, loopback 127/8 and link-local 169.254/16.
pub open spec fn spec_ipv4_is_private(o: [u8; 4]) -> bool {
    o[0] == 10 || (o[0] == 172 && o[1] >= 16 && o[1] <= 31) || (o[0] == 192 && o[1] == 168)
        || o[0] == 127 || (o[0] == 169 && o[1] == 254)
}

/// Whether an IPv4 address (by its octets) counts as private.
pub fn ipv4_is_private(octets: [u8; 4]) -> (b: bool)
    ensures
        b == spec_ipv4_is_private(octets),
{
    octets[0] == 10 || (octets[0] == 172 && octets[1] >= 16 && octets[1] <= 31)
        || (octets[0] == 192 && octets[1] == 168) || octets[0] == 127
        || (octets[0] == 169 && octets[1] == 254)
}

/// IPv6 addresses painted with the private colour: loopback `::1`, unique
/// local `fc00::/7` and link-local `fe80::/10`.
pub open spec fn spec_ipv6_is_private(segments: [u16; 8]) -> bool {
    (segments[0] == 0 && segments[1] == 0 && segments[2] == 0 && segments[3] == 0 && segments[4] == 0
        && segments[5] == 0 && segments[6] == 0 && segments[7] == 1)
        || (segments[0] & 0xfe00) == 0xfc00 || (segments[0] & 0xffc0) == 0xfe80
}

/// Whether an IPv6 address (by its segments) counts as private.
pub fn ipv6_is_private(segments: [u16; 8]) -> (b: bool)
    ensures
        b == spec_ipv6_is_private(segments),
{
    (segments[0] == 0 && segments[1] == 0 && segments[2] == 0 && segments[3] == 0 && segments[4] == 0
        && segments[5] == 0 && segments[6] == 0 && segments[7] == 1)
        || (segments[0] & 0xfe00) == 0xfc00 || (segments[0] & 0xffc0) == 0xfe80
}

/// The 32-bit value of an IPv4 address.
pub open spec fn ipv4_value(o: [u8; 4]) -> int {
    o[0] * 16777216 + o[1] * 65536 + o[2] * 256 + o[3]
}

/// An IPv4 address counts as private exactly when it lies in one of the
/// blocks 10.0.0.0/8, 172.16.0.0/12, 192.168.0.0/16, 127.0.0.0/8 (loopback)
/// or 169.254.0.0/16 (link-local), taken as ranges of address values.
pub proof fn law_private_ipv4_blocks(o: [u8; 4])
    ensures
        ({
            let a = ipv4_value(o);
            spec_ipv4_is_private(o) <==> (
                (0x0a000000 <= a <= 0x0affffff)
                || (0xac100000 <= a <= 0xac1fffff)
                || (0xc0a80000 <= a <= 0xc0a8ffff)
                || (0x7f000000 <= a <= 0x7fffffff)
                || (0xa9fe0000 <= a <= 0xa9feffff))
        }),
{
    let a = ipv4_value(o);
    let (b0, b1, b2, b3) = (o[0] as int, o[1] as int, o[2] as int, o[3] as int);
    assert(0 <= b1 * 65536 + b2 * 256 + b3 <= 0xffffff) by (nonlinear_arith)
        requires 0 <= b1 < 256, 0 <= b2 < 256, 0 <= b3 < 256;
    assert(0 <= b2 * 256 + b3 <= 0xffff) by (nonlinear_arith)
        requires 0 <= b2 < 256, 0 <= b3 < 256;
}

/// An IPv6 address counts as private exactly when it is the loopback
/// address `::1`, or its first segment lies in fc00..fdff (fc00::/7, unique
/// local) or in fe80..febf (fe80::/10, link-local).
pub proof fn law_private_ipv6_blocks(g: [u16; 8])
    ensures
        spec_ipv6_is_private(g) <==> (
            (g[0] == 0 && g[1] == 0 && g[2] == 0 && g[3] == 0 && g[4] == 0 && g[5] == 0 && g[6] == 0 && g[7] == 1)
            || (0xfc00 <= g[0] <= 0xfdff)
            || (0xfe80 <= g[0] <= 0xfebf)),
{
    let s0 = g[0];
    assert(((s0 & 0xfe00) == 0xfc00) <==> (0xfc00 <= s0 && s0 <= 0xfdff)) by (bit_vector);
    assert(((s0 & 0xffc0) == 0xfe80) <==> (0xfe80 <= s0 && s0 <= 0xfebf)) by (bit_vector);
}

/// The colour for an address: the unified colour when set, otherwise the
/// private or public one (only when one of them is set).
pub open spec fn spec_ip_color(unified: Option<CellColor>, public: Option<CellColor>, private_c: Option<CellColor>, is_private: bool) -> Option<CellColor> {
    if unified is Some {
        unified
    } else if public is Some || private_c is Some {
        if is_private { private_c } else { public }
    } else {
        None
    }
}

/// Chooses the colour of an IPv4 (`v6` false) or IPv6 address.
pub fn ip_color(cached: &CachedIpColors, v6: bool, is_private: bool) -> (c: Option<CellColor>)
    ensures
        c == if v6 {
            spec_ip_color(cached.ipv6_unified, cached.ipv6_public, cached.ipv6_private, is_private)
        } else {
            spec_ip_color(cached.ipv4_unified, cached.ipv4_public, cached.ipv4_private, is_private)
        },
{
    let (u, pu, pr) = if v6 {
        (cached.ipv6_unified, cached.ipv6_public, cached.ipv6_private)
    } else {
        (cached.ipv4_unified, cached.ipv4_public, cached.ipv4_private)
    };
    if u.is_some() {
        u
    } else if pu.is_some() || pr.is_some() {
        if is_private { pr } else { pu }
    } else {
        None
    }
}

/// Paints the colours of the cells `start..end` of a row with `c`.
pub fn paint_span(colors: &mut Vec<Option<CellColor>>, start: usize, end: usize, c: CellColor)
    ensures
        final(colors)@ == painted(old(colors)@, start as int, end as int, old(colors)@.len() as int, c),
{
    let n = colors.len();
    paint(colors, start, end, n, c);
}

/// An IP address as the standard parser reads it: the four octets of an
/// IPv4 address or the eight segments of an IPv6 address.
#[derive(Debug, Clone, Copy)]
pub enum ParsedIp {
    V4([u8; 4]),
    V6([u16; 8]),
}

/// The colour of an address.
pub open spec fn parsed_ip_color(ip: ParsedIp, cached: CachedIpColors) -> Option<CellColor> {
    match ip {
        ParsedIp::V4(o) => spec_ip_color(cached.ipv4_unified, cached.ipv4_public, cached.ipv4_private, spec_ipv4_is_private(o)),
        ParsedIp::V6(s) => spec_ip_color(cached.ipv6_unified, cached.ipv6_public, cached.ipv6_private, spec_ipv6_is_private(s)),
    }
}

/// The colours after painting one IP token at `start..end`: the whole token
/// when it reads as an address (`whole`), otherwise its core (`core`, the
/// token without trailing `.`/`:` and leading `.`) when that is non-empty
/// and reads as one (`core_ip`); nothing when neither does or no colour is
/// configured for the address.
pub open spec fn ip_painted(colors: Seq<Option<CellColor>>, start: int, end: int, core: (int, int), whole: Option<ParsedIp>, core_ip: Option<ParsedIp>, cached: CachedIpColors) -> Seq<Option<CellColor>> {
    match whole {
        Some(ip) => match parsed_ip_color(ip, cached) {
            Some(c) => painted(colors, start, end, colors.len() as int, c),
            None => colors,
        },
        None => if core.0 < core.1 {
            match core_ip {
                Some(ip) => match parsed_ip_color(ip, cached) {
                    Some(c) => painted(colors, core.0, core.1, colors.len() as int, c),
                    None => colors,
                },
                None => colors,
            }
        } else {
            colors
        },
    }
}

fn parsed_ip_color_exec(ip: ParsedIp, cached: &CachedIpColors) -> (c: Option<CellColor>)
    ensures
        c == parsed_ip_color(ip, *cached),
{
    match ip {
        ParsedIp::V4(o) => ip_color(cached, false, ipv4_is_private(o)),
        ParsedIp::V6(s) => ip_color(cached, true, ipv6_is_private(s)),
    }
}

/// Paints one IP token of a row (see `ip_painted`).  The caller parses the
/// token (`whole`) and its core (`core_ip`) with the standard address parser.
pub fn apply_ip_color(colors: &mut Vec<Option<CellColor>>, start: usize, end: usize, core: (usize, usize), whole: Option<ParsedIp>, core_ip: Option<ParsedIp>, cached: &CachedIpColors)
    ensures
        final(colors)@ == ip_painted(old(colors)@, start as int, end as int, (core.0 as int, core.1 as int), whole, core_ip, *cached),
{
    match whole {
        Some(ip) => {
            if let Some(c) = parsed_ip_color_exec(ip, cached) {
                paint_span(colors, start, end, c);
            }
        },
        None => {
            if core.0 < core.1 {
                if let Some(ip) = core_ip {
                    if let Some(c) = parsed_ip_color_exec(ip, cached) {
                        paint_span(colors, core.0, core.1, c);
                    }
                }
            }
        },
    }
}

/// The characters of a row of `cols` cells (see `row_chars`).
pub fn row_text(line_cells: &Vec<Cell>, cols: usize) -> (row: Vec<char>)
    ensures
        row@ == row_chars(line_cells@, cols as int),
{
    let mut row: Vec<char> = Vec::new();
    let mut col: usize = 0;
    while col < cols
        invariant
            col <= cols,
            row@ == row_chars(line_cells@, cols as int).take(col as int),
        decreases cols - col,
    {
        let ch = if col < line_cells.len() {
            if line_cells[col].ch == '\0' { ' ' } else { line_cells[col].ch }
        } else {
            ' '
        };
        row.push(ch);
        col = col + 1;
        assert(row@ =~= row_chars(line_cells@, cols as int).take(col as int));
    }
    assert(row@ =~= row_chars(line_cells@, cols as int));
    row
}

// ─── Customisation caches ───────────────────────────────────────────────────

impl View for CachedKeyword {
    type V = (Seq<char>, CellColor, bool);

    open spec fn view(&self) -> Self::V {
        (self.target@, self.color, self.case_insensitive)
    }
}

/// The text a keyword is matched by: lowercased when case-insensitive.
pub open spec fn keyword_target(k: KeywordTheme) -> Seq<char> {
    if k.case_insensitive { unicode_lowercase(k.keyword@) } else { k.keyword@ }
}

/// The renderer's cache of `kws`: each keyword whose colour parses, with
/// its target text, in order.
pub open spec fn cached_keywords(kws: Seq<KeywordTheme>) -> Seq<(Seq<char>, CellColor, bool)>
    decreases kws.len(),
{
    if kws.len() == 0 {
        seq![]
    } else {
        let rest = cached_keywords(kws.drop_last());
        let k = kws.last();
        match spec_parse_hex_color(encode_utf8(k.color@)) {
            Some(c) => rest.push((keyword_target(k), c, k.case_insensitive)),
            None => rest,
        }
    }
}

/// A cached keyword has the target text and case mode of `k`.
pub open spec fn keyword_matches(c: CachedKeyword, k: KeywordTheme) -> bool {
    c.case_insensitive == k.case_insensitive && c.target@ == keyword_target(k)
}

/// Whether the cache still matches the keywords: same number, and each
/// with the same target text and case mode.
pub open spec fn keywords_in_sync(cached: Seq<CachedKeyword>, kws: Seq<KeywordTheme>) -> bool {
    &&& cached.len() == kws.len()
    &&& forall|i: int| 0 <= i < kws.len() ==> keyword_matches(#[trigger] cached[i], kws[i])
}

/// Checks `keywords_in_sync`.
pub fn keywords_synced(cached: &Vec<CachedKeyword>, kws: &Vec<KeywordTheme>) -> (b: bool)
    ensures
        b == keywords_in_sync(cached@, kws@),
{
    if cached.len() != kws.len() {
        return false;
    }
    let mut i: usize = 0;
    while i < kws.len()
        invariant
            i <= kws@.len(),
            cached@.len() == kws@.len(),
            forall|j: int| 0 <= j < i ==> keyword_matches(#[trigger] cached@[j], kws@[j]),
        decreases kws@.len() - i,
    {
        let c = &cached[i];
        let k = &kws[i];
        if c.case_insensitive != k.case_insensitive {
            assert(!keyword_matches(cached@[i as int], kws@[i as int]));
            return false;
        }
        let same = if k.case_insensitive {
            let low = to_lowercase(k.keyword.as_str());
            same_text(c.target.as_str(), low.as_str())
        } else {
            same_text(c.target.as_str(), k.keyword.as_str())
        };
        if !same {
            assert(!keyword_matches(cached@[i as int], kws@[i as int]));
            return false;
        }
        assert(keyword_matches(cached@[i as int], kws@[i as int]));
        i = i + 1;
    }
    true
}

/// Builds the renderer's keyword cache (see `cached_keywords`).
pub fn build_cached_keywords(kws: &Vec<KeywordTheme>) -> (r: Vec<CachedKeyword>)
    requires
        forall|i: int| 0 <= i < kws@.len() ==> hex_fields_sliceable(#[trigger] kws@[i].color@),
    ensures
        r@.map_values(|c: CachedKeyword| c@) == cached_keywords(kws@),
{
    let mut r: Vec<CachedKeyword> = Vec::new();
    let mut i: usize = 0;
    while i < kws.len()
        invariant
            i <= kws@.len(),
            forall|j: int| 0 <= j < kws@.len() ==> hex_fields_sliceable(#[trigger] kws@[j].color@),
            r@.map_values(|c: CachedKeyword| c@) == cached_keywords(kws@.take(i as int)),
        decreases kws@.len() - i,
    {
        let k = &kws[i];
        assert(kws@.take(i + 1).drop_last() =~= kws@.take(i as int));
        assert(kws@.take(i + 1).last() == kws@[i as int]);
        if let Ok(color) = parse_hex_color(k.color.as_str()) {
            let target = if k.case_insensitive { to_lowercase(k.keyword.as_str()) } else { k.keyword.clone() };
            r.push(CachedKeyword { target, color, case_insensitive: k.case_insensitive });
        }
        assert(r@.map_values(|c: CachedKeyword| c@) =~= cached_keywords(kws@.take(i + 1)));
        i = i + 1;
    }
    assert(kws@.take(kws@.len() as int) =~= kws@);
    r
}

/// The colour texts of an IP customisation can be read.
pub open spec fn ip_custom_sliceable(c: Option<IpCustomization>) -> bool {
    match c {
        Some(IpCustomization::Unified(h)) => hex_fields_sliceable(h@),
        Some(IpCustomization::Split { public, private }) => hex_fields_sliceable(public@) && hex_fields_sliceable(private@),
        None => true,
    }
}

/// The parsed colour of a colour text, if it parses.
pub open spec fn hex_color_of(text: Seq<char>) -> Option<CellColor> {
    spec_parse_hex_color(encode_utf8(text))
}

/// The (unified, public, private) colours of an IP customisation: a unified
/// colour fills only the first, a split one only the other two.
pub open spec fn ip_colors_of(c: Option<IpCustomization>) -> (Option<CellColor>, Option<CellColor>, Option<CellColor>) {
    match c {
        Some(IpCustomization::Unified(h)) => (hex_color_of(h@), None, None),
        Some(IpCustomization::Split { public, private }) => (None, hex_color_of(public@), hex_color_of(private@)),
        None => (None, None, None),
    }
}

fn parse_opt(h: &String) -> (c: Option<CellColor>)
    requires
        hex_fields_sliceable(h@),
    ensures
        c == hex_color_of(h@),
{
    match parse_hex_color(h.as_str()) {
        Ok(c) => Some(c),
        Err(()) => None,
    }
}

fn ip_colors_exec(c: &Option<IpCustomization>) -> (r: (Option<CellColor>, Option<CellColor>, Option<CellColor>))
    requires
        ip_custom_sliceable(*c),
    ensures
        r == ip_colors_of(*c),
{
    match c {
        Some(IpCustomization::Unified(h)) => (parse_opt(h), None, None),
        Some(IpCustomization::Split { public, private }) => (None, parse_opt(public), parse_opt(private)),
        None => (None, None, None),
    }
}

/// The IP colours of the customisations, parsed once.
pub fn build_cached_ip_colors(cd: &CustomizationConfig) -> (r: CachedIpColors)
    requires
        ip_custom_sliceable(cd.ipv4),
        ip_custom_sliceable(cd.ipv6),
    ensures
        (r.ipv4_unified, r.ipv4_public, r.ipv4_private) == ip_colors_of(cd.ipv4),
        (r.ipv6_unified, r.ipv6_public, r.ipv6_private) == ip_colors_of(cd.ipv6),
{
    let (u4, pu4, pr4) = ip_colors_exec(&cd.ipv4);
    let (u6, pu6, pr6) = ip_colors_exec(&cd.ipv6);
    CachedIpColors {
        ipv4_unified: u4,
        ipv4_public: pu4,
        ipv4_private: pr4,
        ipv6_unified: u6,
        ipv6_public: pu6,
        ipv6_private: pr6,
    }
}

/// Brings the renderer's caches up to date with the customisations: the
/// keyword cache is rebuilt unless it is in sync (see `keywords_in_sync`,
/// which compares targets and case modes only); the IP colours are always
/// parsed again.
pub fn sync_customization(cached_keywords_vec: &mut Vec<CachedKeyword>, cached_ip: &mut CachedIpColors, cd: &CustomizationConfig)
    requires
        forall|i: int| 0 <= i < cd.keywords@.len() ==> hex_fields_sliceable(#[trigger] cd.keywords@[i].color@),
        ip_custom_sliceable(cd.ipv4),
        ip_custom_sliceable(cd.ipv6),
    ensures
        keywords_in_sync(old(cached_keywords_vec)@, cd.keywords@) ==> final(cached_keywords_vec)@ == old(cached_keywords_vec)@,
        !keywords_in_sync(old(cached_keywords_vec)@, cd.keywords@) ==>
            final(cached_keywords_vec)@.map_values(|c: CachedKeyword| c@) == cached_keywords(cd.keywords@),
        (final(cached_ip).ipv4_unified, final(cached_ip).ipv4_public, final(cached_ip).ipv4_private) == ip_colors_of(cd.ipv4),
        (final(cached_ip).ipv6_unified, final(cached_ip).ipv6_public, final(cached_ip).ipv6_private) == ip_colors_of(cd.ipv6),
{
    if !keywords_synced(cached_keywords_vec, &cd.keywords) {
        *cached_keywords_vec = build_cached_keywords(&cd.keywords);
    }
    *cached_ip = build_cached_ip_colors(cd);
}

// ─── A whole row ────────────────────────────────────────────────────────────

/// A candidate address of a row: a maximal run of IP characters (`c.0`) and
/// its core (`c.1`, see `ip_core`), as offsets into the row.
pub open spec fn is_ip_candidate(s: Seq<char>, c: ((usize, usize), (usize, usize))) -> bool {
    &&& is_ip_token(s, c.0.0 as int, c.0.1 as int)
    &&& c.1.0 - c.0.0 == ip_core(s.subrange(c.0.0 as int, c.0.1 as int)).0
    &&& c.1.1 - c.0.0 == ip_core(s.subrange(c.0.0 as int, c.0.1 as int)).1
    &&& c.0.0 <= c.1.0 <= c.1.1 <= c.0.1
}

/// The candidate addresses of a row, left to right, with their cores: the
/// pieces of text the caller reads as IP addresses.
pub fn ip_candidates(text: &Vec<char>) -> (r: Vec<((usize, usize), (usize, usize))>)
    ensures
        forall|k: int| 0 <= k < r@.len() ==> is_ip_candidate(text@, #[trigger] r@[k]),
        forall|k: int| 0 <= k < r@.len() - 1 ==> r@[k].0.1 < r@[k + 1].0.0,
        forall|i: int| 0 <= i < text@.len() && is_ip_char(#[trigger] text@[i]) ==>
            exists|k: int| 0 <= k < r@.len() && #[trigger] span_covers(r@[k].0, i),
{
    let spans = ip_token_spans(text);
    let mut r: Vec<((usize, usize), (usize, usize))> = Vec::new();
    let mut k: usize = 0;
    while k < spans.len()
        invariant
            k <= spans@.len(),
            r@.len() == k,
            forall|j: int| 0 <= j < spans@.len() ==> is_ip_token(text@, spans@[j].0 as int, spans@[j].1 as int),
            forall|j: int| 0 <= j < k ==> is_ip_candidate(text@, #[trigger] r@[j]) && r@[j].0 == spans@[j],
        decreases spans@.len() - k,
    {
        let sp = spans[k];
        assert(is_ip_token(text@, spans@[k as int].0 as int, spans@[k as int].1 as int));
        let core = ip_token_core(text, sp.0, sp.1);
        r.push((sp, core));
        k = k + 1;
    }
    assert forall|j: int| 0 <= j < r@.len() - 1 implies r@[j].0.1 < r@[j + 1].0.0 by {
        assert(r@[j].0 == spans@[j] && r@[j + 1].0 == spans@[j + 1]);
    }
    assert forall|i: int| 0 <= i < text@.len() && is_ip_char(#[trigger] text@[i]) implies
        exists|k: int| 0 <= k < r@.len() && #[trigger] span_covers(r@[k].0, i) by {
        let k = choose|k: int| 0 <= k < spans@.len() && #[trigger] span_covers(spans@[k], i);
        assert(r@[k].0 == spans@[k]);
        assert(span_covers(r@[k].0, i));
    }
    r
}

/// The colours after painting the candidates `cands[..k]` in order, each
/// with the parse results of its whole text and of its core (see
/// `ip_painted`).
pub open spec fn ips_painted(
    colors: Seq<Option<CellColor>>,
    cands: Seq<((usize, usize), (usize, usize))>,
    parses: Seq<(Option<ParsedIp>, Option<ParsedIp>)>,
    k: int,
    cached: CachedIpColors,
) -> Seq<Option<CellColor>>
    decreases k,
{
    if k <= 0 {
        colors
    } else {
        let prev = ips_painted(colors, cands, parses, k - 1, cached);
        let c = cands[k - 1];
        ip_painted(prev, c.0.0 as int, c.0.1 as int, (c.1.0 as int, c.1.1 as int), parses[k - 1].0, parses[k - 1].1, cached)
    }
}

/// The custom colours of a row of `cols` cells: the keywords (see
/// `spec_keyword_highlights`), then, when an IP colour is configured and the
/// row is not all spaces, the candidate addresses in order.
pub open spec fn spec_line_highlights(
    colors: Seq<Option<CellColor>>,
    line: Seq<Cell>,
    cols: int,
    kws: Seq<CachedKeyword>,
    cd: CustomizationConfig,
    cands: Seq<((usize, usize), (usize, usize))>,
    parses: Seq<(Option<ParsedIp>, Option<ParsedIp>)>,
    cached: CachedIpColors,
) -> Seq<Option<CellColor>> {
    let k = spec_keyword_highlights(colors, line, cols, kws);
    let s = row_chars(line, cols);
    if (cd.ipv4 is Some || cd.ipv6 is Some) && !(forall|i: int| 0 <= i < s.len() ==> s[i] == ' ') {
        ips_painted(k, cands, parses, cands.len() as int, cached)
    } else {
        k
    }
}

/// Colours one row (see `spec_line_highlights`).  `cands` are the row's
/// candidate addresses (`ip_candidates` of its text) and `parses[k]` the
/// standard parser's reading of the whole text and of the core of
/// `cands[k]`.
pub fn line_highlights(
    line: &Vec<Cell>,
    cols: usize,
    keywords: &Vec<CachedKeyword>,
    cd: &CustomizationConfig,
    cands: &Vec<((usize, usize), (usize, usize))>,
    parses: &Vec<(Option<ParsedIp>, Option<ParsedIp>)>,
    cached: &CachedIpColors,
    colors: &mut Vec<Option<CellColor>>,
)
    requires
        cols <= old(colors)@.len(),
        cands@.len() == parses@.len(),
    ensures
        final(colors)@ == spec_line_highlights(old(colors)@, line@, cols as int, keywords@, *cd, cands@, parses@, *cached),
{
    compute_keyword_highlights(line, cols, keywords, colors);
    let text = row_text(line, cols);
    let mut blank = true;
    let mut i: usize = 0;
    while i < text.len()
        invariant
            i <= text@.len(),
            blank == (forall|j: int| 0 <= j < i ==> text@[j] == ' '),
        decreases text@.len() - i,
    {
        if text[i] != ' ' {
            blank = false;
        }
        i = i + 1;
    }
    if (cd.ipv4.is_some() || cd.ipv6.is_some()) && !blank {
        let ghost start = colors@;
        let mut k: usize = 0;
        while k < cands.len()
            invariant
                k <= cands@.len(),
                cands@.len() == parses@.len(),
                colors@ == ips_painted(start, cands@, parses@, k as int, *cached),
            decreases cands@.len() - k,
        {
            let c = cands[k];
            let p = parses[k];
            apply_ip_color(colors, c.0.0, c.0.1, c.1, p.0, p.1, cached);
            k = k + 1;
        }
    }
}

// ─── Laws ───────────────────────────────────────────────────────────────────

proof fn lemma_scan_keeps_painted(colors: Seq<Option<CellColor>>, s: Seq<char>, t: Seq<char>, p: int, cols: int, c: CellColor, i: int)
    requires
        0 <= i < colors.len(),
        colors[i] is Some,
    ensures
        keyword_scan(colors, s, t, p, cols, c)[i] == colors[i],
    decreases s.len() - p,
{
    lemma_keyword_scan_len(colors, s, t, p, cols, c);
    if t.len() == 0 || p < 0 || p + t.len() > s.len() {
    } else if occurs_at(s, t, p) {
        let next = if standalone_at(s, t, p) { painted_free(colors, p, p + t.len(), cols, c) } else { colors };
        assert(next[i] == colors[i]);
        lemma_scan_keeps_painted(next, s, t, p + t.len(), cols, c, i);
    } else {
        lemma_scan_keeps_painted(colors, s, t, p + 1, cols, c, i);
    }
}

proof fn lemma_applied_len(colors: Seq<Option<CellColor>>, s: Seq<char>, kws: Seq<CachedKeyword>, k: int, cols: int)
    ensures
        keywords_applied(colors, s, kws, k, cols).len() == colors.len(),
    decreases k,
{
    if k > 0 {
        lemma_applied_len(colors, s, kws, k - 1, cols);
        let prev = keywords_applied(colors, s, kws, k - 1, cols);
        let kw = kws[k - 1];
        let text = if kw.case_insensitive { unicode_lowercase(s) } else { s };
        lemma_keyword_scan_len(prev, text, kw.target@, 0, cols, kw.color);
    }
}

proof fn lemma_applied_same_prefix(colors: Seq<Option<CellColor>>, s: Seq<char>, a: Seq<CachedKeyword>, b: Seq<CachedKeyword>, k: int, cols: int)
    requires
        k <= a.len(),
        k <= b.len(),
        forall|j: int| 0 <= j < k ==> a[j] == b[j],
    ensures
        keywords_applied(colors, s, a, k, cols) == keywords_applied(colors, s, b, k, cols),
    decreases k,
{
    if k > 0 {
        lemma_applied_same_prefix(colors, s, a, b, k - 1, cols);
    }
}

proof fn lemma_applied_keeps_painted(colors: Seq<Option<CellColor>>, s: Seq<char>, kws: Seq<CachedKeyword>, k1: int, k2: int, cols: int, i: int)
    requires
        0 <= k1 <= k2,
        0 <= i < colors.len(),
        keywords_applied(colors, s, kws, k1, cols)[i] is Some,
    ensures
        keywords_applied(colors, s, kws, k2, cols)[i] == keywords_applied(colors, s, kws, k1, cols)[i],
    decreases k2,
{
    if k2 > k1 {
        lemma_applied_keeps_painted(colors, s, kws, k1, k2 - 1, cols, i);
        lemma_applied_len(colors, s, kws, k2 - 1, cols);
        let prev = keywords_applied(colors, s, kws, k2 - 1, cols);
        let kw = kws[k2 - 1];
        let text = if kw.case_insensitive { unicode_lowercase(s) } else { s };
        lemma_scan_keeps_painted(prev, text, kw.target@, 0, cols, kw.color, i);
    }
}

/// `t` occurs in `s` at `q` with no keyword token character (letter,
/// digit, `_` or `-`) right before or right after it.
pub open spec fn alone_in(s: Seq<char>, t: Seq<char>, q: int) -> bool {
    &&& 0 <= q
    &&& q + t.len() <= s.len()
    &&& s.subrange(q, q + t.len()) == t
    &&& (q == 0 || !spec_is_keyword_token_char(s[q - 1]))
    &&& (q + t.len() == s.len() || !spec_is_keyword_token_char(s[q + t.len()]))
}

/// The text a keyword is searched in: the row, lowercased for a
/// case-insensitive keyword.
pub open spec fn searched_text(s: Seq<char>, kw: CachedKeyword) -> Seq<char> {
    if kw.case_insensitive { unicode_lowercase(s) } else { s }
}

/// The keyword `kw` stands alone at `q` in the row `s` (see `alone_in`).
pub open spec fn keyword_alone_at(s: Seq<char>, kw: CachedKeyword, q: int) -> bool {
    alone_in(searched_text(s, kw), kw.target@, q)
}

proof fn lemma_scan_paints_alone(colors: Seq<Option<CellColor>>, s: Seq<char>, t: Seq<char>, p: int, cols: int, c: CellColor, i: int)
    requires
        0 <= i < colors.len(),
        colors[i] is None,
        keyword_scan(colors, s, t, p, cols, c)[i] is Some,
    ensures
        exists|q: int| p <= q && q <= i < q + t.len() && #[trigger] alone_in(s, t, q),
    decreases s.len() - p,
{
    if t.len() == 0 || p < 0 || p + t.len() > s.len() {
    } else if occurs_at(s, t, p) {
        let next = if standalone_at(s, t, p) { painted_free(colors, p, p + t.len(), cols, c) } else { colors };
        if next[i] is Some {
            assert(alone_in(s, t, p));
        } else {
            lemma_scan_paints_alone(next, s, t, p + t.len(), cols, c, i);
        }
    } else {
        lemma_scan_paints_alone(colors, s, t, p + 1, cols, c, i);
    }
}

proof fn lemma_applied_paints_alone(colors: Seq<Option<CellColor>>, s: Seq<char>, kws: Seq<CachedKeyword>, k: int, cols: int, i: int)
    requires
        0 <= i < colors.len(),
        colors[i] is None,
        k <= kws.len(),
        keywords_applied(colors, s, kws, k, cols)[i] is Some,
    ensures
        exists|j: int, q: int| 0 <= j < k && q <= i < q + kws[j].target@.len()
            && #[trigger] keyword_alone_at(s, kws[j], q),
    decreases k,
{
    if k > 0 {
        let prev = keywords_applied(colors, s, kws, k - 1, cols);
        lemma_applied_len(colors, s, kws, k - 1, cols);
        if prev[i] is Some {
            lemma_applied_paints_alone(colors, s, kws, k - 1, cols, i);
            let (j, q) = choose|j: int, q: int| 0 <= j < k - 1 && q <= i < q + kws[j].target@.len()
                && #[trigger] keyword_alone_at(s, kws[j], q);
            assert(keyword_alone_at(s, kws[j], q));
        } else {
            let kw = kws[k - 1];
            let text = if kw.case_insensitive { unicode_lowercase(s) } else { s };
            lemma_scan_paints_alone(prev, text, kw.target@, 0, cols, kw.color, i);
            let q = choose|q: int| 0 <= q && q <= i < q + kw.target@.len() && #[trigger] alone_in(text, kw.target@, q);
            assert(keyword_alone_at(s, kws[k - 1], q));
        }
    }
}

/// A cell of a row is coloured as a keyword only where that keyword stands
/// alone: the cell lies in an occurrence of some keyword's text (in the
/// lowercased row for a case-insensitive keyword) whose neighbours on both
/// sides are not keyword token characters (letters, digits, `_`, `-`).
/// So `error` colours nothing in `errors: 3`.
pub proof fn law_keywords_paint_only_standalone(colors: Seq<Option<CellColor>>, line: Seq<Cell>, cols: int, kws: Seq<CachedKeyword>, i: int)
    requires
        0 <= i < colors.len(),
        i < cols,
    ensures
        spec_keyword_highlights(colors, line, cols, kws)[i] is Some ==>
            exists|j: int, q: int| 0 <= j < kws.len() && q <= i < q + kws[j].target@.len()
                && #[trigger] keyword_alone_at(row_chars(line, cols), kws[j], q),
{
    let reset = Seq::new(colors.len(), |x: int| if x < cols { None } else { colors[x] });
    let s = row_chars(line, cols);
    if spec_keyword_highlights(colors, line, cols, kws)[i] is Some {
        if !(forall|x: int| 0 <= x < s.len() ==> s[x] == ' ') {
            lemma_applied_paints_alone(reset, s, kws, kws.len() as int, cols, i);
        }
    }
}

/// Keywords apply in their order and an earlier keyword wins where two
/// overlap: a cell that the first `k` keywords colour keeps that colour
/// once all the keywords are applied.
pub proof fn law_earlier_keyword_wins(colors: Seq<Option<CellColor>>, line: Seq<Cell>, cols: int, kws: Seq<CachedKeyword>, k: int, i: int)
    requires
        0 <= k <= kws.len(),
        0 <= i < colors.len(),
        spec_keyword_highlights(colors, line, cols, kws.take(k))[i] is Some,
    ensures
        spec_keyword_highlights(colors, line, cols, kws)[i] == spec_keyword_highlights(colors, line, cols, kws.take(k))[i],
{
    let reset = Seq::new(colors.len(), |j: int| if j < cols { None } else { colors[j] });
    let s = row_chars(line, cols);
    if !(forall|j: int| 0 <= j < s.len() ==> s[j] == ' ') {
        lemma_applied_same_prefix(reset, s, kws.take(k), kws, k, cols);
        assert(kws.take(k).len() == k);
        lemma_applied_keeps_painted(reset, s, kws, k, kws.len() as int, cols, i);
    }
}

} // verus!
