use rustty::cell::{Cell, CellColor};
use rustty::grid::TerminalGrid;
use rustty::highlight::{
    compute_keyword_highlights, ip_token_core, ip_token_spans, ipv4_is_private, ipv6_is_private,
    is_keyword_token_char, parse_hex_color, CachedKeyword,
};
use rustty::input::{
    format_sgr_mouse, normalize_paste, paste_payload, select_line_at, select_word_at, InputState,
};

#[test]
fn test_multiline_paste_normalization() {
    let raw_windows_paste = "comando 1\r\ncomando 2\r\ncomando 3\r\n";
    let normalized = normalize_paste(raw_windows_paste);
    assert_eq!(normalized, "comando 1\rcomando 2\rcomando 3\r");

    let raw_unix_paste = "comando 1\ncomando 2\ncomando 3";
    let normalized_unix = normalize_paste(raw_unix_paste);
    assert_eq!(normalized_unix, "comando 1\rcomando 2\rcomando 3");
}

#[test]
fn test_sgr_mouse_formatting() {
    let press = format_sgr_mouse(0, 9, 19, false);
    assert_eq!(press, b"\x1b[<0;10;20M");

    let release = format_sgr_mouse(0, 9, 19, true);
    assert_eq!(release, b"\x1b[<0;10;20m");

    let scroll_up = format_sgr_mouse(64, 4, 8, false);
    assert_eq!(scroll_up, b"\x1b[<64;5;9M");
}

#[test]
fn test_word_and_line_selection() {
    let mut grid = TerminalGrid::new(5, 20, 100);
    let text = "hello_world 123.456";
    for (i, c) in text.chars().enumerate() {
        grid.cells[0][i].ch = c;
    }

    let mut input = InputState::default();
    select_word_at(&grid, 0, 3, &mut input);
    assert_eq!(input.sel_anchor, Some((0, 0)));
    assert_eq!(input.sel_cursor, Some((0, 10)));

    select_line_at(&grid, 0, &mut input);
    assert_eq!(input.sel_anchor, Some((0, 0)));
    assert_eq!(input.sel_cursor, Some((0, 19)));
}

#[test]
fn test_selection_lifecycle() {
    let mut input = InputState::default();
    assert!(!input.has_selection());

    input.sel_anchor = Some((5, 10));
    input.sel_cursor = Some((5, 10));
    assert!(!input.has_selection(), "Identical anchor and cursor must not count as active selection");

    input.sel_cursor = Some((5, 15));
    assert!(input.has_selection(), "Different anchor and cursor must count as active selection");

    input.sel_anchor = Some((8, 2));
    input.sel_cursor = Some((8, 2));
    assert!(!input.has_selection(), "New click must immediately clear previous active selection");

    input.clear_selection();
    assert_eq!(input.sel_anchor, None);
    assert_eq!(input.sel_cursor, None);
    assert!(!input.has_selection());
}

#[test]
fn test_keyword_boundary_standalone_up() {
    let text = "<LOOPBACK,UP,LOWER_UP>";
    let target = "UP";

    let mut matches = Vec::new();
    let mut start_idx = 0;
    while let Some(idx) = text[start_idx..].find(target) {
        let match_start = start_idx + idx;
        let match_end = match_start + target.len();

        let is_start_boundary =
            match_start == 0 || !is_keyword_token_char(text[..match_start].chars().last().unwrap());
        let is_end_boundary =
            match_end == text.len() || !is_keyword_token_char(text[match_end..].chars().next().unwrap());

        if is_start_boundary && is_end_boundary {
            matches.push((match_start, match_end));
        }
        start_idx = match_start + target.len();
    }

    assert_eq!(matches.len(), 1, "Only standalone UP must match");
    let (s, e) = matches[0];
    assert_eq!(&text[s..e], "UP");
    assert_eq!(s, 10);
}

#[test]
fn test_cached_keywords_and_ip_parsing() {
    let kw = CachedKeyword {
        target: "error".to_string(),
        color: parse_hex_color("#FF0000").unwrap(),
        case_insensitive: true,
    };

    assert_eq!(kw.target, "error");
    assert_eq!(kw.color.r, 255);
    assert_eq!(kw.color.g, 0);
    assert_eq!(kw.color.b, 0);
}

// ─── Further cases ─────────────────────────────────────────────────────────

fn row(text: &str) -> Vec<Cell> {
    text.chars()
        .map(|c| {
            let mut cell = Cell::default();
            cell.ch = c;
            cell
        })
        .collect()
}

#[test]
fn keyword_highlights_paint_only_standalone_matches() {
    let cells = row("<LOOPBACK,UP,LOWER_UP>");
    let red = CellColor::rgb(255, 0, 0);
    let kws = vec![CachedKeyword { target: "UP".into(), color: red, case_insensitive: false }];
    let mut colors = vec![Some(CellColor::rgb(1, 2, 3)); cells.len()];
    compute_keyword_highlights(&cells, cells.len(), &kws, &mut colors);
    for (i, c) in colors.iter().enumerate() {
        if i == 10 || i == 11 {
            assert_eq!(*c, Some(red));
        } else {
            assert_eq!(*c, None, "cell {}", i);
        }
    }
}

#[test]
fn keyword_highlights_case_insensitive_lowers_the_row() {
    let cells = row("ERROR: disk Error");
    let c = CellColor::rgb(9, 9, 9);
    let kws = vec![CachedKeyword { target: "error".into(), color: c, case_insensitive: true }];
    let mut colors = vec![None; cells.len()];
    compute_keyword_highlights(&cells, cells.len(), &kws, &mut colors);
    assert!(colors[0..5].iter().all(|x| *x == Some(c)));
    assert_eq!(colors[5], None);
    assert!(colors[12..17].iter().all(|x| *x == Some(c)));
}

#[test]
fn hex_colors_parse_and_fail() {
    assert_eq!(parse_hex_color("#00FF00"), Ok(CellColor::rgb(0, 255, 0)));
    assert_eq!(parse_hex_color("##a0b1c2"), Ok(CellColor::rgb(0xa0, 0xb1, 0xc2)));
    assert_eq!(parse_hex_color("#+f+f+f"), Ok(CellColor::rgb(15, 15, 15)));
    assert_eq!(parse_hex_color("#12345"), Err(()));
    assert_eq!(parse_hex_color("#12345g"), Err(()));
    assert_eq!(parse_hex_color(""), Err(()));
}

#[test]
fn ip_tokens_and_cores() {
    let s: Vec<char> = "ip 192.168.56.18... ok ::1:".chars().collect();
    let spans = ip_token_spans(&s);
    assert_eq!(spans, vec![(0, 2), (3, 19), (20, 22), (23, 27)]);
    assert_eq!(ip_token_core(&s, 3, 19), (3, 16));
    let t: Vec<char> = "..10.0.0.1:".chars().collect();
    assert_eq!(ip_token_core(&t, 0, t.len()), (2, 10));
}

#[test]
fn private_address_ranges() {
    assert!(ipv4_is_private([10, 1, 2, 3]));
    assert!(ipv4_is_private([172, 16, 0, 1]));
    assert!(!ipv4_is_private([172, 32, 0, 1]));
    assert!(ipv4_is_private([192, 168, 0, 1]));
    assert!(ipv4_is_private([127, 0, 0, 1]));
    assert!(ipv4_is_private([169, 254, 1, 1]));
    assert!(!ipv4_is_private([8, 8, 8, 8]));
    assert!(ipv6_is_private([0, 0, 0, 0, 0, 0, 0, 1]));
    assert!(ipv6_is_private([0xfd00, 0, 0, 0, 0, 0, 0, 1]));
    assert!(ipv6_is_private([0xfe80, 0, 0, 0, 0, 0, 0, 1]));
    assert!(!ipv6_is_private([0x2001, 0xdb8, 0, 0, 0, 0, 0, 1]));
}

#[test]
fn paste_payload_brackets_when_asked() {
    assert_eq!(paste_payload("a\nb", false), b"a\rb".to_vec());
    assert_eq!(paste_payload("a\r\nb", true), b"\x1b[200~a\rb\x1b[201~".to_vec());
}

// ─── Line highlighting as the renderer runs it ─────────────────────────────

use rustty::config::client::{CustomizationConfig, IpCustomization};
use rustty::highlight::{ip_candidates, line_highlights, row_text, CachedIpColors, ParsedIp};

/// What the standard address parser gives for the texts these tests use
/// (the window asks `std::net` for it).
fn parse_ip(text: &[char]) -> Option<ParsedIp> {
    let s: String = text.iter().collect();
    match s.as_str() {
        "192.168.65.18" => Some(ParsedIp::V4([192, 168, 65, 18])),
        "192.168.56.18" => Some(ParsedIp::V4([192, 168, 56, 18])),
        "8.8.8.8" => Some(ParsedIp::V4([8, 8, 8, 8])),
        "10.0.0.1" => Some(ParsedIp::V4([10, 0, 0, 1])),
        "::1" => Some(ParsedIp::V6([0, 0, 0, 0, 0, 0, 0, 1])),
        _ => None,
    }
}

fn highlight_line(cells: &[Cell], cols: usize, cached_ip: &CachedIpColors, colors: &mut Vec<Option<CellColor>>) {
    let line = cells.to_vec();
    let row = row_text(&line, cols);
    let cands = ip_candidates(&row);
    let parses: Vec<(Option<ParsedIp>, Option<ParsedIp>)> =
        cands.iter().map(|((s, e), (cs, ce))| (parse_ip(&row[*s..*e]), parse_ip(&row[*cs..*ce]))).collect();
    let cd = CustomizationConfig {
        ipv4: Some(IpCustomization::Unified("#00FF00".to_string())),
        ipv6: None,
        keywords: Vec::new(),
    };
    line_highlights(&line, cols, &Vec::new(), &cd, &cands, &parses, cached_ip, colors);
}

#[test]
fn keywords_and_addresses_on_one_row() {
    let red = CellColor::rgb(255, 0, 0);
    let green = CellColor::rgb(0, 255, 0);
    let cached = CachedIpColors {
        ipv4_unified: Some(green),
        ipv4_public: None,
        ipv4_private: None,
        ipv6_unified: None,
        ipv6_public: None,
        ipv6_private: None,
    };
    let line = row("up 10.0.0.1. x");
    let row_chars = row_text(&line, line.len());
    let cands = ip_candidates(&row_chars);
    assert_eq!(cands, vec![((0, 2), (0, 2)), ((3, 12), (3, 11)), ((13, 14), (13, 14))]);
    let parses: Vec<(Option<ParsedIp>, Option<ParsedIp>)> =
        cands.iter().map(|((s, e), (cs, ce))| (parse_ip(&row_chars[*s..*e]), parse_ip(&row_chars[*cs..*ce]))).collect();
    let kws = vec![
        CachedKeyword { target: "".into(), color: red, case_insensitive: false },
        CachedKeyword { target: "up".into(), color: red, case_insensitive: false },
    ];
    let mut cd = CustomizationConfig { ipv4: None, ipv6: None, keywords: Vec::new() };
    let mut colors = vec![None; line.len()];
    line_highlights(&line, line.len(), &kws, &cd, &cands, &parses, &cached, &mut colors);
    assert_eq!(colors[0], Some(red));
    assert_eq!(colors[3], None, "no IP colour configured");

    cd.ipv4 = Some(IpCustomization::Unified("#00FF00".to_string()));
    line_highlights(&line, line.len(), &kws, &cd, &cands, &parses, &cached, &mut colors);
    assert_eq!(colors[1], Some(red));
    assert!(colors[3..11].iter().all(|c| *c == Some(green)));
    assert_eq!(colors[11], None);
}

#[test]
fn test_ip_highlighting_with_trailing_dot() {
    let cached_ip = CachedIpColors {
        ipv4_unified: parse_hex_color("#00FF00").ok(),
        ipv4_public: None,
        ipv4_private: None,
        ipv6_unified: None,
        ipv6_public: None,
        ipv6_private: None,
    };
    let green = Some(CellColor::rgb(0, 255, 0));

    let text1 = "192.168.65.18";
    let cells1 = row(text1);
    let mut colors1 = vec![None; text1.len()];
    highlight_line(&cells1, text1.len(), &cached_ip, &mut colors1);
    for i in 0..13 {
        assert_eq!(colors1[i], green, "Char {} de '{}' deve ser verde", i, text1);
    }

    let text2 = "192.168.56.18.";
    let cells2 = row(text2);
    let mut colors2 = vec![None; text2.len()];
    highlight_line(&cells2, text2.len(), &cached_ip, &mut colors2);
    for i in 0..13 {
        assert_eq!(colors2[i], green, "Char {} de '{}' deve ser verde", i, text2);
    }
    assert_eq!(colors2[13], None, "Ponto terminal '.' de '192.168.56.18.' não deve ser colorido como parte do IP");

    let text3 = "192.168.56.18...";
    let cells3 = row(text3);
    let mut colors3 = vec![None; text3.len()];
    highlight_line(&cells3, text3.len(), &cached_ip, &mut colors3);
    for i in 0..13 {
        assert_eq!(colors3[i], green);
    }
    for i in 13..16 {
        assert_eq!(colors3[i], None, "Reticências terminais não devem ser coloridas");
    }

    let text4 = "192.168.56.18:";
    let cells4 = row(text4);
    let mut colors4 = vec![None; text4.len()];
    highlight_line(&cells4, text4.len(), &cached_ip, &mut colors4);
    for i in 0..13 {
        assert_eq!(colors4[i], green);
    }
    assert_eq!(colors4[13], None, "Dois-pontos terminal não deve ser colorido");

    let text5 = "192.168.56.18.1";
    let cells5 = row(text5);
    let mut colors5 = vec![None; text5.len()];
    highlight_line(&cells5, text5.len(), &cached_ip, &mut colors5);
    assert!(colors5.iter().all(|c| c.is_none()), "5 octetos não devem ser coloridos como IP");
}

#[test]
fn split_ip_colours_follow_private_ranges() {
    let public = CellColor::rgb(1, 1, 1);
    let private = CellColor::rgb(2, 2, 2);
    let cached = CachedIpColors {
        ipv4_unified: None,
        ipv4_public: Some(public),
        ipv4_private: Some(private),
        ipv6_unified: None,
        ipv6_public: None,
        ipv6_private: None,
    };
    let text = "8.8.8.8 10.0.0.1 ::1";
    let cells = row(text);
    let mut colors = vec![None; text.len()];
    highlight_line(&cells, text.len(), &cached, &mut colors);
    assert!(colors[0..7].iter().all(|c| *c == Some(public)));
    assert_eq!(colors[7], None);
    assert!(colors[8..16].iter().all(|c| *c == Some(private)));
    assert!(colors[17..20].iter().all(|c| c.is_none()), "no IPv6 colour is configured");
}

// ─── Renderer batching ─────────────────────────────────────────────────────

use rustty::render::{background_spans, cursor_cell, last_content_col, text_spans, viewport_top, BgSpan};

#[test]
fn test_space_merging_drawcall_reduction() {
    let text = "Linux srv01 6.17.2-1-pve #1 SMP PREEMPT_DYNAMIC PMX 6.17.2-1 x86_64";
    let mut row_cells: Vec<Cell> = text
        .chars()
        .map(|c| Cell {
            ch: c,
            fg: CellColor::white(),
            bg: CellColor::default_bg(),
            bold: false,
            underline: false,
            reverse: false,
        })
        .collect();
    while row_cells.len() < 120 {
        row_cells.push(Cell::default());
    }

    let last_content = last_content_col(&row_cells);
    assert_eq!(last_content, Some(text.len() - 1));
    let line_end_col = last_content.unwrap() + 1;

    let grid = TerminalGrid::new(1, 120, 0);
    let custom = vec![None; 120];
    let spans = text_spans(&grid, &row_cells, line_end_col, &custom, 0, None);

    assert_eq!(spans.len(), 1, "Frase com formatação uniforme deve ser agrupada em 1 único span!");
    assert_eq!((spans[0].start, spans[0].end), (0, text.len()));
}

#[test]
fn text_spans_split_on_style_and_selection() {
    let mut cells = row("ab cd  ef");
    cells[3].bold = true;
    cells[4].bold = true;
    let grid = TerminalGrid::new(1, 20, 0);
    let custom = vec![None; cells.len()];
    let spans = text_spans(&grid, &cells, cells.len(), &custom, 0, None);
    let ranges: Vec<(usize, usize)> = spans.iter().map(|s| (s.start, s.end)).collect();
    assert_eq!(ranges, vec![(0, 3), (3, 5), (7, 9)]);
    assert!(spans[1].bold);

    let sel = Some(((0, 1), (0, 2)));
    let spans = text_spans(&grid, &cells, cells.len(), &custom, 0, sel);
    let ranges: Vec<(usize, usize)> = spans.iter().map(|s| (s.start, s.end)).collect();
    assert_eq!(ranges, vec![(0, 1), (1, 3), (3, 5), (7, 9)]);
    assert_eq!(spans[1].fg, CellColor::white());
}

#[test]
fn background_spans_batch_selection_and_colours() {
    let mut cells = row("abcdef");
    let red = CellColor::rgb(200, 0, 0);
    cells[0].bg = red;
    cells[1].bg = red;
    cells[4].reverse = true;
    let grid = TerminalGrid::new(1, 8, 0);
    let spans = background_spans(&grid, &cells, 0, 8, Some(((0, 2), (0, 3))));
    assert_eq!(
        spans,
        vec![
            BgSpan { start: 0, end: 2, color: Some(red) },
            BgSpan { start: 2, end: 4, color: None },
            BgSpan { start: 4, end: 5, color: Some(cells[4].fg) },
        ]
    );
}

#[test]
fn viewport_and_cursor_positions() {
    let grid = TerminalGrid::new(3, 10, 100);
    assert_eq!(viewport_top(&grid, 0), 0);
    assert_eq!(viewport_top(&grid, 5), 0);
    assert_eq!(cursor_cell(&grid, 0), Some((0, 0)));
    assert_eq!(cursor_cell(&grid, 1), None);
}

#[test]
fn overlapping_keywords_the_earlier_one_wins() {
    let cells = row("x a b c y");
    let red = CellColor::rgb(255, 0, 0);
    let green = CellColor::rgb(0, 255, 0);
    let kws = vec![
        CachedKeyword { target: "a b".into(), color: red, case_insensitive: false },
        CachedKeyword { target: "b c".into(), color: green, case_insensitive: false },
    ];
    let mut colors = vec![None; cells.len()];
    compute_keyword_highlights(&cells, cells.len(), &kws, &mut colors);
    assert_eq!(colors[1], None);
    assert_eq!(colors[2], Some(red));
    assert_eq!(colors[3], Some(red));
    assert_eq!(colors[4], Some(red));
    assert_eq!(colors[5], Some(green));
    assert_eq!(colors[6], Some(green));
    assert_eq!(colors[7], None);

    let same = vec![
        CachedKeyword { target: "ERROR".into(), color: red, case_insensitive: false },
        CachedKeyword { target: "ERROR".into(), color: green, case_insensitive: false },
    ];
    let line = row("an ERROR here");
    let mut colors = vec![None; line.len()];
    compute_keyword_highlights(&line, line.len(), &same, &mut colors);
    assert!(colors[3..8].iter().all(|c| *c == Some(red)));
}
