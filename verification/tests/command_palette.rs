use rustty::grid::TerminalGrid;
use rustty::palette::{copy_all_text, copy_last_lines_text, palette_digits, parse_line_count};

fn type_text(g: &mut TerminalGrid, text: &str) {
    for c in text.chars() {
        match c {
            '\n' => {
                g.execute(b'\r');
                g.execute(b'\n');
            }
            _ => g.print(c),
        }
    }
}

#[test]
fn line_count_field_keeps_digits() {
    assert_eq!(palette_digits("12a3"), "123");
    assert_eq!(palette_digits("abc"), "");
    assert_eq!(palette_digits("+4 5"), "45");
}

#[test]
fn line_count_parses_like_std() {
    assert_eq!(parse_line_count("42"), Some(42));
    assert_eq!(parse_line_count("+7"), Some(7));
    assert_eq!(parse_line_count("007"), Some(7));
    assert_eq!(parse_line_count(""), None);
    assert_eq!(parse_line_count("+"), None);
    assert_eq!(parse_line_count("-1"), None);
    assert_eq!(parse_line_count("1x"), None);
    let max = usize::MAX.to_string();
    assert_eq!(parse_line_count(&max), Some(usize::MAX));
    let over = format!("{}0", usize::MAX);
    assert_eq!(parse_line_count(&over), None);
    for s in ["0", "9", "123456", "+00", "12 3", " 1"] {
        assert_eq!(parse_line_count(s), s.parse::<usize>().ok(), "{:?}", s);
    }
}

#[test]
fn copy_all_and_copy_last_lines() {
    let mut g = TerminalGrid::new(3, 10, 100);
    // A blank screen still copies its (empty) rows.
    assert_eq!(copy_all_text(&g), Some("\n\n".to_string()));
    type_text(&mut g, "one\ntwo\nthree\nfour");
    // "one" went to the scrollback; the screen holds two, three, four.
    assert_eq!(copy_all_text(&g), Some("one\ntwo\nthree\nfour".to_string()));
    assert_eq!(copy_last_lines_text(&g, 2), Some("three\nfour".to_string()));
    assert_eq!(copy_last_lines_text(&g, 100), Some("one\ntwo\nthree\nfour".to_string()));
}
