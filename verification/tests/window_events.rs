use rustty::grid::TerminalGrid;
use rustty::input::InputState;
use rustty::net::NetworkEvent;
use rustty::window::{
    keydown_to_escape_sequence, network_event_effect, on_char, on_copy_shortcut, on_left_button_down,
    on_left_button_up, on_mouse_move, on_named_key, on_resize, on_right_button_down, on_wheel, ClipboardAction,
    PtyResize,
};

fn grid_with(text: &str) -> TerminalGrid {
    let mut grid = TerminalGrid::new(5, 20, 100);
    for (i, c) in text.chars().enumerate() {
        grid.cells[0][i].ch = c;
    }
    grid
}

#[test]
fn test_keydown_escape_sequences() {
    assert_eq!(keydown_to_escape_sequence(0x26, false), Some(b"\x1b[A".to_vec()));
    assert_eq!(keydown_to_escape_sequence(0x28, false), Some(b"\x1b[B".to_vec()));
    assert_eq!(keydown_to_escape_sequence(0x25, false), Some(b"\x1b[D".to_vec()));
    assert_eq!(keydown_to_escape_sequence(0x27, false), Some(b"\x1b[C".to_vec()));
    assert_eq!(keydown_to_escape_sequence(0x24, false), Some(b"\x1b[H".to_vec()));
    assert_eq!(keydown_to_escape_sequence(0x23, false), Some(b"\x1b[F".to_vec()));
    assert_eq!(keydown_to_escape_sequence(0x08, false), Some(b"\x7f".to_vec()));
    assert_eq!(keydown_to_escape_sequence(0x1b, false), Some(b"\x1b".to_vec()));
    assert_eq!(keydown_to_escape_sequence(0x70, false), Some(b"\x1bOP".to_vec()));
    assert_eq!(keydown_to_escape_sequence(0x09, true), Some(b"\x1b[Z".to_vec()));
    assert_eq!(keydown_to_escape_sequence(0x09, false), Some(b"\t".to_vec()));
    assert_eq!(keydown_to_escape_sequence(0x7b, false), Some(b"\x1b[24~".to_vec()));
    assert_eq!(keydown_to_escape_sequence(0x41, false), None);
}

#[test]
fn typed_characters_are_utf8_and_controls_are_skipped() {
    let mut input = InputState::default();
    input.sel_anchor = Some((0, 0));
    input.sel_cursor = Some((0, 3));
    let mut offset = 7;
    assert_eq!(on_char(&mut input, &mut offset, 13), None);
    assert_eq!(offset, 7);
    assert_eq!(on_char(&mut input, &mut offset, 0xe7), Some("ç".as_bytes().to_vec()));
    assert_eq!(offset, 0);
    assert!(input.sel_anchor.is_none());
    assert_eq!(on_char(&mut input, &mut offset, 0xd800), None);
    on_named_key(&mut input, &mut offset);
    assert_eq!(offset, 0);
}

#[test]
fn clicks_select_cell_word_and_line() {
    let grid = grid_with("hello_world 123.456");
    let mut input = InputState::default();
    let t0 = std::time::Instant::now();
    assert_eq!(on_left_button_down(&grid, &mut input, 0, 0, 3, false, t0, false), None);
    assert_eq!(input.click_count, 1);
    assert_eq!(input.sel_anchor, Some((0, 3)));
    on_left_button_up(&grid, &mut input, 0, 3, false);
    assert!(input.sel_anchor.is_none(), "a single click without dragging drops the selection");

    on_left_button_down(&grid, &mut input, 0, 0, 3, false, t0, true);
    assert_eq!(input.click_count, 2);
    assert_eq!(input.sel_anchor, Some((0, 0)));
    assert_eq!(input.sel_cursor, Some((0, 10)));

    on_left_button_down(&grid, &mut input, 0, 0, 3, false, t0, true);
    assert_eq!(input.click_count, 3);
    assert_eq!(input.sel_cursor, Some((0, 19)));
    on_left_button_down(&grid, &mut input, 0, 0, 3, false, t0, true);
    assert_eq!(input.click_count, 3);
}

#[test]
fn dragging_extends_the_selection_and_copies() {
    let grid = grid_with("abcdef");
    let mut input = InputState::default();
    let t0 = std::time::Instant::now();
    on_left_button_down(&grid, &mut input, 0, 0, 1, false, t0, false);
    let (bytes, repaint) = on_mouse_move(&grid, &mut input, 0, 0, 4, false);
    assert_eq!(bytes, None);
    assert!(repaint);
    assert_eq!(input.sel_cursor, Some((0, 4)));
    on_left_button_up(&grid, &mut input, 0, 4, false);
    assert!(input.has_selection());
    match on_right_button_down(&grid, &mut input) {
        ClipboardAction::Copy(t) => assert_eq!(t, "bcde"),
        _ => panic!("expected a copy"),
    }
    assert!(!input.has_selection());
    assert!(matches!(on_right_button_down(&grid, &mut input), ClipboardAction::Paste));
    assert!(matches!(on_copy_shortcut(&grid, &mut input, true), ClipboardAction::Ignore));
    assert!(matches!(on_copy_shortcut(&grid, &mut input, false), ClipboardAction::PassThrough));
}

#[test]
fn mouse_reports_go_to_the_remote_program() {
    let mut grid = grid_with("");
    grid.csi_dispatch(&vec![1003], true, 'h');
    let mut input = InputState::default();
    let t0 = std::time::Instant::now();
    assert_eq!(on_left_button_down(&grid, &mut input, 0, 2, 3, false, t0, false), Some(b"\x1b[<0;4;3M".to_vec()));
    assert_eq!(on_mouse_move(&grid, &mut input, 0, 2, 5, false).0, Some(b"\x1b[<32;6;3M".to_vec()));
    assert_eq!(on_left_button_up(&grid, &mut input, 2, 5, false), Some(b"\x1b[<0;6;3m".to_vec()));
    assert_eq!(on_mouse_move(&grid, &mut input, 0, 2, 6, false).0, Some(b"\x1b[<35;7;3M".to_vec()));
    assert_eq!(on_left_button_down(&grid, &mut input, 0, 2, 3, true, t0, false), None, "Shift keeps the mouse local");
}

#[test]
fn wheel_scrolls_history_or_sends_arrows() {
    let mut grid = TerminalGrid::new(3, 10, 100);
    for _ in 0..10 {
        grid.execute(b'\n');
    }
    let sb = grid.scrollback.len();
    assert!(sb > 0);
    let mut offset = 0;
    assert_eq!(on_wheel(&grid, &mut offset, 2, true, 3), None);
    assert_eq!(offset, sb.min(6));
    on_wheel(&grid, &mut offset, 100, true, 3);
    assert_eq!(offset, sb);
    on_wheel(&grid, &mut offset, 100, false, 3);
    assert_eq!(offset, 0);
    grid.enter_alt_screen();
    assert_eq!(on_wheel(&grid, &mut offset, 2, false, 3), Some(b"\x1b[B\x1b[B".to_vec()));
}

#[test]
fn resizes_are_applied_and_scheduled() {
    let mut grid = TerminalGrid::new(24, 80, 100);
    let mut offset = 5;
    assert_eq!(on_resize(&mut grid, &mut offset, 3, 80, (80, 24)), PtyResize::Unchanged);
    assert_eq!(grid.rows, 24);
    assert_eq!(on_resize(&mut grid, &mut offset, 24, 80, (80, 24)), PtyResize::Cancel);
    assert_eq!(on_resize(&mut grid, &mut offset, 30, 100, (80, 24)), PtyResize::Schedule(100, 30));
    assert_eq!((grid.rows, grid.cols), (30, 100));
    assert_eq!(offset, 0);
}

#[test]
fn network_events_mark_and_feed_the_terminal() {
    let e = network_event_effect(NetworkEvent::Connected("ok".into()));
    assert_eq!(e.status_tag.as_deref(), Some("●"));
    assert!(e.reset);
    let e = network_event_effect(NetworkEvent::DataReceived(vec![1, 2]));
    assert_eq!(e.feed, vec![1, 2]);
    assert!(e.to_bottom);
    let e = network_event_effect(NetworkEvent::Disconnected("bye".into()));
    assert_eq!(e.status_tag.as_deref(), Some("○"));
    assert_eq!(e.feed, "\r\n\r\n── bye ──\r\n".as_bytes().to_vec());
    let e = network_event_effect(NetworkEvent::Error("x".into()));
    assert_eq!(e.feed, "\r\n\x1b[31mERRO: x\x1b[0m\r\n".as_bytes().to_vec());
}

#[test]
fn copying_a_blank_selection_leaves_the_clipboard_alone() {
    let grid = grid_with("abc");
    let mut input = InputState::default();
    input.sel_anchor = Some((2, 3));
    input.sel_cursor = Some((2, 9));
    assert!(input.has_selection());
    assert!(matches!(on_right_button_down(&grid, &mut input), ClipboardAction::Ignore));
    assert!(!input.has_selection());

    input.sel_anchor = Some((3, 0));
    input.sel_cursor = Some((3, 5));
    assert!(matches!(on_copy_shortcut(&grid, &mut input, false), ClipboardAction::Ignore));
    assert!(!input.has_selection());

    input.sel_anchor = Some((0, 0));
    input.sel_cursor = Some((0, 2));
    match on_copy_shortcut(&grid, &mut input, true) {
        ClipboardAction::Copy(t) => assert_eq!(t, "abc"),
        _ => panic!("a non-blank selection is copied"),
    }
}
