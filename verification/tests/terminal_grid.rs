use rustty::vt::{TerminalState, VtAction};
use rustty::grid::TerminalGrid;
use rustty::grid_model::MouseMode;

fn get_line_text(grid: &TerminalGrid, row: usize) -> String {
    grid.cells
        .get(row)
        .map(|r| r.iter().map(|c| c.ch).collect::<String>().trim_end().to_string())
        .unwrap_or_default()
}

#[test]
fn test_resize_preserves_lines_and_scrollback() {
    let mut state = TerminalState::new(4, 20, 100);
    state.process_bytes(b"line 1\r\nline 2\r\nline 3\r\nline 4");

    assert_eq!(get_line_text(&state.grid, 0), "line 1");
    assert_eq!(get_line_text(&state.grid, 3), "line 4");

    state.resize(2, 20);
    assert_eq!(state.grid.rows, 2);
    assert_eq!(state.grid.scrollback.len(), 2);
    assert_eq!(get_line_text(&state.grid, 0), "line 3");
    assert_eq!(get_line_text(&state.grid, 1), "line 4");

    state.resize(4, 20);
    assert_eq!(state.grid.rows, 4);
    assert_eq!(state.grid.scrollback.len(), 0);
    assert_eq!(get_line_text(&state.grid, 0), "line 1");
    assert_eq!(get_line_text(&state.grid, 1), "line 2");
    assert_eq!(get_line_text(&state.grid, 2), "line 3");
    assert_eq!(get_line_text(&state.grid, 3), "line 4");
}

#[test]
fn test_resize_prompt_not_pushed_down_by_empty_rows() {
    let mut state = TerminalState::new(25, 80, 100);
    state.process_bytes(b"Last login: Sat Sep 19 11:53:08 2026 from 192.168.18.2\r\nroot@srv01:~# ");

    assert_eq!(get_line_text(&state.grid, 0), "Last login: Sat Sep 19 11:53:08 2026 from 192.168.18.2");
    assert_eq!(get_line_text(&state.grid, 1), "root@srv01:~#");
    assert_eq!(state.grid.cursor_row, 1);
    assert_eq!(state.grid.scrollback.len(), 0);

    state.resize(10, 60);
    assert_eq!(state.grid.scrollback.len(), 0, "Linhas ativas cabem na nova altura: scrollback deve permanecer vazio");
    assert_eq!(get_line_text(&state.grid, 0), "Last login: Sat Sep 19 11:53:08 2026 from 192.168.18.2");
    assert_eq!(get_line_text(&state.grid, 1), "root@srv01:~#");
    assert_eq!(state.grid.cursor_row, 1);

    state.resize(30, 100);
    assert_eq!(state.grid.scrollback.len(), 0, "Scrollback deve continuar vazio");
    assert_eq!(get_line_text(&state.grid, 0), "Last login: Sat Sep 19 11:53:08 2026 from 192.168.18.2");
    assert_eq!(get_line_text(&state.grid, 1), "root@srv01:~#");
    assert_eq!(state.grid.cursor_row, 1, "Cursor e prompt NÃO podem ser deslocados para baixo!");

    for r in 2..30 {
        assert_eq!(get_line_text(&state.grid, r), "", "Linha {} deve estar em branco", r);
    }

    for _ in 0..10 {
        state.resize(8, 50);
        state.resize(25, 80);
    }
    assert_eq!(state.grid.scrollback.len(), 0);
    assert_eq!(get_line_text(&state.grid, 0), "Last login: Sat Sep 19 11:53:08 2026 from 192.168.18.2");
    assert_eq!(get_line_text(&state.grid, 1), "root@srv01:~#");
    assert_eq!(state.grid.cursor_row, 1);
}

#[test]
fn test_resize_extreme_shrink_and_restore() {
    let mut state = TerminalState::new(25, 80, 100);
    state.process_bytes(b"Last login: Sat Sep 19 11:53:08 2026 from 192.168.18.2\r\nroot@srv01:~# ");

    state.resize(1, 80);
    assert_eq!(state.grid.rows, 1);
    assert_eq!(state.grid.scrollback.len(), 1, "Apenas a linha 0 excedente deve ir pro scrollback");
    assert_eq!(get_line_text(&state.grid, 0), "root@srv01:~#");
    assert_eq!(state.grid.cursor_row, 0);

    state.resize(25, 80);
    assert_eq!(state.grid.rows, 25);
    assert_eq!(state.grid.scrollback.len(), 0, "Linha do scrollback deve retornar para linha 0");
    assert_eq!(get_line_text(&state.grid, 0), "Last login: Sat Sep 19 11:53:08 2026 from 192.168.18.2");
    assert_eq!(get_line_text(&state.grid, 1), "root@srv01:~#");
    assert_eq!(state.grid.cursor_row, 1);
    for r in 2..25 {
        assert_eq!(get_line_text(&state.grid, r), "", "Linha {} deve ser vazia", r);
    }
}

#[test]
fn test_alt_screen_buffer_switching() {
    let mut state = TerminalState::new(5, 20, 100);
    state.process_bytes(b"shell command 1\r\nshell command 2\r\n");

    assert_eq!(get_line_text(&state.grid, 0), "shell command 1");
    assert_eq!(get_line_text(&state.grid, 1), "shell command 2");
    assert!(!state.grid.is_alt_screen);

    state.process_bytes(b"\x1b[?1049h");
    assert!(state.grid.is_alt_screen);

    state.process_bytes(b"VIM EDITOR BUFFER\r\n~ line 2\r\n");
    assert_eq!(get_line_text(&state.grid, 0), "VIM EDITOR BUFFER");
    assert_eq!(get_line_text(&state.grid, 1), "~ line 2");

    state.process_bytes(b"\x1b[?1049l");
    assert!(!state.grid.is_alt_screen);

    assert_eq!(get_line_text(&state.grid, 0), "shell command 1");
    assert_eq!(get_line_text(&state.grid, 1), "shell command 2");
}

#[test]
fn test_mouse_modes_and_bracketed_paste() {
    let mut state = TerminalState::new(5, 20, 100);
    assert_eq!(state.grid.mouse_mode, MouseMode::Off);
    assert!(!state.grid.sgr_mouse);
    assert!(!state.grid.bracketed_paste);

    state.process_bytes(b"\x1b[?1000h\x1b[?1006h\x1b[?2004h");
    assert_eq!(state.grid.mouse_mode, MouseMode::Normal);
    assert!(state.grid.sgr_mouse);
    assert!(state.grid.bracketed_paste);

    state.process_bytes(b"\x1b[?1002h");
    assert_eq!(state.grid.mouse_mode, MouseMode::ButtonEvent);

    state.process_bytes(b"\x1b[?1003h");
    assert_eq!(state.grid.mouse_mode, MouseMode::AnyEvent);

    state.process_bytes(b"\x1b[?1003l\x1b[?1006l\x1b[?2004l");
    assert_eq!(state.grid.mouse_mode, MouseMode::Off);
    assert!(!state.grid.sgr_mouse);
    assert!(!state.grid.bracketed_paste);
}

#[test]
fn resize_to_zero_and_back() {
    let mut grid = TerminalGrid::new(4, 10, 100);
    grid.print('a');
    grid.resize(0, 0);
    assert_eq!(grid.num_rows(), 0);
    assert_eq!(grid.num_cols(), 0);
    assert_eq!(grid.cells.len(), 0);
    assert_eq!(grid.alt_cells.len(), 0);
    assert!(grid.scrollback.len() <= 100);
}

#[test]
fn parser_actions_keep_the_grid_size() {
    let mut grid = TerminalGrid::new(3, 5, 10);
    let acts = vec![
        VtAction::Print('x'),
        VtAction::Execute(b'\n'),
        VtAction::Csi { params: vec![1049], private: true, action: 'h' },
        VtAction::Print('y'),
        VtAction::Csi { params: vec![10, 10], private: false, action: 'H' },
        VtAction::Esc(b'M'),
        VtAction::Csi { params: vec![1049], private: true, action: 'l' },
    ];
    grid.apply_actions(&acts);
    assert_eq!((grid.num_rows(), grid.num_cols()), (3, 5));
    assert!(!grid.alt_screen_active());
    assert_eq!(grid.cells[0][0].ch, 'x');
    assert_eq!(grid.cursor_state().0, 1);
}

#[test]
fn drawing_on_the_alternate_screen_then_leaving_restores_the_primary() {
    let mut state = TerminalState::new(4, 20, 100);
    state.process_bytes(b"\x1b[1mprompt$ ");
    let before_cells: Vec<String> = (0..4).map(|r| get_line_text(&state.grid, r)).collect();
    let before_cursor = state.grid.cursor_state();
    state.process_bytes(b"\x1b[?1049h\x1b[0m\x1b[2J\x1b[3;5Hhello\r\nworld\x1b[31m");
    state.process_bytes(b"\x1b[?1049l");
    let after_cells: Vec<String> = (0..4).map(|r| get_line_text(&state.grid, r)).collect();
    assert_eq!(after_cells, before_cells);
    assert_eq!(state.grid.cursor_state(), before_cursor);
    // The primary screen's attributes (bold) are back: the next character is bold.
    state.process_bytes(b"z");
    let (row, col, _) = state.grid.cursor_state();
    assert!(state.grid.cells[row][col - 1].bold);
}

#[test]
fn clear_and_mode_changes_on_the_alternate_screen_keep_the_primary() {
    let mut state = TerminalState::new(3, 10, 100);
    state.process_bytes(b"a\r\nb\r\nc\r\nd");
    let before: Vec<String> = (0..3).map(|r| get_line_text(&state.grid, r)).collect();
    let cursor = state.grid.cursor_state();
    state.process_bytes(b"\x1b[?1049h\x1b[?1000h\x1b[?25l\x1b[?1049hxyz");
    state.grid.reset();
    state.grid.enter_alt_screen();
    state.process_bytes(b"\x1b[?1000l\x1b[?25h");
    state.process_bytes(b"\x1b[?1049l");
    let after: Vec<String> = (0..3).map(|r| get_line_text(&state.grid, r)).collect();
    assert_eq!(after, before);
    assert_eq!(state.grid.cursor_state(), cursor);
    assert_eq!(state.grid.scrollback_len(), 0, "the reset cleared the scrollback");
}
