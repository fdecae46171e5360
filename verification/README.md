# rustty

The core of an SSH terminal client, verified with Verus: the VT screen grid
and its scrollback, text selection and keyboard/mouse/paste encoding, the
highlighting of keywords and IP addresses, the folder tree of saved hosts,
the encrypted host vault and the client settings.

## Layout

- `src/` — the verified library.
  - `grid_model.rs` — the mathematical model of the screen and of every
    terminal operation, with the laws about the alternate screen, selections
    and resizing; `grid.rs` implements it (`TerminalGrid`), `vt.rs` feeds it
    bytes through the VT parser (`TerminalState`) and applies parser actions, `rows.rs` and `cell.rs` hold its
    building blocks.
  - `input.rs`, `window.rs` — selection state, mouse reports, paste
    encoding, and the decisions of the terminal window for each input event;
    `palette.rs` — the command palette (copy all, copy the last lines).
  - `highlight.rs`, `render.rs` — per-row highlight colours and the spans the
    renderer draws.
  - `config/` — saved hosts and the folder tree (`mod.rs`, with its model and
    laws in `tree.rs`), saving the host and bridge forms (`edit.rs`), client settings
    (`client.rs`), protected secrets
    (`protected_mem.rs`), vault encryption (`crypto.rs`) and the master key
    and padding (`vault.rs`).
  - `validation.rs`, `icmp.rs`, `net.rs`, `terminal.rs`, `forms.rs` — form
    checks, ping output reading, SSH session decisions and shared types.
- `tests/` — tests of the library.
- `app/` — the program around it: files, the keychain, JSON,
  address parsing, the ping process and the command loop of the front-end.
