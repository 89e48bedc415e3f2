# clux

The core of a tmux-like terminal multiplexer, written in Verus: every
function of the library carries a contract that Verus proves.

## Layout

- `src/` — the verified library.
  - `cell`, `grid`, `reflow`, `selection`, `hyperlink`: terminal cells, the
    grid with scrolling and re-wrapping to a new width, selections, and
    interned hyperlink targets.
  - `pane`, `border`, `paint`: the split-layout tree and the pane manager
    (focus, history, navigation, closing), the frame drawn around the panes,
    and how pane rows are painted.
  - `protocol`: the client-server messages and their length-prefixed
    framing, with a reader that reassembles frames from partial reads and a
    writer that tracks partial writes.
  - `client`: the compositing screen buffer, ANSI/OSC 8 row rendering, the
    replies the client expects, its errors, and the decisions of the SSH
    bootstrap of a remote server.
  - `event`, `input`, `dispatch`, `config`, `clipboard`, `text`: key and
    mouse translation with command mode, what the main loop makes of an
    action, key specifications and binding tables, OSC 52 copying, and the
    string helpers the proofs build on.
- `tests/` — tests run against the compiled library.
- `app/` — the program around the library: command-line handling, the
  configuration file, the socket and SSH plumbing, and the terminal loop.

The laws the library keeps (a read gives back a write, a split is undone by
closing the new pane, an update never leaves its pane, and others) are
stated as `law_*` proof functions next to the code they are about.
