# pmux

A terminal multiplexer in the manner of GNU screen: a daemon keeps sessions (a
program on a pseudo-terminal and the screen it draws), and the command line creates,
lists, views, feeds and stops them.

The library (`src/`) is verified with Verus; each public function states what it
does in its contract.

- `screen` — the cell grid, cursor, modes, alternate screen and the command
  transcript, driven by the actions of a VT parser; `screen::model` states the effect
  of every action, `screen::render` the text and SGR rendering, `screen::laws` the
  properties that hold across operations.
- `ipc` — the binary wire format between client and daemon, with encoding, decoding
  and the round-trip properties.
- `escape` — C-style escapes for the `stuff` command.
- `session` — the session table, session naming and how commands become programs.
- `pty` — pseudo-terminal configuration, errors, and Windows argument quoting.
- `platform` — session file paths and PID files.
- `commands`, `daemon`, `cli`, `log` — the decisions of the command line and the
  daemon, and log line formatting.

The program (`app/`) does the input and output: parsing arguments, the tokio daemon
loop, sockets and named pipes, pseudo-terminals, the VT parser, files and the
terminal.
