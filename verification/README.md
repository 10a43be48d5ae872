# sisterm

A simple terminal with syntax highlighting for serial, telnet, SSH and plain TCP
connections, and for replaying logs. The decisions it makes are written in Verus and
proved against their contracts; the program around them does the I/O.

## Layout

- `src/` — the verified library
  - `color.rs` — color syntax of the configuration file, highlighting of received text
    and of files
  - `setting.rs` — the configuration (`Params`) built from a parsed configuration file;
    regular expressions are compiled and matched by the `regex` crate behind two
    trusted wrappers
  - `negotiation.rs` — telnet negotiation: commands taken out of received data and the
    replies they call for, the opening negotiation, window-size reports
  - `getch.rs` — keys decoded from the bytes a terminal sends
  - `repl.rs` — what a typed key sends or does (the `~` escape sequences), how received
    text is logged, how it is displayed
  - `hexdump.rs`, `queue.rs`, `flag.rs`, `session.rs`, `default.rs`
  - `number.rs`, `utf8.rs`, `text.rs` — number parsing, UTF-8 and string helpers
- `tests/` — tests of the library
- `app/` — the program: command line, configuration file, terminal, connections and the
  receive and transmit loops

The laws that the library proves stand beside the functions they are about, as public
proof functions (for example `files_are_shown_once`, `sent_keys_read_back`, `log_lines_rejoin`,
`hexdump_shows_every_byte`, `toggling_twice_restores`).
