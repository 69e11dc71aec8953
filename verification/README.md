# terminal

The core of a terminal emulator, written in Verus: the VT escape-sequence
parser and its effect on a screen grid with scrollback and an alternate
screen, selections, SGR colours, sixel / iTerm2 / OSC 52 payloads, URL
detection, key and mouse encoding, keybindings, tab bookkeeping, the
connection menu, SSH config parsing and the SSH session's decisions, frame
timing statistics and session-log filtering.

Layout:

- `src/` — the verified library. Each public function states its result in
  `ensures` over spec models (`Seq`, `Map`, `int`); public `lemma_*` proof
  functions state the properties that span several calls (parsing in
  chunks, scrollback bounds, alternate screen round trips, tab cycling,
  colour round trips, and more).
- `tests/` — executable tests of the library on concrete values.
- `app/` — the program around the library: configuration files, logging,
  crash reports, the SSH transport and the command-line entry point.
