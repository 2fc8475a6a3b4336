# ntop

A terminal monitor for server processes (Node and others): a process tree
with framework detection, listening ports, logs, environment and kill
control, as an interactive view or as `list`, `kill`, `info`, `log` and
`config` subcommands.

## Layout

- `src/` — the library, verified with Verus. Each public verified function
  states what it returns or changes over spec functions and views (where the
  answer comes from the system, as for signals, which request was handed
  to the system and what is done with its answer):
  - `process/` — process values, health, formatting, framework rules and
    detection, the process tree (build, flatten, sort, PID lookup), `lsof` and
    `netstat` output parsing, signal delivery through `nix`;
  - `tui/` — the view's state (`app`), what each key does and which kill request it
    makes for the program to send (`ui`), and the
    text and tones of every panel and dialog (`widgets`);
  - `log/` — the bounded buffer of followed log lines;
  - `commands`, `cli`, `config` — subcommand decisions and text, command and
    configuration values;
  - `text`, `seqs` — character-sequence and sequence helpers with their specs.
- `app/` — the program: terminal, drawing, events, sysinfo scanning,
  running `lsof`, files, the config file and argument parsing.
- `tests/` — tests of the library.
