# i6

A collection of small command-line tools, with its logic verified in Verus.

- `src/` is the verified library:
  - `i6_shell::lang` — the pipe-aware shell language: lexer, parser and the
    planner that turns a syntax tree into the actions to carry out.
  - `shell::lang` — the built-in shell's language (no pipes, `<` as an
    operator); its interpreter also says what a line evaluates to.
  - `shell::command` — the built-in commands: `echo` and `grep` run here;
    for `cd`, `ls`, `mv`, `cp` and `rm` the library decides what to do.
  - `shell::dispatch` — which implementation runs a command (the caller's
    own, else a built-in one, else a process) and what is shown of its result.
  - `shell` — host names fit for RFC 1035 and the prompt.
  - `pack` — the packer: paths, the step plan of `pack`/`unpack`, zstd
    compression, and AES-256-GCM encryption under an Argon2 key.
  - `command_parser` — a registry of two-word sub-commands.
  - `text` — character-level helpers (splitting, joining, lines, decimal).
- `app/` is the program around it: command line, file system, processes,
  line editing and the HTTP(S) servers.
- `tests/` exercises the library.
