# osh

A minimalist Unix-like shell with a verified core.

- `src/` is the library, checked by Verus: the quote-aware parser
  (`parser`), the built-in commands' rules (`commands`, with `ls` listings in
  `commands/ls.rs`), the line editor and tab completion (`shell`), error
  messages (`error`), and helpers for paths, text, character classes and
  ordering.
- `app/` is the program around it: raw terminal mode, reading keys, and the
  file-system work each command does, in the order the library decides.
- `tests/` exercises the library on concrete inputs.
