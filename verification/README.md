# qcmd

`q` is a small command-line tool of one-letter commands for reading,
searching and editing files (`find`, `search`, `print`, `replace`, `write`,
`info`, `tree`, `ls`, `mkdir`, `mv`, `cp`, `diff`, `http`, `git`), each with
plain-text or JSON output.

## Layout

- `src/` — the library, verified with Verus. Each command's logic stands
  here with its contract: line splitting and truncation (`text`, `trunc`),
  range arguments and line windows (`print`), plain and regex replacement
  with backups (`replace`), grep-style output and its order (`search`),
  file selection by glob and type (`find`), trees and listings (`listing`),
  the reports of the other commands (`reports`, `git`), a verified stable
  insertion sort (`sorting`, `order`), and the trusted declarations of the
  `regex`, `globset` and `ignore` calls (`engines`). `laws` states the
  properties that hold across functions.
- `app/` — the executable: argument parsing (clap), walking directories,
  file and process I/O, time formatting, and JSON output (serde).
- `tests/` — tests of the library on concrete values.
