# displayctl

List and toggle macOS displays from the command line.

- `src/` is the verified library (Verus): the `list` table and its columns
  (`listing`), display lookup decisions (`discovery`), the enable/disable
  request as a state machine with its laws (`toggle`), command-line parsing
  and usage text (`cli`), and text helpers with C-string handling (`text`).
- `app/main.rs` is the binary: it calls CoreGraphics, CoreFoundation and
  IOKit, and hands their answers to the library.
- `tests/` runs the library on concrete values.
