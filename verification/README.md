# devlog

A developer journal: entries written per day, browsed as a tree of years,
months and days, edited in the terminal and synced with a remote copy.

- `src/` is the library, verified with Verus. Each module states what its
  functions do in `requires`/`ensures` contracts and proves the laws that tie
  them together (undoing an edit, rebuilding an entry from its events, splitting
  a written entry file back into its front matter and its text, the order of the entry tree, the width of
  rendered lines, and more). The entry tree keeps its years, months and days
  in `BTreeMap`s; `src/sorted.rs` holds what walking them in key order gives.
- `tests/` runs the library on concrete values.
- `app/` is the program around it: the command line, files, the terminal
  interface, sync transfers and the question prompt.
