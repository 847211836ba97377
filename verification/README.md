# random_ramble

Random word pairs ("Brave Portugal") built from word lists, and random text
built from `tera` templates, with the logic verified by Verus.

Layout:

- `src/` — the verified library.
  - `text`, `dict`, `chance`, `json`, `engine`, `error`: strings, list
    selection, random choices, JSON values and the template engine, each outside
    call behind a small trusted wrapper.
  - `classic`: pools of all chosen lists' lines, paired without repetition.
  - `random_ramble`: per-list draws with a case-insensitive prefix, and
    template rounds.
  - `refactor`: the template-driven generator, its `rr` filter and its map of
    rambles.
  - `cmds`, `cli`: the text edits behind `add` and `delete`, and the options.
- `app/` — the command line: argument parsing, reading and writing word-list
  files, logging.
- `tests/` — tests run against the compiled library.
