# Qaw toolchain library

The text-processing core of the Qaw language tools, written in Verus: every
function in `src/` carries a contract that Verus proves.

- `text` — character-sequence model of the `str` operations the tools use
  (`lines`, `trim`, `starts_with`, `join`, …).
- `lexer` — tokens with positions; the four spellings of each keyword.
- `parser` — the parser's token cursor: lookahead, error recording, recovery.
- `syntax` — the grammar as functions of the token stream: for each parse,
  the tree it gives and where it leaves the cursor and the recorded error.
- `grammar` — the recursive-descent parser: declarations, statements,
  expressions by binding power, `${...}` interpolation in string literals;
  each parse function is proved to give exactly what `syntax` states.
- `ast` — the syntax tree and its indented text rendering (`qaw parse`).
- `value`, `interp` — value vocabulary, evaluation errors and their messages,
  checked integer arithmetic.
- `formatter`, `diff` — the formatter (`qaw fmt`) and its unified diff.
- `doc` — documentation comments attached to top-level declarations, as Markdown.
- `manifest` — `Qaw.toml` parsing and writing, the dependency table, `Qaw.lock`.
- `testscan` — `// @test` discovery and the test runner's options.

Laws proved over these contracts include: formatting is idempotent; a
formatted text shows no diff; the diff's edit script is a longest common
subsequence, and its hunks are disjoint and in order; formatting keeps every
non-blank line's text in order; a manifest written and parsed back is
unchanged, and one is rejected exactly at its first malformed line; reading a
dependency gives the version last set; every form of a keyword lexes alike;
every documented declaration carries the text of the `///` run above it.

`app/` is the command-line front end (`qaw fmt | doc | pm | test | lex | parse`): it
reads and writes files and prints what the library returns. `tests/` holds
the executable tests.
