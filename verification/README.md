# voxalfa_validator

A verified reader for voxalfa, a plain-text notation for tonic sol-fa vocal
scores. A document has a header (metadata `[#]`, parameters `[$]` and
`;; @` directives), a `---` line, and a body of sections split by `--`
(or `<<`, which merges a section with the one before), themselves split into
sub-sections by `++`. A sub-section holds solfa lines (`[S] |d.r :m ||`) and
lyric lines (`[1] ...`).

The library parses a document into symbols and scopes, lays its body out in
columns (durations, pulse factors, underlines, lyric spans), reports
diagnostics with stable codes, and evaluates playback events (jumps, marks,
endings, dynamics). Every function is proved with Verus against its contract.

Layout:

- `src/ast/`: the text model, line classification, the parser and its symbol tree.
- `src/ir/`: the layout of the body and its specification.
- `src/output/`: the analysis result, voice lines, timelines, playback, and the
  grouping of sections into systems.
- `src/data_types/`, `src/diagnostics/`: value types and diagnostics.
- `app/`: a command-line tool that prints the diagnostics of a file.
