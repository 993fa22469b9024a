# localtools

A verified library of the logic behind a handful of local developer and
device tools, written in Verus. Every function in `src/` carries a contract
that Verus proves; calls into outside crates (`serde_yaml`, `serde_json`, `chrono`) and
into `std` functions that Verus has no specification for go through small
trusted wrappers whose contracts are documented where they stand.

Layout:

- `src/text.rs` — character-level helpers (trimming, splitting, parsing
  numbers, ordering texts) stated over `Seq<char>`.
- `src/ci/` — a local CI daemon: identifiers and their validation, the
  configuration file, git commands and their outcomes, workflow files and
  their nix steps (matrix expansion included), job and step decisions, run
  state, status answers and the Markdown summaries.
- `src/dap/` — a patch format: parsing commands and unified diffs, matching
  hunks against file contents, and the checks made before a patch is applied.
- `src/hibat/` — battery history: readings from sysfs, the stored statuses,
  time ranges of the charts (read against the clock), the purge cutoff, the
  battery list, the status segments of the capacity line and the colour theme.
- `src/r01/` — the readings and settings of a router's status screen.
- `src/raider/` — the agent front end: streamed parts, tool-call titles and
  fields, permission prompts, the model catalog and compact token counts.
- `app/` — the program around the CI library: argument handling (`clap`), the
  socket protocol, processes, files; plus the battery database (`rusqlite`) and
  the sysfs and `uci` readings of the other tools.
- `tests/` — tests of the library on concrete values.

Not here: the agent front end's event translation and its UI event loop, its
session and sidebar action builders, and its async backends. The translation
calls pieces this project does not have: the part mirror's tool-input
character counts (`note_tool_input_chars`, `diff_tool_input_chars`), the
terminal UI's token estimate (`approx_tokens_from_chars`), its session-status
mapping and `is_working`, and the question prompt's `is_multiple` and
`allows_custom`; the sidebar actions compute in floating point. The pieces
that work on data modelled here (messages and their tool calls, permission
prompts, the part mirror, the model catalog, token counts) are in
`src/raider/`. The battery viewer's and the router screen's windows are not
here either: they are drawing code.
