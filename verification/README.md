# adept

A linter for Agent Skills (a `SKILL.md` file plus companion files), written
in Verus: the rules, the Markdown queries, the printer and the command
decisions are verified against their contracts.

## Layout

- `src/` — the verified library.
  - `skill.rs`, `diagnostic.rs` — parsing a SKILL.md (frontmatter via
    `serde_yaml`) and the data model.
  - `rules/` — the `SL0xx`–`SL4xx` rules, the registry, the `Linter`, the
    reporting order, and `laws.rs` (what linting promises as a whole).
  - `markdown.rs`, `lines.rs`, `text.rs`, `chars.rs`, `path.rs`, `order.rs`,
    `sorting.rs` — the text, path and ordering building blocks the rules
    stand on; `md_events.rs` mirrors the event stream of `pulldown-cmark`
    as plain values, and `markdown.rs` decides which events matter.
  - `token.rs` — token counting through `tiktoken-rs`.
  - `printer/` — printing a Markdown document tree as normalized text
    (`markers.rs`: the words reflow must not put at the start of a line).
  - `reporting.rs`, `cli.rs`, `config.rs`, `mcp.rs`, `evals.rs`, `score.rs`,
    `gate.rs`, `create.rs`, `writer.rs` — reports, command decisions,
    configuration discovery, the MCP request decisions (from the raw request
    line on), eval datasets, score reports, the repair gate, creation
    options and staged writes.
- `app/` — the `adept` binary: argument parsing (`clap`), `adept.toml`
  (`toml`), file system access, JSON (`serde_json`) and the stdio MCP loop.
- `tests/` — tests of the library.

## What this build leaves out

The Markdown document builder that `adept fmt` parses with, and the
model-backed scoring, fixing and generation clients, are not part of this
project. So `adept fmt` and the MCP `format_skill` tool report every file as
unformattable, and `score_skill`, `create_skill` and `generate_evals` report
that they are not available. The printer and the decisions around those
features are still here and verified; only the parts they depend on are
missing.
