# monochange

Release planning helpers for monorepos, written in Verus. The library in
`src/` holds the decisions — how changes are classified and what changeset
they call for, how versioned files are planned and edited, which files feed
the publish readiness fingerprint, how progress is presented — each with a
contract that Verus proves. `app/` is a small command line around it that
reads files, runs git and prints.

## Layout

- `src/` — the verified library.
  - Classification: `classify`, `semantic`, `assessment`, `finding_groups`,
    `recommendation`, `propagation`, `classification_build`,
    `classification_report`, `classification_text`, `classification_markdown`,
    `order_findings`, `release_tags`.
  - Versioned files: `versioned`, `versioned_plan`, `version_table`,
    `regex_update`, `seed_updates`, `field_tree` (field paths in JSON, YAML
    and TOML documents), `sync`, `sync_plan`.
  - Publishing: `publish_order`, `rate_limits`, `readiness`,
    `readiness_report`, `trust`, `paths`, `path_order`, `fnv`,
    `cli_snapshot`.
  - Output: `presenter`, `progress`, `terminal`, `diagnostic`, `cli_help`,
    `publish_json`, `binary64` (durations shown as floating-point seconds).
  - Shared: `model`, `error`, `text`, `keyed_sort`.
- `tests/` — tests of the library on concrete values.
- `app/` — the `monochange` command: `fingerprint`, `candidate`,
  `release-tag` and `update-file`.

## Outside crates

The library calls `regex`, `semver` and `shlex`, and std's path and UTF-8
functions, through a few trusted wrappers. Each wrapper's doc comment says
what its contract claims about the call. Where a result takes pages to state
(a regex match, a SemVer parse, shell word splitting), the contract gives it
a name and the library's own contracts are stated over that name. The command
line uses `clap`, `serde_json`, `serde_yaml_ng` and `toml_edit`.

## Checking

The library is verified with Verus; the tests run with the outside crates
linked.
