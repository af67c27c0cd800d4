# workspace_config

Typed configuration generator for Ghostty workspace isolation, with proved contracts.

- `src/` — the verified library: input types and validation (`config`, `validate`,
  `error`), Ghostty config text (`ghostty`), `Info.plist` generation (`plist`),
  wrapper entries and scripts (`wrapper`), the places of generated artifacts (`generate`), and
  wrapper resolution with `$VAR` expansion and the order of wrapper config files (`runtime`).
- `app/` — the `workspace-config` program: argument parsing, JSON/YAML reading and
  writing, file system and environment access, and `exec` of resolved wrappers.
- `tests/` — tests of the library.
