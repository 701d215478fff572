# cargo-compatible

Audit a Cargo workspace's resolved dependency graph against a Rust version,
find what blocks it, and fix it safely: lockfile changes first, manifest
edits only where they are needed.

The analysis is a library verified with Verus; the command-line program
around it runs `cargo`, reads and writes files, and talks to registries.

## Layout

- `src/` — the verified library.
  - `version.rs` — semantic versions (parsing, ordering and requirement
    matching through the `semver` crate) and Rust-version texts.
  - `graph.rs` — package and graph lookups, and the breadth-first walks from
    a workspace member, each a shortest walk to the package it reaches.
  - `metadata.rs` — workspace data from Cargo metadata, member selection
    (exact name, id or manifest path) and the target Rust version.
  - `compat.rs` — the scan: every reached package classified against its
    member's target, issues with their dependency paths, per-member counts.
  - `identity.rs` — package labels and identities that survive copies of a
    workspace.
  - `resolution.rs` — version changes between two resolutions, improved and
    remaining blockers, lockfile application messages.
  - `explain.rs` — resolving a query in the selected graph and classifying
    why a package blocks.
  - `index.rs` — registry releases and the choice of the release to suggest.
  - `manifest_edit.rs` — dependency constraints and manifest suggestions.
  - `toml.rs` — reading the resolver and the local-registry configuration
    out of TOML, and writing suggested requirements into manifests, with
    `toml_edit` doing the parsing and the format-preserving writes.
  - `report.rs` — human and Markdown rendering.
  - `sort.rs`, `text.rs`, `paths.rs` — stable sorting, text helpers and
    path questions answered by `std::path`.
- `tests/` — tests of the library on concrete workspaces.
- `app/` — the `cargo compatible` program: argument parsing, `cargo
  metadata`, the temporary workspace copy, registry reads, file reads and
  writes, and JSON output.
