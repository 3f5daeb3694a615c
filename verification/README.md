# hoonoki

Hoonoki is a semantics-first IDL for distributed systems: events,
components with explicit state, transitions, ports, connections with a
locality, and contracts. This crate reads Hoonoki specifications, resolves
them into a normalized model, validates and lints that model, renders
analysis views, and renders a Rust scaffold for it. The library is written
in Verus. Two items in `src/` are trusted rather than proved: `debug_str`
in `src/rust.rs`, which quotes a string as std's `Debug` formatting does,
and the contract that `src/text.rs` gives std's `String::push`. Every other
function in `src/` carries a contract that Verus proves.

Layout:

- `src/text.rs`, `src/name_map.rs`, `src/value.rs`: text operations, a
  name-keyed map with sorted keys, and the YAML value model.
- `src/ast.rs`, `src/schema.rs`, `src/diagnostics.rs`: the syntax tree and
  diagnostics.
- `src/parse.rs`: classification of YAML reader errors, package names.
- `src/loader.rs`, `src/bundle.rs`: loading an entry file and its imports,
  as a state machine that asks for files to be read and imports to be
  resolved.
- `src/resolve.rs`, `src/normalize.rs`, `src/ir.rs`: name resolution and
  the normalized model.
- `src/validate.rs`, `src/lint.rs`, `src/contracts.rs`: static validation
  (including reply paths for `must_reply`) and advisory warnings.
- `src/graph.rs`, `src/inspect.rs`, `src/report.rs`: Mermaid graph, text
  summary, and what the command line prints.
- `src/rust.rs` and `src/rust/`: the Rust scaffold.
- `src/agree.rs`: models that agree in everything validation reads, and
  why validation gives them the same diagnostics.
- `src/laws.rs`: properties of the library as a whole.
- `app/`: the `hnk` command line, YAML reading with serde, and the file
  system.
