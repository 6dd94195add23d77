# dogwood-language (verified core)

Verus-verified pieces of the Dogwood policy language tooling.

- `src/render.rs` writes a parsed, macro-expanded policy back to `.dw` source
  text, fully parenthesized, with Cedar's own text for literals, entity ids
  and `like` patterns.
- `src/schema_info.rs` answers the schema questions the validators ask: an
  action's context record and applies-to types, field-path resolution, the
  "rich" type names.
- `src/provider.rs` validates `provider { … }` invocations against their
  declarations and the schema, and renders each finding with help text.
- `src/leaf_map.rs` precomputes which temporal leaves each request action
  reads.
- `src/cedar.rs` and the trusted items in `src/leaf_map.rs` are the calls
  into `cedar_policy_core` / `cedar_policy`; `src/text.rs` holds the string
  helpers everything else is built from.

`app/lib.rs` reads a schema parsed by `cedar_policy` into the plain
`SchemaInfo` the validators consult. The tests under `tests/` run the library
with the real Cedar crates linked.
