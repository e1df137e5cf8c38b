# apollo_federation

A Verus library with two readers of federation schemas.

- `src/subgraph_metadata.rs` collects which fields of a subgraph schema are external.
  `src/external.rs` states what is collected, and `src/external_laws.rs` what follows from it.
- `src/connect/` reads the arguments of the connector directives `@source` and `@connect`, of one
  application or of all applications in a schema. `agreement.rs`, `order.rs` and `extract_laws.rs`
  prove that reading twice gives the same, that the order of arguments makes no difference, and
  what holds of all applications in a schema.

The library has its own types for the parts of a schema that it reads (`src/ast.rs`,
`src/federation.rs`, `src/operation.rs`, `src/position.rs`). Field sets, selections and headers are
read by functions that the caller passes in.

`src/collections.rs`, `src/connect/headers.rs` and `src/connect/url.rs` hold what is assumed about
`indexmap` and `url`. `app/` converts schemas of `apollo_compiler`.
