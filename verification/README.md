# engine

A streaming JSON parser and offset index for very large files, with an
SQL-shaped query language on top. The library is written in Verus: what each
function does is stated in its contract and proved.

- `src/parser.rs`, `src/layout.rs`, `src/document.rs`: the index and its
  pre-order layout.
- `src/children.rs`, `src/container_scan.rs`, `src/path.rs`, `src/node.rs`:
  nodes, their children and their paths. `src/interleaving.rs` proves that
  scanning a container meets the children that the parser saw.
- `src/sidecar.rs`, `src/opening.rs`: the cached index, and opening a file.
- `src/query/`: the lexer, the surface language (parser, formatter, completion,
  lowering), the canonical form, the foreign-key indexes and the evaluator.
- `src/render.rs`, `src/session.rs`, `src/table.rs`, `src/projection.rs`,
  `src/browse.rs`, `src/cli.rs`: what callers see of a result.
- `app/`: the `jsq` program and the commands of the desktop window.

Numbers are doubles. The library holds them by their bits and takes the
arithmetic from its caller (`query::number::FloatFns`).
