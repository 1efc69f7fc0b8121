# egglog_duckdb

Closed lowering of egglog rules to DuckDB SQL plans, verified with Verus.

Rules and table configurations are admitted into a small set of plans. A plan
names only tables, columns, literals and authenticated primitive tokens, and it
renders to fixed SQL statements. What is outside of the language is refused with
a reason, and a refusal changes nothing.

## The library (`src/`)

- `ir`: rules, tables and merges as admission reads them.
- `rejection`: why a rule or a table was refused.
- `base`, `catalog`, `authority`, `scalar_expr`: column types, registered tables,
  live tokens, and the SQL forms of primitives.
- `merge_program`: the merge of a table as a typed straight-line program.
- `action_body`, `action_rule`, `action_plan`: the scalar compiler. The body
  becomes a match relation, the head a stream of slots and effects.
- `path_compress`, `rebuild`, `marker_rekey`: the structural rule families, over
  the shared checks of `shape` and the statements of `staging`.
- `egraph`: registration, rule ids, runs, watermarks and the deferred panic.
- `*_laws`: what holds over several of these functions.

## The host (`app/`)

Value registries, callbacks and the engine connection.
