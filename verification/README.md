# polo

A bi-temporal, causal fact ledger. Facts carry a valid-time interval and a
transaction time (a hybrid logical clock); they live in namespaces and
branches, can be retracted, diffed and merged, and can be queried with a
small SQL-like language (PQL).

## Layout

- `src/` — the library, verified with Verus:
  - `clock.rs` hybrid logical clock; `fact.rs`, `tx.rs`, `branch.rs`,
    `namespace.rs`, `schema.rs` the data model; `error.rs` errors;
  - `store.rs` the in-memory store (writes, retractions, scans, branches,
    namespaces, tags, garbage collection, statistics, merge and diff);
  - `merge.rs` merge planning and diffs; `gc.rs` garbage collection and
    retention; `bulk.rs` bulk writes; `db.rs` the checks, defaults and
    queries behind the ledger's operations;
  - `pql/` the query language: lexer, parser, evaluator;
  - `api.rs`, `requests.rs` the decisions of the HTTP front end;
    `input.rs` reading a value written as text;
  - `sort.rs`, `keyed.rs`, `text.rs` helpers; `laws.rs` properties that
    span operations.
- `tests/` — tests of the library.
- `app/` — the `polod` server: HTTP routes (axum), the SQLite store
  (rusqlite), the event stream, and JSON forms of the library's types.
