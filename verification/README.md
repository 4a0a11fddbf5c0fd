# nibdex

The logic of nibdex, a local index over a workspace's source code, commits, design
documents, memory and session history that answers the tools of an agent. The library under
`src/` is written in Verus: every function states what it does, and Verus proves it.

- `mcp` — the query language, the answers of the tools and their budgets, the health report,
  and what is recorded of a call.
- `session_index` — reading transcripts into edges, deciding which of them belong to a
  workspace and to a domain, and binding them to commits.
- `metrics`, `metrics_sink`, `metrics_export`, `rescore`, `cost_ledger` — measuring calls,
  scrubbing the measurements for others to read, and scoring archived ones anew.
- `schema_index` — rendering and naming the objects of databases.
- `text`, `json`, `time`, `paths`, `keys`, `ranking` — what the others are made of.

What holds of the library as a whole is stated by the public proof functions whose names
begin with `law_`. The calls into `serde_json`, `chrono` and the standard library that are
believed and not proved stand in `json`, `time`, `text` and `mcp::neighbourhood`, each with
what it claims.

`app/` is the ordinary Rust around the library: the database, the file system, the clock and
the protocol. `tests/` runs the library.
