# cocoindex: SurrealDB target and internal storage

What an indexing engine does with SurrealDB and Postgres, as a library of
verified decisions: the tables of a SurrealDB target and the SurrealQL that sets
them up, the statements that write rows, nodes and relationships, the records in
which the engine keeps what is set up and what was processed, and the changes of
its tracking tables.

A function that would talk to a database takes what was read as an argument, and
returns what is to be run: queries with their parameters, in order. The crate
under `app/` runs them.

- `text`, `order`, `ids`, `json`: text, sorted names and ids, JSON values.
- `canonical`, `canonical_law`, `record_id`: the canonical text of JSON values,
  and record ids made of its hash.
- `schema`, `graph`, `setup`, `error`, `settings`: the data that the rest works
  on.
- `surrealdb`, `surrealdb_change`, `surrealdb_build`, `surrealdb_laws`: the setup
  of the target.
- `grouping`, `mutation`, `mutation_plan`, `apply_mutation`, `mutation_laws`:
  writes to the target.
- `query`, `persistence_setup`, `persistence_tracking`, `persistence_laws`,
  `postgres`: internal storage.
- `surrealdb_pool`: connections.
- `db_tracking_setup`, `tracking_change`, `tracking_steps`, `tracking_laws`: the
  tracking tables.

The proofs rest on what the functions marked `external_body`, and the one
`assume_specification`, say of BLAKE2b, hexadecimal text, JSON string literals,
the insertion-ordered map, upper case and `String::push`.
