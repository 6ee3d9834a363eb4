# podo

PostgreSQL schema management: the schemas of a database are written as YAML
definition files, the differences between the definitions and the recorded history
are staged into versions, and versions are applied to or reverted from a database.

## Layout

- `src/` — the library, verified with Verus:
  - `definition/base` — the node tree that definition files hold, and how YAML
    mappings become nodes and nodes become YAML mappings;
  - `definition/ddl` — reading each kind of node (schema, table, column, constraint,
    view, sequence, index, function) into the snapshot model and writing it back, with
    the proof that writing and reading back gives the same object;
  - `definition` — reading a set of schema nodes into a snapshot and writing a snapshot;
  - `snapshot` — schemas, relations, tables, the database, and the changes between
    snapshots;
  - `history` — versions, the history kept as files and in the database, and the
    snapshot a history reaches;
  - `project`, `introspection`, `path`, `text` — project profiles, catalog rows, path
    joining and character helpers;
  - `util` — environment variables in the text of the project file.
- `app/` — the command-line program: argument handling, files, YAML text, the
  database connection and the catalog queries.
- `tests/` — tests of the library.
