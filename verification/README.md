# nosqlite

A MongoDB-style document database over SQLite: JSON documents in one table
per collection, Mongo filters and update operators, aggregation pipelines,
indexes, full-text search and JSON Schema validation.

## Layout

- `src/` — the library, verified with Verus. Each module states what its
  functions compute over a mathematical model of JSON (`JsonV`):
  - `json`, `path`, `value` — documents, dotted paths, comparison;
  - `matcher`, `expr`, `update` — filters, expressions, update operators;
  - `query`, `ops`, `statements` — the SQL of a filter, a find, an update,
    a delete; upserts, `distinct`, bulk-write operations, `$text` and
    `$expr` handling;
  - `aggregate`, `cursor` — pipeline stages, projections, query plans;
  - `validation`, `catalog`, `index`, `fts`, `io`, `shell`, `util` —
    schemas, the metadata table, indexes, full-text indexes, import and
    export text, the shell's command language, identifiers and ids;
  - `bson` — the length prefix that frames each document of a BSON dump
    (`mongodump`), and the JSON form of each BSON value;
  - `sql_params` — two filters that differ only in operand values compile
    to the same SQL text with as many parameters, and the text holds one
    `?` per parameter (for field names without `?`);
  - `typed`, `error` — the id field of a typed document, and the errors.
- `tests/` — tests of the library on concrete values.
- `app/` — the `nosqlite` shell and the `Database` / `Collection` API that
  runs the library's statements on a SQLite connection (`rusqlite`), reads
  and writes files, decodes BSON documents (`bson`) and converts
  `serde_json` and `bson` values.

Numbers are exact: a whole number is a 64-bit integer (`Json::Number`), any
other a fraction of two 64-bit integers (`Json::Real`), which is what a
floating-point number read from JSON text becomes (the decimal it prints as).
Arithmetic, averages, `$inc` and `$mul` compute on fractions and write a
result that is not whole as a `Real`; a result whose lowest terms leave the
64-bit range is an error, and so is a number read in that fits neither form.
A `Real` is handed to SQLite and written out as a floating-point number.
