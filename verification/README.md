# laterite_ags4

AGS4 ground-investigation files as typed, join-ready SQL tables, for DuckDB. The
library is written in Verus: what each function returns is stated in its contract, and
proved.

- `src/` is the library. It takes and returns plain values: texts, bytes, tables.
- `app/` is the loadable extension around it: DuckDB's C API, its filesystem, the
  process-wide cache, the environment and the clock.
- `tests/` runs the library on concrete values, with the AGS4 engine crates linked.

A table is a list of named, typed columns and rows of cells. A number in a `DOUBLE`
column is held as its IEEE 754 bits; `app/` turns them into a number.

The AGS4 codec, the dictionaries, the keychain and the rule engine are the
`laterite-ags4-*` crates. Where the library calls them, a small trusted function states
what is relied on, and its comment says what is left unsaid.
