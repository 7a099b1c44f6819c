# rust_db

A small in-memory relational store, written in Verus: the functions in
`src/` carry contracts that the verifier proves. One is trusted instead:
`text::push_char`, which wraps `String::push` and whose contract is taken
from std's documentation.

- `value` — column types and cells. A float cell holds the IEEE-754 bit
  pattern of its number; `float` compares such patterns with each other and
  with integers. Its specs model IEEE-754 order and `i64 as f64` rounding
  (round to nearest, ties to even) on the bit patterns, and the code is
  proved against those specs; that the model agrees with the hardware's
  `f64` is checked by the tests in `tests/value.rs`, not proved.
- `schema` — columns and schemas (at least one column, names unique ignoring
  ASCII case) and the check of a row against a schema.
- `table` — tables of rows with stable ids; deleting leaves a tombstone,
  `compact` removes them.
- `database` — a catalogue of tables found by name ignoring ASCII case.
- `error` — the errors and their messages; `text` — case folding, text
  order and decimal rendering.

`app/` holds what needs real floating-point numbers (building and showing
float cells) and `Display` wrappers. `tests/` runs the library on concrete
values.
