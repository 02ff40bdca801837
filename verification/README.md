# mesnet_lite

The rules of a school's workplace-training coordination desk: teachers and
their extra-lesson loads, the teaching-load pool of a term, students and the
companies they train at, weekly availability, the assignment board, users
with PINs, and the dates of a term.

- `src/` is the library, written in Verus, with `requires`/`ensures`
  contracts that Verus proves. The calls into argon2, chrono, serde_json and
  a few std string functions stand behind small trusted wrappers, which
  Verus does not prove: their contracts say only what those sources show.
- `tests/` runs the library on concrete values.
- `app/` is the thin edge around it: the SQLite store (sqlx), the file
  system, and the checks on floating-point input. It hands the library plain
  values and acts on what comes back.
