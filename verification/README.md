# buf_list

A list of byte chunks (`BufList`) read as one contiguous buffer through a
`Cursor`, verified with Verus, together with the property that a cursor
which `read_exact`s past the end lands at the end of the buffer, as
`std::io::Cursor` does.

- `src/buf_list.rs`: `BufList`, `Cursor`, `ErrorKind`, and the lemmas on
  concatenating chunks.
- `src/chunk.rs`: contracts for the `bytes::Bytes` chunks.
- `src/std_cursor.rs`: contracts for `std::io::Cursor` over a byte slice.
- `src/etna.rs`: `PropertyResult`, the property, its judgement, the witness
  replay and `to_opt`.
- `src/inputs.rs`: expansion of scalar seeds into chunk lists.
- `src/report.rs`: run metrics and the JSON report line.
- `tests/`: witnesses and concrete cases.
- `app/`: the runner that drives the property with proptest, quickcheck,
  crabcheck and hegel.
