# apache_beam

The core of an Apache Beam SDK for Rust, verified with Verus: the element coders
and the construction of the pipeline graph that a runner executes.

Layout:

- `src/coders/` — coders for bytes, UTF-8 strings, varints, unit, strings tagged as
  general objects, key-value and iterable coder trees, the registry of coder types,
  and the coders built from a URN alone. Each coder's byte format is a spec function;
  encoding and decoding are proved against it, and decoding an encoding gives the
  element back.
- `src/internals/` — the pipeline under construction (transforms, PCollections,
  coders by id, unique names), the values flowing through it, and the registries
  of DoFns and key extractors.
- `src/transforms/` — Impulse, ParDo, GroupByKey, and the unordered-equality check
  used in tests.
- `src/varint.rs`, `src/byte_buf.rs` — the outside crates `integer-encoding` and
  `bytes`, behind small trusted wrappers whose contracts state the varint format and
  the contents of a buffer.
- `app/` — the I/O edge: coders over `std::io` streams, and process-wide registries.
