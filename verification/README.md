# cvvc

The core of `cv`, a Git-compatible version-control tool, as a library whose
behaviour is stated in contracts and proved.

- `src/shared/stores/` reads packs: the layout of version-2 pack indexes
  (`pack_format.rs`), object lookup by full or partial hex id, object
  headers and object data (`pack_store.rs`), and the proofs behind the
  lookup (`pack_proofs.rs`). Hex text goes through the `hex` crate and
  object data through `flate2`.
- `src/checkout.rs` is the checkout state machine: which tree a target
  name leads to, whether the destination may receive it, how HEAD moves.
- `src/shared/helpers.rs` decodes big-endian fields and encodes timestamps.
- `src/helpers`, `src/index`, `src/objects` hold the error values and
  their messages.
- `app/` reads the files, walks directories and drives a checkout against
  a repository; it hands bytes and answers to the library.
