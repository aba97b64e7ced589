# wrpc_blobstore

Verified pieces of the wRPC blobstore interface and of the `generate!`
bindings macro, written in Verus.

- `src/wire.rs`: the wRPC encoding of integers (LEB128), strings, optional
  integers, flags and string lists, as stated of `wrpc-transport`'s codecs,
  with the facts that reading gives back what was written.
- `src/records.rs`: `ContainerMetadata`, `ObjectMetadata` and `ObjectId`, their
  encoding and incremental decoding (a truncated buffer reads as incomplete).
- `src/blobstore.rs`: the interface's function names, the encoding and
  decoding of every function's parameters and results.
- `src/bindgen.rs`, `src/input.rs`, `src/expand.rs`: how the macro's options
  combine into a configuration, its keywords and `with` paths, which WIT
  sources it loads, and the text it adds around the generated code.
- `app/`: the transport client and server, the record codec for the
  transport, and the macro's token parsing and file access.
