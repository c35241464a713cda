# voidmerge

The core of the VoidMerge server and its `vm` command line, written in Verus:
every function under `src/` carries a contract that Verus proves.

- `src/` is the library: errors, hashes and their base64url text, the sign
  types and the P-256 signing module, the multi-algorithm signer and
  verifier, the in-memory object index and its expiry rules, the server's
  context records and admin tokens, the value type and its human-readable
  form, the context logic's decisions (validation answers, system calls,
  sync), object selection, the JS engine's monitor table and limits, and the
  command-line parsing. Outside crates (base64, sha2, rand, p256, minimist)
  are called through the small trusted wrappers in `src/ext.rs`.
- `tests/` runs the library on concrete values.
- `app/` holds what the library cannot: the process clock, the global
  tables behind locks, file reads for templates, the object store's file
  writes, the msgpack and JSON encodings (serde), the ed25519 module, and
  reading the command line and environment into the library's parser.
