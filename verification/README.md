# razel_toolchain

Toolchain resolution for a demand-driven build engine, verified with Verus.

A build target asks for a set of toolchain types under a configuration. Resolution answers with one
context for the whole set: the execution platform that was chosen, the target platform that the
configuration stands for, and the provider of the toolchain that was chosen for each type. It is
driven by what is registered, and it fails closed: where nothing matches, the answer is a typed
error.

* `src/` is the library. Contracts are stated over mathematical values (`Seq`, `Map` and the
  `..Model` types); `src/laws.rs` holds what is true across modules: keys round-trip and are
  prefix-free, equal requests are one key, the choice of an execution platform is unique, a resolved
  context has every mandatory type, and digests are taken over every field.
* `tests/` runs the library on concrete values.
* `app/` plugs the library into the engine: its traits, the shared store, provider encoding and
  hashing.

One function is trusted: `string_from_utf8` in `src/codec.rs`, which calls `String::from_utf8`.
