# vrl

The part of a VRL compiler that keeps track of types, and the queries that it types and that a
running program evaluates, written in Rust and verified with Verus.

* `src/compiler/state.rs` holds what is known while a program is compiled (`TypeState`, with the
  variables in `LocalEnv` and the event and metadata in `ExternalEnv`), and the variables of a
  running program (`RuntimeState`).
* `src/compiler/compile_config.rs` holds what the program around the compiler asks of a
  compilation: custom data, read-only paths, and a cache of compiled regex literals
  (`regex_cache.rs`, `any_map.rs`).
* `src/compiler/expression/` holds queries and what they look into: variables, the event, calls of
  functions, and containers that are written out.
* `src/compiler/laws.rs`, `src/kind/soundness.rs` and `src/kind/remove_soundness.rs` prove what holds
  of these together: that merging loses no possibility, that a query gives a value of the kind that
  was computed for it, and that a deletion leaves what is known true.
* `src/kind/` holds kinds, the sets of values that an expression may have, `src/value.rs` the values
  themselves, `src/path.rs` paths into them, and `src/table.rs` the map that the others are built on.

Each type has a view, a mathematical value that its contracts speak of: a kind is a function from
places below a value to the types that may be found there, an environment is a map from names to
what is known of the variables.

What is trusted is marked `external_body` or `assume_specification`, with a comment that says what
is believed: three functions of `std::sync::Arc`, three of `std::any` and `std::boxed::Box`,
`String::push`, the `Debug` text of a string, and `regex::Regex::new` and `as_str`.

The tests under `tests/` run the library with the `regex` crate linked.
