# progenitor

A toy low-code engine whose core is verified with Verus: indirectly represented
schemas and values, expressions and mutations over them, a JSON format with a
hand-written reader and writer, in-memory stores, and typed state containers.

Layout:

- `src/` — the verified library.
  - `schema/` — types, values (maps as key-ordered entries, fractional numbers as
    decimals), expressions, mutations and conversions.
  - `indirect/`, `indirect_serial/`, `persistence/` — the message-carrying indirect
    schema, its serial formats (the pseudo format carries values as they are) and the
    data logic of its in-memory persistence driver.
  - `serial/` — serial containers and the JSON format; `json_laws.rs` proves that the
    reader reads back what the writer writes, for well-formed values built, at every
    level, of unsigned integers, negative signed integers above `i32::MIN`, decimals with
    fraction digits, strings (and map keys) without `"` or `\`, lists and maps. The
    reader reads neither `null` nor booleans, reads a non-negative integer as unsigned,
    does not read back a decimal without fraction digits, and keeps escaping backslashes.
  - `state/`, `logic/` — typed state cells; `logic::state` keeps the type of a key.
  - `store/` — store errors and the data logic of the in-memory store.
  - `effects/`, `comm/`, `errors.rs`, `init.rs`, `env_config.rs`, `component.rs` —
    errors, configuration traits and component identifiers.
- `app/` — the asynchronous, networked and shared-memory parts around the library:
  store drivers and queries, effect contexts, the registry, HTTP/1, and serde-based JSON.
- `tests/` — tests of the library.
