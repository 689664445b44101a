# Bitcoin transaction decoder

A library that decodes raw Bitcoin transactions, verified with Verus, and a
command line program around it.

- `src/wire.rs` states the wire format as spec functions: how each value is
  read from the front of a byte sequence and how it is written.
- `src/transaction.rs` holds the transaction types and the `Decodable` and
  `Encodable` traits, whose implementations are proved to follow `wire`.
- `src/laws.rs` proves how writing and reading relate (round trips).
- `src/hexcode.rs` and `src/hash.rs` reach the `hex` and `sha2` crates
  through trusted wrappers whose contracts restate or name those functions.
- `app/` parses the command line with `clap` and prints the decoded
  transaction as JSON with `serde_json`.

Usage: `rust_week_1_exercises <transaction-hex>`.
