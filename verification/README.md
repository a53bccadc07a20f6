# block_model

Short-horizon market data for five-minute up/down markets: quotes, trades and
order books of five exchanges and the values of a price oracle are collected,
turned into snapshots of one moment, and handed to a model as features.

- `src/` is the library, proved with Verus: parsers of the feeds, rows and
  batches for the database, sessions and reconnecting, order books, windows,
  snapshots that know nothing of what came later, and what is decided around a
  model. Prices are exact decimals there.
- `app/` is the program around it: connections, the database, files, and
  whatever is computed with floating point.
- `tests/` runs the library with the crates that it is linked to.

The functions marked `external_body` are what the proofs take on trust: calls
into `serde_json`, `rust_decimal`, `chrono` and the standard library, each with
what is claimed of it above it.
