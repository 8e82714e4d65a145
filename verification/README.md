# mnesis

An event store seam with its rules proved in [Verus](https://github.com/verus-lang/verus): optimistic
appends, stream and all-streams reads, subscriptions that catch up and then follow, snapshots and
projections, imports of backups, and the wake registry that live subscriptions wait on.

- `src/` is the library. Its model is one log of all events (`log.rs`); every contract is stated over
  it. `laws/` holds what relates several functions. The few calls into `bytes`, `tokio` and `std` that
  are trusted stand in `octets.rs`, `channel.rs` and `store.rs`, each with what it claims.
- `tests/` runs the library: the in-memory stores, the conformance checks against them, and against
  stores that break the contract in one way each.
- `app/` is the asynchronous side: futures, streams, locks and tasks around what the library decides.

A store adapter is checked by `conformance/`: each check is a script. It is handed the answers so far
and says what to ask next, or that the store passed, or which answer broke the contract.
