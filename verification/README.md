# creator_event_manager

Verified settlement logic for creator-run prediction events on Soroban.

- `src/event.rs`: the settlement state of a stored event.
- `src/payout.rs`: the arithmetic of a settlement (percent shares rounded toward
  zero, remainder to the creator) with its laws.
- `src/finalize.rs`: who may settle an event and when, and the plan of a
  settlement read from the host vectors handed in by the caller.
- `src/views.rs`: the prize-pool query.
- `src/host.rs`: declarations of `soroban_sdk` types and the trusted wrappers
  around the host calls that the logic makes.
- `app/lib.rs`: storage reads and writes, the ledger clock and token transfers,
  around the verified functions.

`Cargo.toml` names `ed25519-dalek = "=2.2.0"` although no code here uses it:
`soroban-env-host` asks for `ed25519-dalek >= 2.0.0` and does not compile
against the 3.x line, so the pin keeps the resolver on 2.2.0.
