# ecotask

Verified core of the EcoTask Soroban contracts:

- `src/token.rs` — the reward token (balances, capped supply, minter role,
  admin-controlled metadata, expiring allowances). `TokenModel` is the content
  of the token's storage; every entry point of `TokenContract` is proved to
  perform the corresponding model transition, to leave the state untouched
  when it refuses a request, and to keep the model invariant (the supply is
  the sum of all balances and stays within the cap).
- `src/registry.rs` — the task registry (sponsors, tasks with a completion
  limit and an expiry, per-user completion records, creator indexes and
  paging). `RegistryModel` plays the same role for `RegistryContract`.
- `src/keyed_map.rs` — the association map that stands for a storage table.
- `src/total.rs` — sums over finite maps of amounts.
- `src/address.rs` — addresses, held as their strkey text.
- `app/` — the Soroban-facing layer: authorization, ledger clock and sequence,
  event publication, host-value conversion and the contracts' panic messages.
