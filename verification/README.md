# spectra_vault

Verified rules of a basket vault: share accounting, allocation validation and
the state machine behind vault creation, deposits, withdrawals, rebalancing,
status changes and fee claims.

- `src/` — the library, verified with Verus.
  - `math.rs`: share, payout and fee arithmetic (`i128`, rounding toward zero).
  - `types.rs`, `errors.rs`: plain-value types and the error enum.
  - `digest.rs`: the byte encoding of a basket and its SHA-256 hash (the
    digest itself comes from the Soroban host, behind one trusted wrapper).
  - `ledger.rs`: per-address amounts with an abstract map view and a total.
  - `model.rs`: the abstract vault state and the spec of every operation.
  - `vault.rs`: `SpectralVault`, the registry of vaults, and its operations.
  - `laws.rs`: properties of the rules, proved over the model.
- `tests/` — tests of the library.
- `app/` — the Soroban contract: storage, authorization checks, token
  transfers and events around the library.
