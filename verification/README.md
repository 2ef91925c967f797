# renaissance_contract

The logic of the Renaissance Soroban contracts, written in Verus and proved
against its contracts.

- `src/` — the verified library: `counter` (saturating counter over a
  temporary storage entry), `oracle` (match results submitted and confirmed
  by a configured set of oracles, final at two confirmations or at all of
  them when fewer than two oracles exist), `session` (admin-managed
  whitelist and session keys with expiry and allowed actions), `betting`
  (bet amount check and the pari-mutuel payout rule), `player_nft` (the
  contract's name), and `address` (addresses held by their string key).
- `tests/` — tests of the library on concrete values.
- `app/` — the Soroban contracts: they load the storage entries a call
  touches into the library's state, call it with the ledger time, write
  back what changed, and do signature checks, time-to-live extension and
  events.
