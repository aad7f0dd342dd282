# fury_contracts

Token contracts of a gaming and staking platform, written in Verus: each
operation is an executable function whose contract states what it returns
and what it does to the contract's storage, and Verus proves the code
against it.

## Layout

- `src/` — the verified library.
  - `table.rs`: the storage model, a table of entries kept sorted by the
    UTF-8 bytes of their keys, with its lemmas.
  - `response.rs`: what a call hands back (messages, attributes, data).
  - `club_staking*.rs`: the club market — buying, releasing and owning
    clubs, staking and withdrawing (with bonds), the platform fee priced
    through the exchange pair's pool, and the periodic reward distribution
    with the clubs ranked by stake.
  - `club_staking_basic.rs`: the first, simpler club contract.
  - `gaming_pool*.rs`: games, pools of teams, bids, locking, cancelling,
    reward distribution with rake and platform fees, claims of rewards and
    refunds.
  - `token*.rs`, `logo.rs`, `vesting*.rs`: the fungible token (balances,
    minting under a cap, burning, sends, marketing information and logos)
    and its vesting schedules, transfers to categories and claims.
  - `airdrop*.rs`: rewards booked per activity and claimed by users.
  - `distribute.rs`: the distributor.
  - `*_laws.rs`: properties that span several calls, as proof functions.
- `tests/` — tests of the library on concrete values.
- `app/` — the chain side: messages as JSON, address checks, the queries
  that only the chain can answer, each contract's state in the chain's
  storage, and the conversion of responses. Before a call whose arithmetic
  could overflow, it asks the library's checks (`*_ready`, `*_measured`,
  `*_summable`) and stops as the contract does where they fail.
