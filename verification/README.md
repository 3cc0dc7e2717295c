# amm_core

The core of a concentrated-liquidity automated market maker for Solana,
written in Verus: every function of the library carries a contract, and the
properties that span functions are stated and proved as proof functions.

## Layout

- `src/` — the verified library.
  - `math.rs`, `power_bound.rs`, `arith.rs`, `wide.rs`: Q64.64 fixed-point
    arithmetic, tick/price conversion and the token-amount formulas, with
    the bounds that keep the power table free of overflow and the proof that
    the tick price strictly grows from tick -1 on.
  - `tick_bitmap.rs`: the compressed tick bitmap and the search for the next
    initialized tick.
  - `tick.rs`, `position.rs`, `state/pool.rs`: tick, position and pool
    state; liquidity changes and the exact-input swap loop.
  - `oracle.rs`: the price oracle's ring buffer of observations, its
    compression and the surrounding-observation search.
  - `token_pair.rs`: the registry of pools per token pair and its address.
  - `instructions.rs`: the checks and state changes of the program's
    instructions.
  - `codec.rs`, `pubkey.rs`: the tick bitmap's Borsh encoding and a plain
    32-byte key type.
  - `laws.rs`: properties of the arithmetic and of tick prices.
- `tests/` — tests of the library on concrete values.
- `app/` — the Anchor program around the library: account layouts,
  instruction contexts and handlers, token transfers, and the floating-point
  TWAP helpers.
