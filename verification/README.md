# spreadless

A stable-swap pool protocol for Soroban, with its pricing, accounting and
configuration rules verified by Verus.

## Layout

- `src/math/` — the StableSwap invariant and its Newton solvers (256-bit host
  integers behind small trusted wrappers), fixed-point helpers, proportional
  join/exit math.
- `src/pool/` — amplification ramps, fee validation and the output-fee split,
  decimal scaling between raw token units and the 9-decimal internal scale,
  the pool state, and the quote functions for deposits, withdrawals and swaps.
- `src/liquidity_pool/` — the decisions each pool entrypoint makes between
  reading the pool, moving tokens and writing the pool back.
- `src/pool_factory/`, `src/router/`, `src/registry.rs` — pool numbering,
  deployment salts, router fee defaults and swap-path checks.
- `app/` — the Soroban contracts themselves: storage, token transfers,
  authorization, pausing, events and the LP share token, calling the library
  for every decision.
- `tests/` — unit tests of the library and end-to-end flows driven through
  its decisions.

The laws of the library (rounding
direction, fee independence, ramp monotonicity, scaling round trips, full
exits) are public proof functions next to the code they speak of.
