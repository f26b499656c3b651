# cp_amm

A constant-product automated market maker for a pool of two tokens, verified with Verus.

- `src/cp_math.rs` — the pricing arithmetic: `mul_div`, the integer square root by
  Newton's iteration, the split of a deposit into amounts and minted liquidity, the payout
  of a withdrawal and of a swap. Each function's contract gives its exact result and the
  inputs on which each error comes; a swap that reaches the fee arithmetic requires a fee of
  at most `BASIS_POINTS`, since a larger one underflows there.
- `src/isqrt.rs` — the integer square root as a mathematical function, and the lemmas
  about Newton's step that the square-root loop is proved with.
- `src/instructions/` — the decisions each instruction makes before any token moves:
  creating a pool, depositing, swapping, withdrawing.
- `src/laws.rs` — properties that span calls: a deposit followed by a withdrawal returns no
  more than was deposited, a larger swap never pays less, a swap and its reverse never gain.
- `src/state.rs`, `src/error.rs` — the pool's stored state and the error codes.
- `app/` — the on-chain program around the library: account validation, token transfers
  by cross-program invocation, and the stored account types.
