# mini_clmm

A minimal concentrated-liquidity market maker (Uniswap v3 style) for Solana,
with its logic verified by Verus.

- `src/math.rs`: Q64 square-root prices per tick and the price move of a purchase.
- `src/state.rs`: positions and the pool (tick table, position slots), with the
  pool's consistency predicates and the operations that keep them.
- `src/processor.rs`: the instruction handlers (initialize, add liquidity,
  buy SOL, remove liquidity) on the pool.
- `src/error.rs`, `src/key.rs`: error codes and account addresses.
- `app/`: the on-chain entrypoint: account access, Borsh instruction decoding,
  the zero-copy account layout (bytemuck) and log messages.
