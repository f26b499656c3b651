use vstd::prelude::*;

verus! {

/// The state a pool keeps about itself.
#[derive(Debug, Clone, Copy, PartialEq, Eq, Structural)]
pub struct LiquidityPoolConfig {
    /// Reserve of token A that the pool accounts for.
    pub vault_a: u64,
    /// Reserve of token B that the pool accounts for.
    pub vault_b: u64,
    /// Swap fee in basis points.
    pub fee: u16,
    /// Bump seed of the pool's liquidity mint address.
    pub liquidity_pool_mint_bump: u8,
    /// Bump seed of the pool's own address.
    pub bump: u8,
}

} // verus!
