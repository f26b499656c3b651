use vstd::prelude::*;

use crate::cp_math::{withdraw_liquidity_amount, withdraw_liquidity_result};
use crate::error::AMMError;
use crate::state::LiquidityPoolConfig;

verus! {

/// The outcome of a request to burn `amount_lp` liquidity out of `lp_supply` against
/// the reserves that a pool accounts for: the amounts of each token paid out.
/// `InvalidArguments` when `amount_lp` is zero.
pub open spec fn withdraw_plan_result(
    amount_lp: u64,
    vault_a: u64,
    vault_b: u64,
    lp_supply: u64,
) -> Result<(u64, u64), AMMError> {
    if amount_lp > 0 {
        withdraw_liquidity_result(amount_lp, vault_a, vault_b, lp_supply)
    } else {
        Err(AMMError::InvalidArguments)
    }
}

impl LiquidityPoolConfig {
    /// Burns `amount_lp` liquidity out of `lp_supply`: decides the amounts of each token
    /// paid out and takes them off the reserves the pool accounts for.
    pub fn withdraw_liquidity(&mut self, amount_lp: u64, lp_supply: u64) -> (r: Result<
        (u64, u64),
        AMMError,
    >)
        ensures
            r == withdraw_plan_result(amount_lp, old(self).vault_a, old(self).vault_b, lp_supply),
            r matches Ok((a, b)) ==> final(self).vault_a == old(self).vault_a - a
                && final(self).vault_b == old(self).vault_b - b
                && final(self).fee == old(self).fee
                && final(self).liquidity_pool_mint_bump == old(self).liquidity_pool_mint_bump
                && final(self).bump == old(self).bump,
            r is Err ==> *final(self) == *old(self),
    {
        if !(amount_lp > 0) {
            return Err(AMMError::InvalidArguments);
        }
        let (amount_a, amount_b) = withdraw_liquidity_amount(
            amount_lp,
            self.vault_a,
            self.vault_b,
            lp_supply,
        )?;
        if !(amount_a <= self.vault_a && amount_b <= self.vault_b) {
            return Err(AMMError::InvalidAmount);
        }
        let new_vault_a = match self.vault_a.checked_sub(amount_a) {
            Some(v) => v,
            None => return Err(AMMError::Underflow),
        };
        self.vault_a = new_vault_a;
        let new_vault_b = match self.vault_b.checked_sub(amount_b) {
            Some(v) => v,
            None => return Err(AMMError::Underflow),
        };
        self.vault_b = new_vault_b;
        Ok((amount_a, amount_b))
    }
}

} // verus!
