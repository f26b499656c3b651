use vstd::prelude::*;

use crate::cp_math::{add_liquidity_amount, add_liquidity_result};
use crate::error::AMMError;

verus! {

/// The outcome of a request to deposit at most `amount_a_desired` and `amount_b_desired`
/// into a pool whose vaults hold `vault_a` and `vault_b` and whose liquidity mint has
/// supply `lp_supply`: `(amount_a, amount_b, amount_lp)` to transfer in and mint out.
/// `InvalidArguments` when a desired amount is zero; `InvalidAmount` when an amount to
/// transfer or mint comes out as zero.
pub open spec fn add_liquidity_plan_result(
    amount_a_desired: u64,
    amount_b_desired: u64,
    vault_a: u64,
    vault_b: u64,
    lp_supply: u64,
) -> Result<(u64, u64, u64), AMMError> {
    if amount_a_desired > 0 && amount_b_desired > 0 {
        match add_liquidity_result(amount_a_desired, amount_b_desired, vault_a, vault_b, lp_supply) {
            Err(e) => Err(e),
            Ok((a, b, lp)) => if a > 0 && b > 0 && lp > 0 {
                Ok((a, b, lp))
            } else {
                Err(AMMError::InvalidAmount)
            },
        }
    } else {
        Err(AMMError::InvalidArguments)
    }
}

/// Decides what a deposit transfers into the pool's vaults and how much liquidity it mints.
pub fn plan_add_liquidity(
    amount_a_desired: u64,
    amount_b_desired: u64,
    vault_a: u64,
    vault_b: u64,
    lp_supply: u64,
) -> (r: Result<(u64, u64, u64), AMMError>)
    ensures
        r == add_liquidity_plan_result(amount_a_desired, amount_b_desired, vault_a, vault_b, lp_supply),
        r matches Ok((a, b, lp)) ==> 0 < a <= amount_a_desired && 0 < b <= amount_b_desired && 0
            < lp,
{
    if !(amount_a_desired > 0 && amount_b_desired > 0) {
        return Err(AMMError::InvalidArguments);
    }
    let (amount_a, amount_b, amount_lp) = add_liquidity_amount(
        amount_a_desired,
        amount_b_desired,
        vault_a,
        vault_b,
        lp_supply,
    )?;
    if !(amount_a > 0 && amount_b > 0 && amount_lp > 0) {
        return Err(AMMError::InvalidAmount);
    }
    Ok((amount_a, amount_b, amount_lp))
}

} // verus!
