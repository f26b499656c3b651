use vstd::prelude::*;

use crate::cp_math::{swap_amount, swap_amount_result, BASIS_POINTS};
use crate::error::AMMError;

verus! {

/// Which way a swap trades.
#[derive(Debug, Clone, Copy, PartialEq, Eq, Structural)]
pub enum SwapDirection {
    /// Token A goes in, token B comes out.
    AToB,
    /// Token B goes in, token A comes out.
    BToA,
}

/// The transfers a swap makes: `amount_in` of the input token into its vault, and
/// `amount_out` of the other token out of its vault.
#[derive(Debug, Clone, Copy, PartialEq, Eq, Structural)]
pub struct SwapPlan {
    pub direction: SwapDirection,
    pub amount_in: u64,
    pub amount_out: u64,
}

/// The outcome of a request to swap `amount_a_in` of token A or `amount_b_in` of token B
/// (exactly one of them nonzero) against vaults holding `vault_a` and `vault_b`, asking
/// for more than `min_amount_out` in return. `InvalidArguments` unless exactly one input
/// is nonzero; `InvalidAmount` unless the payout exceeds `min_amount_out`.
pub open spec fn swap_plan_result(
    amount_a_in: u64,
    amount_b_in: u64,
    min_amount_out: u64,
    vault_a: u64,
    vault_b: u64,
    fee: u16,
) -> Result<SwapPlan, AMMError> {
    if !(amount_a_in == 0 || amount_b_in == 0) || !(amount_a_in > 0 || amount_b_in > 0) {
        Err(AMMError::InvalidArguments)
    } else {
        let direction = if amount_a_in == 0 { SwapDirection::BToA } else { SwapDirection::AToB };
        let amount_in = if amount_a_in == 0 { amount_b_in } else { amount_a_in };
        let quote = if amount_a_in == 0 {
            swap_amount_result(amount_b_in, vault_b, vault_a, fee)
        } else {
            swap_amount_result(amount_a_in, vault_a, vault_b, fee)
        };
        match quote {
            Err(e) => Err(e),
            Ok(amount_out) => if amount_in > 0 && amount_out > min_amount_out {
                Ok(SwapPlan { direction, amount_in, amount_out })
            } else {
                Err(AMMError::InvalidAmount)
            },
        }
    }
}

/// The vault balances `(vault_a, vault_b)` after a swap plan's transfers.
pub open spec fn vaults_after_swap(plan: SwapPlan, vault_a: u64, vault_b: u64) -> (int, int) {
    match plan.direction {
        SwapDirection::AToB => (vault_a + plan.amount_in, vault_b - plan.amount_out),
        SwapDirection::BToA => (vault_a - plan.amount_out, vault_b + plan.amount_in),
    }
}

/// Decides which way a swap trades and what it transfers in and out.
pub fn plan_swap(
    amount_a_in: u64,
    amount_b_in: u64,
    min_amount_out: u64,
    vault_a: u64,
    vault_b: u64,
    fee: u16,
) -> (r: Result<SwapPlan, AMMError>)
    requires
        (amount_a_in == 0) != (amount_b_in == 0) && vault_a > 0 && vault_b > 0 ==> fee
            <= BASIS_POINTS,
    ensures
        r == swap_plan_result(amount_a_in, amount_b_in, min_amount_out, vault_a, vault_b, fee),
        r matches Ok(plan) ==> plan.amount_out > min_amount_out && plan.amount_in > 0,
        (r == Err::<SwapPlan, AMMError>(AMMError::InvalidArguments)) <==> ((amount_a_in == 0) == (
        amount_b_in == 0)),
        r matches Ok(plan) ==> ({
            let (new_a, new_b) = vaults_after_swap(plan, vault_a, vault_b);
            &&& 0 <= new_a
            &&& 0 <= new_b
            &&& new_a * new_b >= vault_a * vault_b
        }),
{
    if !(amount_a_in == 0 || amount_b_in == 0) {
        return Err(AMMError::InvalidArguments);
    }
    if !(amount_a_in > 0 || amount_b_in > 0) {
        return Err(AMMError::InvalidArguments);
    }
    let (direction, amount_in, amount_out) = if amount_a_in == 0 {
        let amount_a_out = swap_amount(amount_b_in, vault_b, vault_a, fee)?;
        assert((vault_a - amount_a_out) * (vault_b + amount_b_in) == (vault_b + amount_b_in) * (
        vault_a - amount_a_out)) by (nonlinear_arith);
        assert(vault_a * vault_b == vault_b * vault_a) by (nonlinear_arith);
        (SwapDirection::BToA, amount_b_in, amount_a_out)
    } else {
        let amount_b_out = swap_amount(amount_a_in, vault_a, vault_b, fee)?;
        (SwapDirection::AToB, amount_a_in, amount_b_out)
    };
    if !(amount_in > 0 && amount_out > min_amount_out) {
        return Err(AMMError::InvalidAmount);
    }
    Ok(SwapPlan { direction, amount_in, amount_out })
}

} // verus!
