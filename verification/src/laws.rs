use vstd::prelude::*;
use vstd::arithmetic::div_mod::{lemma_div_is_ordered, lemma_multiply_divide_le};

use crate::cp_math::{
    add_liquidity_result, in_after_fee, lemma_add_liquidity_facts, lemma_div_mul_le,
    lemma_swap_facts, swap_amount_result,
    withdraw_liquidity_result, BASIS_POINTS,
};
use crate::error::AMMError;

verus! {

/// `c <= a / b` whenever `c * b <= a` and `b > 0`.
proof fn lemma_le_quotient(c: int, a: int, b: int)
    requires
        0 < b,
        c * b <= a,
    ensures
        c <= a / b,
{
    lemma_div_is_ordered(c * b, a, b);
    assert((c * b) / b == c) by (nonlinear_arith)
        requires
            0 < b,
    ;
}

/// Depositing into a pool and then burning all the liquidity minted for the deposit
/// never pays out more of either token than the deposit put in.
///
/// Stated for pools that hold reserves and supply, and for the empty pool; on a pool
/// with only some of these empty it does not hold.
pub proof fn lemma_deposit_then_withdraw_no_gain(
    amount_a_desired: u64,
    amount_b_desired: u64,
    reserve_a: u64,
    reserve_b: u64,
    lp_supply: u64,
    amount_a: u64,
    amount_b: u64,
    amount_lp: u64,
)
    requires
        (reserve_a > 0 && reserve_b > 0 && lp_supply > 0) || (reserve_a == 0 && reserve_b == 0
            && lp_supply == 0),
        add_liquidity_result(amount_a_desired, amount_b_desired, reserve_a, reserve_b, lp_supply)
            == Ok::<(u64, u64, u64), AMMError>((amount_a, amount_b, amount_lp)),
        amount_lp > 0,
        reserve_a + amount_a <= u64::MAX,
        reserve_b + amount_b <= u64::MAX,
        lp_supply + amount_lp <= u64::MAX,
    ensures
        withdraw_liquidity_result(
            amount_lp,
            (reserve_a + amount_a) as u64,
            (reserve_b + amount_b) as u64,
            (lp_supply + amount_lp) as u64,
        ) matches Ok((out_a, out_b)) && out_a <= amount_a && out_b <= amount_b,
{
    lemma_add_liquidity_facts(
        amount_a_desired,
        amount_b_desired,
        reserve_a,
        reserve_b,
        lp_supply,
    );
    let supply = lp_supply + amount_lp;
    assert(amount_lp * (reserve_a + amount_a) <= amount_a * supply) by (nonlinear_arith)
        requires
            amount_lp * reserve_a <= amount_a * lp_supply,
            supply == lp_supply + amount_lp,
    ;
    assert(amount_lp * (reserve_b + amount_b) <= amount_b * supply) by (nonlinear_arith)
        requires
            amount_lp * reserve_b <= amount_b * lp_supply,
            supply == lp_supply + amount_lp,
    ;
    lemma_multiply_divide_le(amount_lp * (reserve_a + amount_a), supply, amount_a as int);
    lemma_multiply_divide_le(amount_lp * (reserve_b + amount_b), supply, amount_b as int);
}

/// Swapping more in never pays out less.
pub proof fn lemma_swap_monotone(
    amount_in_1: u64,
    amount_in_2: u64,
    reserve_in: u64,
    reserve_out: u64,
    fee_bps: u16,
)
    requires
        fee_bps <= BASIS_POINTS,
        reserve_in > 0,
        reserve_out > 0,
        amount_in_1 <= amount_in_2,
    ensures
        swap_amount_result(amount_in_1, reserve_in, reserve_out, fee_bps) matches Ok(out_1)
            && swap_amount_result(amount_in_2, reserve_in, reserve_out, fee_bps) matches Ok(out_2)
            && out_1 <= out_2,
{
    let kept = BASIS_POINTS - fee_bps;
    assert(0 <= amount_in_1 * kept <= amount_in_2 * kept) by (nonlinear_arith)
        requires
            0 <= kept,
            0 <= amount_in_1 <= amount_in_2,
    ;
    lemma_div_is_ordered(amount_in_1 * kept, amount_in_2 * kept, BASIS_POINTS as int);
    lemma_div_mul_le(amount_in_1 * kept, BASIS_POINTS as int);
    let f1 = in_after_fee(amount_in_1, fee_bps);
    let f2 = in_after_fee(amount_in_2, fee_bps);
    lemma_swap_facts(amount_in_1, reserve_in, reserve_out, fee_bps);
    lemma_swap_facts(amount_in_2, reserve_in, reserve_out, fee_bps);
    let o1 = f1 * reserve_out / (f1 + reserve_in);
    assert(0 <= f1 * reserve_out) by (nonlinear_arith)
        requires
            0 <= f1,
            0 <= reserve_out,
    ;
    lemma_div_mul_le(f1 * reserve_out, f1 + reserve_in);
    assert(o1 * (f2 + reserve_in) <= f2 * reserve_out) by (nonlinear_arith)
        requires
            o1 * (f1 + reserve_in) <= f1 * reserve_out,
            0 <= o1 < reserve_out,
            0 <= f1 <= f2,
    ;
    lemma_le_quotient(o1, f2 * reserve_out, f2 + reserve_in);
}

/// Swapping an amount of one token for the other and then swapping all of the proceeds
/// straight back never returns more than the amount first put in.
pub proof fn lemma_swap_round_trip_no_gain(
    amount_in: u64,
    reserve_a: u64,
    reserve_b: u64,
    fee_bps: u16,
    amount_out: u64,
)
    requires
        fee_bps <= BASIS_POINTS,
        reserve_a > 0,
        reserve_b > 0,
        reserve_a + amount_in <= u64::MAX,
        swap_amount_result(amount_in, reserve_a, reserve_b, fee_bps) == Ok::<u64, AMMError>(
            amount_out,
        ),
    ensures
        swap_amount_result(
            amount_out,
            (reserve_b - amount_out) as u64,
            (reserve_a + amount_in) as u64,
            fee_bps,
        ) matches Ok(back) && back <= amount_in,
{
    lemma_swap_facts(amount_in, reserve_a, reserve_b, fee_bps);
    let fx = in_after_fee(amount_in, fee_bps);
    let y = amount_out as int;
    assert(y == fx * reserve_b / (fx + reserve_a));
    assert(0 <= fx * reserve_b) by (nonlinear_arith)
        requires
            0 <= fx,
            0 <= reserve_b,
    ;
    lemma_div_mul_le(fx * reserve_b, fx + reserve_a);
    // y * (reserve_a + amount_in) <= amount_in * reserve_b
    assert(y * (reserve_a + amount_in) <= amount_in * reserve_b) by (nonlinear_arith)
        requires
            y * (fx + reserve_a) <= fx * reserve_b,
            0 <= fx <= amount_in,
            0 <= y < reserve_b,
    ;
    let new_in = (reserve_a + amount_in) as u64;
    let new_out = (reserve_b - amount_out) as u64;
    lemma_swap_facts(amount_out, new_out, new_in, fee_bps);
    let f = in_after_fee(amount_out, fee_bps);
    assert(f * new_in <= amount_in * (f + new_out)) by (nonlinear_arith)
        requires
            y * (reserve_a + amount_in) <= amount_in * reserve_b,
            0 <= f <= y,
            new_in == reserve_a + amount_in,
            new_out == reserve_b - y,
            reserve_a > 0,
    ;
    lemma_multiply_divide_le(f * new_in, f + new_out, amount_in as int);
}

} // verus!
