use vstd::prelude::*;
use vstd::arithmetic::div_mod::{lemma_fundamental_div_mod, lemma_multiply_divide_le};

use crate::cp_math::{
    add_liquidity_result, in_after_fee, initial_liquidity, lp_amount_result,
    withdraw_liquidity_result, lemma_a_optimal_below_desired, lemma_add_liquidity_facts,
    lemma_initial_liquidity_fits, lemma_swap_facts, mul_div_result, swap_amount_result,
    BASIS_POINTS,
};
use crate::isqrt::is_isqrt;
use crate::instructions::add_liquidity::add_liquidity_plan_result;
use crate::instructions::create_pool::{create_pool_result, key_precedes};
use crate::instructions::withdraw_liquidity::withdraw_plan_result;
use crate::state::LiquidityPoolConfig;
use crate::error::AMMError;
use crate::instructions::swap::{swap_plan_result, SwapDirection, SwapPlan};

verus! {

/// A floor quotient, scaled back by its positive divisor, lands within one divisor of the dividend.
pub proof fn lemma_floor_div(x: int, d: int)
    requires
        0 < d,
    ensures
        (x / d) * d <= x < (x / d + 1) * d,
{
    lemma_fundamental_div_mod(x, d);
    assert((x / d) * d <= x < (x / d + 1) * d) by (nonlinear_arith)
        requires
            x == d * (x / d) + x % d,
            0 <= x % d < d,
    ;
}

/// A floor quotient reaches `k` exactly when the dividend reaches `k` times the divisor.
pub proof fn lemma_floor_div_at_least(x: int, d: int, k: int)
    requires
        0 < d,
    ensures
        (x / d >= k) <==> (x >= k * d),
{
    lemma_floor_div(x, d);
    let q = x / d;
    if q >= k {
        assert(q * d >= k * d) by (nonlinear_arith)
            requires
                q >= k,
                d > 0,
        ;
    } else {
        assert((q + 1) * d <= k * d) by (nonlinear_arith)
            requires
                q + 1 <= k,
                d > 0,
        ;
    }
}

/// `mul_div(a, b, c)` fails with `DivideByZero` exactly when `c` is zero, with `Overflow`
/// exactly when `a * b` reaches `2^64 * c`, and otherwise returns the `q` with
/// `q * c <= a * b < (q + 1) * c`.
pub proof fn lemma_mul_div_outcome(a: u64, b: u64, c: u64)
    ensures
        (mul_div_result(a, b, c) == Err::<u64, AMMError>(AMMError::DivideByZero)) <==> c == 0,
        (mul_div_result(a, b, c) == Err::<u64, AMMError>(AMMError::Overflow)) <==> (c > 0 && a * b
            >= (u64::MAX + 1) * c),
        mul_div_result(a, b, c) matches Ok(q) ==> q * c <= a * b < (q + 1) * c,
{
    if c > 0 {
        lemma_floor_div(a * b, c as int);
        lemma_floor_div_at_least(a * b, c as int, u64::MAX + 1);
    }
}

/// A swap into a pool with an empty reserve is refused with `InsufficientSupply`, whatever
/// the fee. Otherwise, with `f = amount_in * (BASIS_POINTS - fee_bps) / BASIS_POINTS` the
/// input after the fee, the payout `out` is the largest amount with
/// `out * (f + reserve_in) <= f * reserve_out`.
pub proof fn lemma_swap_outcome(amount_in: u64, reserve_in: u64, reserve_out: u64, fee_bps: u16)
    requires
        reserve_in > 0 && reserve_out > 0 ==> fee_bps <= BASIS_POINTS,
    ensures
        (swap_amount_result(amount_in, reserve_in, reserve_out, fee_bps) == Err::<u64, AMMError>(
            AMMError::InsufficientSupply)) <==> (reserve_in == 0 || reserve_out == 0),
        (reserve_in > 0 && reserve_out > 0) ==> swap_amount_result(
            amount_in,
            reserve_in,
            reserve_out,
            fee_bps,
        ) is Ok,
        swap_amount_result(amount_in, reserve_in, reserve_out, fee_bps) matches Ok(out) ==> ({
            let f = amount_in * (BASIS_POINTS - fee_bps) / (BASIS_POINTS as int);
            &&& out * (f + reserve_in) <= f * reserve_out
            &&& f * reserve_out < (out + 1) * (f + reserve_in)
        }),
{
    if reserve_in > 0 && reserve_out > 0 {
        lemma_swap_facts(amount_in, reserve_in, reserve_out, fee_bps);
        let f = in_after_fee(amount_in, fee_bps);
        lemma_floor_div(f * reserve_out, f + reserve_in);
    }
}

/// The payout `out` is the floor constant-product quote for `amount_in` against the
/// reserves `reserve_in`, `reserve_out` after a fee of `fee` basis points.
pub open spec fn is_swap_quote(out: int, amount_in: int, reserve_in: int, reserve_out: int, fee: int) -> bool {
    let f = amount_in * (BASIS_POINTS - fee) / (BASIS_POINTS as int);
    &&& out * (f + reserve_in) <= f * reserve_out
    &&& f * reserve_out < (out + 1) * (f + reserve_in)
}

/// The constant-product quote for `amount_in` against `reserve_in`, `reserve_out` after
/// a fee of `fee` basis points is at most `limit`.
pub open spec fn quote_at_most(limit: int, amount_in: int, reserve_in: int, reserve_out: int, fee: int) -> bool {
    let f = amount_in * (BASIS_POINTS - fee) / (BASIS_POINTS as int);
    f * reserve_out < (limit + 1) * (f + reserve_in)
}

/// How a swap request is answered:
/// - `InvalidArguments` exactly when not exactly one of the two inputs is nonzero;
/// - with one input, `InsufficientSupply` when a vault is empty;
/// - an accepted swap trades the nonzero input in the direction it names, pays out the
///   constant-product quote against the vaults in that direction, and pays out more than
///   `min_amount_out`;
/// - `InvalidAmount` only when that quote is at most `min_amount_out`.
pub proof fn lemma_swap_plan_outcome(
    amount_a_in: u64,
    amount_b_in: u64,
    min_amount_out: u64,
    vault_a: u64,
    vault_b: u64,
    fee: u16,
)
    requires
        (amount_a_in == 0) != (amount_b_in == 0) && vault_a > 0 && vault_b > 0 ==> fee
            <= BASIS_POINTS,
    ensures
        (swap_plan_result(amount_a_in, amount_b_in, min_amount_out, vault_a, vault_b, fee)
            == Err::<SwapPlan, AMMError>(AMMError::InvalidArguments)) <==> ((amount_a_in == 0) == (
        amount_b_in == 0)),
        (amount_a_in == 0) != (amount_b_in == 0) && (vault_a == 0 || vault_b == 0) ==> swap_plan_result(
            amount_a_in,
            amount_b_in,
            min_amount_out,
            vault_a,
            vault_b,
            fee,
        ) == Err::<SwapPlan, AMMError>(AMMError::InsufficientSupply),
        swap_plan_result(amount_a_in, amount_b_in, min_amount_out, vault_a, vault_b, fee) matches Ok(
            plan,
        ) ==> {
            &&& plan.amount_out > min_amount_out
            &&& plan.amount_in == (if amount_a_in == 0 { amount_b_in } else { amount_a_in })
            &&& plan.amount_in > 0
            &&& (plan.direction == SwapDirection::BToA) <==> (amount_a_in == 0)
            &&& is_swap_quote(
                plan.amount_out as int,
                plan.amount_in as int,
                (if amount_a_in == 0 { vault_b } else { vault_a }) as int,
                (if amount_a_in == 0 { vault_a } else { vault_b }) as int,
                fee as int,
            )
        },
        ((amount_a_in == 0) != (amount_b_in == 0) && vault_a > 0 && vault_b > 0 && !quote_at_most(
            min_amount_out as int,
            (if amount_a_in == 0 { amount_b_in } else { amount_a_in }) as int,
            (if amount_a_in == 0 { vault_b } else { vault_a }) as int,
            (if amount_a_in == 0 { vault_a } else { vault_b }) as int,
            fee as int,
        )) ==> swap_plan_result(amount_a_in, amount_b_in, min_amount_out, vault_a, vault_b, fee) is Ok,
        swap_plan_result(amount_a_in, amount_b_in, min_amount_out, vault_a, vault_b, fee)
            == Err::<SwapPlan, AMMError>(AMMError::InvalidAmount) ==> {
            &&& (amount_a_in == 0) != (amount_b_in == 0)
            &&& vault_a > 0 && vault_b > 0
            &&& quote_at_most(
                min_amount_out as int,
                (if amount_a_in == 0 { amount_b_in } else { amount_a_in }) as int,
                (if amount_a_in == 0 { vault_b } else { vault_a }) as int,
                (if amount_a_in == 0 { vault_a } else { vault_b }) as int,
                fee as int,
            )
        },
{
    if (amount_a_in == 0) != (amount_b_in == 0) {
        if amount_a_in == 0 {
            lemma_swap_outcome(amount_b_in, vault_b, vault_a, fee);
        } else {
            lemma_swap_outcome(amount_a_in, vault_a, vault_b, fee);
        }
        let amount_in: u64 = if amount_a_in == 0 { amount_b_in } else { amount_a_in };
        let reserve_in: u64 = if amount_a_in == 0 { vault_b } else { vault_a };
        let reserve_out: u64 = if amount_a_in == 0 { vault_a } else { vault_b };
        if let Ok(out) = swap_amount_result(amount_in, reserve_in, reserve_out, fee) {
            assert(is_swap_quote(out as int, amount_in as int, reserve_in as int, reserve_out as int, fee as int));
            if out <= min_amount_out {
                let f = amount_in * (BASIS_POINTS - fee) / (BASIS_POINTS as int);
                assert((out + 1) * (f + reserve_in) <= (min_amount_out + 1) * (f + reserve_in))
                    by (nonlinear_arith)
                    requires
                        out <= min_amount_out,
                        0 <= f + reserve_in,
                ;
            }
        }
    }
}

/// `lp` is the largest liquidity whose proportional share of the supply is covered by both
/// deposited amounts: `lp * reserve <= amount * lp_supply` on each side, and one more unit
/// would break it on some side.
pub open spec fn is_largest_share(lp: int, a: int, b: int, reserve_a: int, reserve_b: int, lp_supply: int) -> bool {
    &&& lp * reserve_a <= a * lp_supply
    &&& lp * reserve_b <= b * lp_supply
    &&& ((lp + 1) * reserve_a > a * lp_supply || (lp + 1) * reserve_b > b * lp_supply)
}

/// What a deposit takes and mints.
/// - Into a pool with an empty reserve or no supply: all of both desired amounts, and the
///   integer square root of their product.
/// - Into a funded pool: the deposit keeps the pool's ratio. Either all of `amount_a_desired`
///   goes in with the largest amount of token B not above `amount_b_desired` whose ratio to
///   it is at most the pool's (`b * reserve_a <= a * reserve_b`), or, when token B runs out
///   first (`amount_a_desired * reserve_b >= (amount_b_desired + 1) * reserve_a`), all of
///   `amount_b_desired` with the largest amount of token A at most the pool's ratio; and the
///   liquidity minted is the largest covered by both proportional shares.
/// - A deposit of no more than the pool holds of each token always succeeds; the only
///   failure is `Overflow`.
pub proof fn lemma_add_liquidity_outcome(
    amount_a_desired: u64,
    amount_b_desired: u64,
    reserve_a: u64,
    reserve_b: u64,
    lp_supply: u64,
)
    ensures
        (reserve_a == 0 || reserve_b == 0 || lp_supply == 0) ==> (add_liquidity_result(
            amount_a_desired,
            amount_b_desired,
            reserve_a,
            reserve_b,
            lp_supply,
        ) matches Ok((a, b, lp)) && a == amount_a_desired && b == amount_b_desired && is_isqrt(
            lp as int,
            a * b,
        )),
        (reserve_a > 0 && reserve_b > 0 && lp_supply > 0) ==> (add_liquidity_result(
            amount_a_desired,
            amount_b_desired,
            reserve_a,
            reserve_b,
            lp_supply,
        ) matches Ok((a, b, lp)) ==> {
            &&& (a == amount_a_desired && b <= amount_b_desired && b * reserve_a <= a * reserve_b
                && a * reserve_b < (b + 1) * reserve_a) || (b == amount_b_desired && amount_a_desired
                * reserve_b >= (amount_b_desired + 1) * reserve_a && a * reserve_b <= b * reserve_a
                && b * reserve_a < (a + 1) * reserve_b)
            &&& is_largest_share(
                lp as int,
                a as int,
                b as int,
                reserve_a as int,
                reserve_b as int,
                lp_supply as int,
            )
        }),
        (reserve_a > 0 && reserve_b > 0 && lp_supply > 0 && amount_a_desired <= reserve_a
            && amount_b_desired <= reserve_b) ==> add_liquidity_result(
            amount_a_desired,
            amount_b_desired,
            reserve_a,
            reserve_b,
            lp_supply,
        ) is Ok,
        add_liquidity_result(amount_a_desired, amount_b_desired, reserve_a, reserve_b, lp_supply) is Err
            ==> add_liquidity_result(amount_a_desired, amount_b_desired, reserve_a, reserve_b, lp_supply)
            == Err::<(u64, u64, u64), AMMError>(AMMError::Overflow),
        add_liquidity_result(amount_a_desired, amount_b_desired, reserve_a, reserve_b, lp_supply) is Err
            ==> (amount_a_desired * reserve_b >= (u64::MAX + 1) * reserve_a || amount_a_desired
            * lp_supply >= (u64::MAX + 1) * reserve_a || amount_b_desired * lp_supply >= (u64::MAX
            + 1) * reserve_b),
{
    lemma_add_liquidity_facts(amount_a_desired, amount_b_desired, reserve_a, reserve_b, lp_supply);
    if reserve_a == 0 || reserve_b == 0 || lp_supply == 0 {
        lemma_initial_liquidity_fits(amount_a_desired, amount_b_desired);
    } else {
        let ra = reserve_a as int;
        let rb = reserve_b as int;
        let s = lp_supply as int;
        let ad = amount_a_desired as int;
        let bd = amount_b_desired as int;
        let b_optimal = ad * rb / ra;
        lemma_floor_div(ad * rb, ra);
        lemma_floor_div_at_least(ad * rb, ra, bd + 1);
        assert(0 <= ad * rb) by (nonlinear_arith)
            requires
                0 <= ad,
                0 <= rb,
        ;
        if b_optimal > bd {
            lemma_a_optimal_below_desired(amount_a_desired, amount_b_desired, reserve_a, reserve_b);
            lemma_floor_div(bd * ra, rb);
            assert(0 <= bd * ra) by (nonlinear_arith)
                requires
                    0 <= bd,
                    0 <= ra,
            ;
        }
        let a: int = if b_optimal <= bd { ad } else { bd * ra / rb };
        let b: int = if b_optimal <= bd { b_optimal } else { bd };
        assert(a * rb == rb * a && b * ra == ra * b && ad * rb == rb * ad && bd * ra == ra * bd)
            by (nonlinear_arith);
        assert(0 <= a <= ad && 0 <= b <= bd) by {
            lemma_floor_div(bd * ra, rb);
        }
        let from_a = a * s / ra;
        let from_b = b * s / rb;
        lemma_floor_div(a * s, ra);
        lemma_floor_div(b * s, rb);
        lemma_floor_div_at_least(ad * rb, ra, u64::MAX + 1);
        lemma_floor_div_at_least(a * s, ra, u64::MAX + 1);
        lemma_floor_div_at_least(b * s, rb, u64::MAX + 1);
        assert(a * s <= ad * s && b * s <= bd * s) by (nonlinear_arith)
            requires
                0 <= a <= ad,
                0 <= b <= bd,
                0 <= s,
        ;
        let lp = if from_a <= from_b { from_a } else { from_b };
        assert(lp * ra <= a * s && lp * rb <= b * s) by (nonlinear_arith)
            requires
                lp <= from_a,
                lp <= from_b,
                from_a * ra <= a * s,
                from_b * rb <= b * s,
                ra > 0,
                rb > 0,
        ;
        if ad <= ra && bd <= rb {
            assert(ad * rb <= ra * rb && a * s <= ra * s && b * s <= rb * s) by (nonlinear_arith)
                requires
                    0 <= a <= ad <= ra,
                    0 <= b <= bd <= rb,
                    0 <= s,
                    0 <= rb,
            ;
            lemma_multiply_divide_le(ad * rb, ra, rb);
            lemma_multiply_divide_le(a * s, ra, s);
            lemma_multiply_divide_le(b * s, rb, s);
        }
    }
}

/// The first deposit mints the integer square root of the product of its two amounts.
pub proof fn lemma_initial_liquidity_outcome(amount_a: u64, amount_b: u64)
    ensures
        is_isqrt(initial_liquidity(amount_a, amount_b) as int, amount_a * amount_b),
        initial_liquidity(amount_a, amount_b) <= u64::MAX,
{
    lemma_initial_liquidity_fits(amount_a, amount_b);
}

/// The liquidity for a deposit of `amount_a` and `amount_b` into a pool: `DivideByZero` when
/// the first reserve is empty; when it succeeds, both reserves are nonempty and the result
/// is the largest liquidity covered by both proportional shares of the supply.
pub proof fn lemma_lp_amount_outcome(
    amount_a: u64,
    amount_b: u64,
    reserve_a: u64,
    reserve_b: u64,
    lp_supply: u64,
)
    ensures
        reserve_a == 0 ==> lp_amount_result(amount_a, amount_b, reserve_a, reserve_b, lp_supply)
            == Err::<u64, AMMError>(AMMError::DivideByZero),
        reserve_a > 0 && amount_a * lp_supply >= (u64::MAX + 1) * reserve_a ==> lp_amount_result(
            amount_a,
            amount_b,
            reserve_a,
            reserve_b,
            lp_supply,
        ) == Err::<u64, AMMError>(AMMError::Overflow),
        reserve_a > 0 && amount_a * lp_supply < (u64::MAX + 1) * reserve_a && reserve_b == 0
            ==> lp_amount_result(amount_a, amount_b, reserve_a, reserve_b, lp_supply) == Err::<
            u64,
            AMMError,
        >(AMMError::DivideByZero),
        reserve_a > 0 && amount_a * lp_supply < (u64::MAX + 1) * reserve_a && reserve_b > 0
            && amount_b * lp_supply >= (u64::MAX + 1) * reserve_b ==> lp_amount_result(
            amount_a,
            amount_b,
            reserve_a,
            reserve_b,
            lp_supply,
        ) == Err::<u64, AMMError>(AMMError::Overflow),
        reserve_a > 0 && amount_a * lp_supply < (u64::MAX + 1) * reserve_a && reserve_b > 0
            && amount_b * lp_supply < (u64::MAX + 1) * reserve_b ==> lp_amount_result(
            amount_a,
            amount_b,
            reserve_a,
            reserve_b,
            lp_supply,
        ) is Ok,
        lp_amount_result(amount_a, amount_b, reserve_a, reserve_b, lp_supply) matches Ok(lp) ==> (
        reserve_a > 0 && reserve_b > 0 && is_largest_share(
            lp as int,
            amount_a as int,
            amount_b as int,
            reserve_a as int,
            reserve_b as int,
            lp_supply as int,
        )),
{
    lemma_mul_div_outcome(amount_a, lp_supply, reserve_a);
    lemma_mul_div_outcome(amount_b, lp_supply, reserve_b);
    if let Ok(lp) = lp_amount_result(amount_a, amount_b, reserve_a, reserve_b, lp_supply) {
        let from_a = mul_div_result(amount_a, lp_supply, reserve_a)->Ok_0;
        let from_b = mul_div_result(amount_b, lp_supply, reserve_b)->Ok_0;
        assert(lp * reserve_a <= amount_a * lp_supply && lp * reserve_b <= amount_b * lp_supply)
            by (nonlinear_arith)
            requires
                lp <= from_a,
                lp <= from_b,
                from_a * reserve_a <= amount_a * lp_supply,
                from_b * reserve_b <= amount_b * lp_supply,
        ;
    }
}

/// Burning `lp_amount` of `lp_supply` liquidity: refused with `InsufficientSupply` exactly when
/// `lp_amount` is zero or above the supply; otherwise each payout is the proportional share
/// of its reserve rounded down, `amount * lp_supply <= lp_amount * reserve < (amount + 1) * lp_supply`.
pub proof fn lemma_withdraw_outcome(lp_amount: u64, reserve_a: u64, reserve_b: u64, lp_supply: u64)
    ensures
        (withdraw_liquidity_result(lp_amount, reserve_a, reserve_b, lp_supply) == Err::<(u64, u64), AMMError>(
            AMMError::InsufficientSupply)) <==> !(0 < lp_amount <= lp_supply),
        0 < lp_amount <= lp_supply ==> withdraw_liquidity_result(
            lp_amount,
            reserve_a,
            reserve_b,
            lp_supply,
        ) is Ok,
        withdraw_liquidity_result(lp_amount, reserve_a, reserve_b, lp_supply) matches Ok((a, b)) ==> {
            &&& a * lp_supply <= lp_amount * reserve_a < (a + 1) * lp_supply
            &&& b * lp_supply <= lp_amount * reserve_b < (b + 1) * lp_supply
        },
        (withdraw_plan_result(lp_amount, reserve_a, reserve_b, lp_supply) == Err::<(u64, u64), AMMError>(
            AMMError::InvalidArguments)) <==> lp_amount == 0,
        lp_amount > 0 ==> withdraw_plan_result(lp_amount, reserve_a, reserve_b, lp_supply)
            == withdraw_liquidity_result(lp_amount, reserve_a, reserve_b, lp_supply),
{
    if 0 < lp_amount <= lp_supply {
        lemma_mul_div_outcome(lp_amount, reserve_a, lp_supply);
        lemma_mul_div_outcome(lp_amount, reserve_b, lp_supply);
        assert(lp_amount * reserve_a <= lp_supply * reserve_a && lp_amount * reserve_b <= lp_supply
            * reserve_b) by (nonlinear_arith)
            requires
                lp_amount <= lp_supply,
        ;
        lemma_multiply_divide_le(lp_amount * reserve_a, lp_supply as int, reserve_a as int);
        lemma_multiply_divide_le(lp_amount * reserve_b, lp_supply as int, reserve_b as int);
        lemma_floor_div(lp_amount * reserve_a, lp_supply as int);
        lemma_floor_div(lp_amount * reserve_b, lp_supply as int);
    }
}

/// A deposit request is refused with `InvalidArguments` exactly when a desired amount is
/// zero; otherwise it is the deposit split, accepted only when it moves a positive amount of
/// each token and mints positive liquidity, and refused with `InvalidAmount` otherwise.
pub proof fn lemma_add_liquidity_plan_outcome(
    amount_a_desired: u64,
    amount_b_desired: u64,
    vault_a: u64,
    vault_b: u64,
    lp_supply: u64,
)
    ensures
        (add_liquidity_plan_result(amount_a_desired, amount_b_desired, vault_a, vault_b, lp_supply)
            == Err::<(u64, u64, u64), AMMError>(AMMError::InvalidArguments)) <==> (amount_a_desired
            == 0 || amount_b_desired == 0),
        add_liquidity_plan_result(amount_a_desired, amount_b_desired, vault_a, vault_b, lp_supply) matches Ok(
            (a, b, lp),
        ) ==> a > 0 && b > 0 && lp > 0 && add_liquidity_result(
            amount_a_desired,
            amount_b_desired,
            vault_a,
            vault_b,
            lp_supply,
        ) == Ok::<(u64, u64, u64), AMMError>((a, b, lp)),
        (amount_a_desired > 0 && amount_b_desired > 0) ==> (add_liquidity_result(
            amount_a_desired,
            amount_b_desired,
            vault_a,
            vault_b,
            lp_supply,
        ) matches Ok((a, b, lp)) ==> (a > 0 && b > 0 && lp > 0 ==> add_liquidity_plan_result(
            amount_a_desired,
            amount_b_desired,
            vault_a,
            vault_b,
            lp_supply,
        ) == Ok::<(u64, u64, u64), AMMError>((a, b, lp)))),
{
    lemma_add_liquidity_facts(amount_a_desired, amount_b_desired, vault_a, vault_b, lp_supply);
}

/// Key order is lexicographic from the first byte: for keys of equal length, an empty key
/// precedes nothing, and otherwise `a` precedes `b` exactly when its first byte is smaller,
/// or the first bytes agree and the rest of `a` precedes the rest of `b`.
pub proof fn lemma_key_order_from_first_byte(a: Seq<u8>, b: Seq<u8>)
    requires
        a.len() == b.len(),
    ensures
        a.len() == 0 ==> !key_precedes(a, b),
        a.len() > 0 ==> (key_precedes(a, b) <==> (a[0] < b[0] || (a[0] == b[0] && key_precedes(
            a.drop_first(),
            b.drop_first(),
        )))),
{
    if a.len() > 0 {
        let ta = a.drop_first();
        let tb = b.drop_first();
        if key_precedes(a, b) {
            let i = choose|i: int|
                #![trigger a[i], b[i]]
                0 <= i < a.len() && i < b.len() && a[i] < b[i] && forall|j: int|
                    0 <= j < i ==> #[trigger] a[j] == #[trigger] b[j];
            if i > 0 {
                assert(a[0] == b[0]);
                assert(ta[i - 1] == a[i] && tb[i - 1] == b[i]);
                assert forall|j: int| 0 <= j < i - 1 implies #[trigger] ta[j] == #[trigger] tb[j] by {
                    assert(ta[j] == a[j + 1] && tb[j] == b[j + 1]);
                    assert(a[j + 1] == b[j + 1]);
                }
                assert(key_precedes(ta, tb));
            }
        }
        if a[0] < b[0] {
            assert(key_precedes(a, b));
        } else if a[0] == b[0] && key_precedes(ta, tb) {
            let k = choose|i: int|
                #![trigger ta[i], tb[i]]
                0 <= i < ta.len() && i < tb.len() && ta[i] < tb[i] && forall|j: int|
                    0 <= j < i ==> #[trigger] ta[j] == #[trigger] tb[j];
            assert(a[k + 1] == ta[k] && b[k + 1] == tb[k]);
            assert forall|j: int| 0 <= j < k + 1 implies #[trigger] a[j] == #[trigger] b[j] by {
                if j > 0 {
                    assert(ta[j - 1] == a[j] && tb[j - 1] == b[j]);
                }
            }
            assert(key_precedes(a, b));
        }
    }
}

/// No key precedes itself, and of two keys at most one precedes the other.
pub proof fn lemma_key_order_asymmetric(a: Seq<u8>, b: Seq<u8>)
    ensures
        key_precedes(a, b) ==> !key_precedes(b, a),
{
    if key_precedes(a, b) && key_precedes(b, a) {
        let i = choose|i: int|
            #![trigger a[i], b[i]]
            0 <= i < a.len() && i < b.len() && a[i] < b[i] && forall|j: int|
                0 <= j < i ==> #[trigger] a[j] == #[trigger] b[j];
        let k = choose|i: int|
            #![trigger b[i], a[i]]
            0 <= i < b.len() && i < a.len() && b[i] < a[i] && forall|j: int|
                0 <= j < i ==> #[trigger] b[j] == #[trigger] a[j];
        if i < k {
            assert(b[i] == a[i]);
        } else if k < i {
            assert(a[k] == b[k]);
        }
    }
}

/// A pool is created exactly when the first mint's key precedes the second's and the fee is
/// below `BASIS_POINTS`; the new pool accounts for empty reserves and keeps the given fee and
/// bump seeds. Every refusal is `InvalidArguments`.
pub proof fn lemma_create_pool_outcome(
    mint_a: Seq<u8>,
    mint_b: Seq<u8>,
    fee: u16,
    liquidity_pool_mint_bump: u8,
    bump: u8,
)
    ensures
        (create_pool_result(mint_a, mint_b, fee, liquidity_pool_mint_bump, bump) is Ok) <==> (
        key_precedes(mint_a, mint_b) && fee < BASIS_POINTS),
        create_pool_result(mint_a, mint_b, fee, liquidity_pool_mint_bump, bump) matches Ok(config)
            ==> config == (LiquidityPoolConfig {
            vault_a: 0,
            vault_b: 0,
            fee,
            liquidity_pool_mint_bump,
            bump,
        }),
        create_pool_result(mint_a, mint_b, fee, liquidity_pool_mint_bump, bump) is Err
            ==> create_pool_result(mint_a, mint_b, fee, liquidity_pool_mint_bump, bump)
            == Err::<LiquidityPoolConfig, AMMError>(AMMError::InvalidArguments),
{
}

} // verus!
