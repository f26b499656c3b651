use vstd::prelude::*;

use vstd::arithmetic::div_mod::{
    lemma_fundamental_div_mod, lemma_multiply_divide_le, lemma_multiply_divide_lt,
};
use vstd::arithmetic::mul::lemma_mul_inequality;

use crate::error::AMMError;
use crate::isqrt::{
    is_isqrt, isqrt, lemma_isqrt, lemma_newton_step_decreases, lemma_newton_step_lower,
    lemma_newton_sum_fits,
};

verus! {

/// Fee denominator: fees are given in hundredths of a percent.
pub const BASIS_POINTS: u64 = 10_000;

/// `a * b / c` rounded down, or the error that the computation meets:
/// `DivideByZero` when `c` is zero, `Overflow` when the quotient does not fit a `u64`.
pub open spec fn mul_div_result(a: u64, b: u64, c: u64) -> Result<u64, AMMError> {
    if c == 0 {
        Err(AMMError::DivideByZero)
    } else if a * b / (c as int) > u64::MAX {
        Err(AMMError::Overflow)
    } else {
        Ok((a * b / (c as int)) as u64)
    }
}

proof fn lemma_u64_product_fits(a: u64, b: u64)
    ensures
        0 <= a * b <= u64::MAX * u64::MAX,
        u64::MAX * u64::MAX < u128::MAX,
{
    assert(0 <= a * b <= u64::MAX * u64::MAX) by (nonlinear_arith)
        requires
            0 <= a <= u64::MAX,
            0 <= b <= u64::MAX,
    ;
}

/// Computes `a * b / c` rounded down, in 128-bit arithmetic.
pub fn mul_div(a: u64, b: u64, c: u64) -> (r: Result<u64, AMMError>)
    ensures
        r == mul_div_result(a, b, c),
{
    if c == 0 {
        return Err(AMMError::DivideByZero);
    }
    proof {
        lemma_u64_product_fits(a, b);
    }
    let product = match (a as u128).checked_mul(b as u128) {
        Some(p) => p,
        None => return Err(AMMError::Overflow),
    };
    let quotient = product / (c as u128);
    if quotient > u64::MAX as u128 {
        return Err(AMMError::Overflow);
    }
    Ok(quotient as u64)
}

/// The integer square root of `val` (rounded down), by Newton's iteration
/// started from `val` itself.
pub fn sqrt(val: u128) -> (r: u128)
    ensures
        r == isqrt(val as nat),
        r * r <= val < (r + 1) * (r + 1),
{
    proof {
        lemma_isqrt(val as nat);
    }
    if val < 2 {
        assert(is_isqrt(val as int, val as int)) by {
            if val == 1 {
                assert(1 * 1 <= 1 < 2 * 2);
            } else {
                assert(0 * 0 <= 0 < 1 * 1);
            }
        }
        return val;
    }
    let ghost s: int = isqrt(val as nat) as int;
    assert(1 <= s <= val) by {
        if s == 0 {
            assert((s + 1) * (s + 1) == 1);
        }
        assert(s <= s * s) by (nonlinear_arith)
            requires
                s >= 1,
        ;
    }
    let mut x = val;
    // `(x + 1) / 2`, without the overflow of `x + 1` at `u128::MAX`
    let mut y = x / 2 + x % 2;
    while y < x
        invariant
            2 <= val,
            is_isqrt(s, val as int),
            s >= 1,
            s <= x <= val,
            y <= 0x8000_0000_0000_0000_0000_0000_0000_0000int,
            y == (x + val / x) / 2,
        decreases x,
    {
        proof {
            lemma_newton_step_lower(val as int, x as int, s);
            lemma_newton_sum_fits(val as int, y as int, s);
        }
        x = y;
        y = (x + val / x) / 2;
    }
    proof {
        lemma_newton_step_lower(val as int, x as int, s);
        if x > s {
            assert((s + 1) * (s + 1) <= x * x) by (nonlinear_arith)
                requires
                    0 <= s + 1 <= x,
            ;
            lemma_newton_step_decreases(val as int, x as int);
        }
    }
    x
}

/// Liquidity minted by the first deposit into a pool: the integer square
/// root of the product of the two deposited amounts.
pub open spec fn initial_liquidity(amount_a: u64, amount_b: u64) -> nat {
    isqrt((amount_a * amount_b) as nat)
}

pub proof fn lemma_initial_liquidity_fits(amount_a: u64, amount_b: u64)
    ensures
        initial_liquidity(amount_a, amount_b) <= u64::MAX,
        is_isqrt(initial_liquidity(amount_a, amount_b) as int, amount_a * amount_b),
{
    lemma_u64_product_fits(amount_a, amount_b);
    let n = (amount_a * amount_b) as nat;
    lemma_isqrt(n);
    let r = isqrt(n) as int;
    if r > u64::MAX {
        assert(r * r > u64::MAX * u64::MAX) by (nonlinear_arith)
            requires
                r > u64::MAX,
        ;
    }
}

/// Liquidity minted by the first deposit into a pool: `sqrt(amount_a * amount_b)`.
pub fn initial_add_liquidity(amount_a: u64, amount_b: u64) -> (r: Result<u64, AMMError>)
    ensures
        r == Ok::<u64, AMMError>(initial_liquidity(amount_a, amount_b) as u64),
        initial_liquidity(amount_a, amount_b) <= u64::MAX,
{
    proof {
        lemma_u64_product_fits(amount_a, amount_b);
        lemma_initial_liquidity_fits(amount_a, amount_b);
    }
    let product = match (amount_a as u128).checked_mul(amount_b as u128) {
        Some(p) => p,
        None => return Err(AMMError::Overflow),
    };
    let root = sqrt(product);
    if root > u64::MAX as u128 {
        return Err(AMMError::Overflow);
    }
    Ok(root as u64)
}

/// Liquidity minted for a deposit of `amount_a` and `amount_b` into a pool with
/// the given reserves and supply: the smaller of the two proportional shares
/// `amount_a * lp_supply / reserve_a` and `amount_b * lp_supply / reserve_b`,
/// or the first error that computing them meets.
pub open spec fn lp_amount_result(
    amount_a: u64,
    amount_b: u64,
    reserve_a: u64,
    reserve_b: u64,
    lp_supply: u64,
) -> Result<u64, AMMError> {
    match mul_div_result(amount_a, lp_supply, reserve_a) {
        Err(e) => Err(e),
        Ok(from_a) => match mul_div_result(amount_b, lp_supply, reserve_b) {
            Err(e) => Err(e),
            Ok(from_b) => Ok(if from_a <= from_b { from_a } else { from_b }),
        },
    }
}

/// Liquidity minted for a deposit into a pool that already holds liquidity.
pub fn lp_amount_for_add_liquidity(
    amount_a: u64,
    amount_b: u64,
    reserve_a: u64,
    reserve_b: u64,
    lp_supply: u64,
) -> (r: Result<u64, AMMError>)
    ensures
        r == lp_amount_result(amount_a, amount_b, reserve_a, reserve_b, lp_supply),
{
    let from_a = mul_div(amount_a, lp_supply, reserve_a)?;
    let from_b = mul_div(amount_b, lp_supply, reserve_b)?;
    Ok(if from_a <= from_b { from_a } else { from_b })
}

/// What a deposit of at most `amount_a_desired` and `amount_b_desired` into a pool
/// with reserves `reserve_a`, `reserve_b` and liquidity supply `lp_supply` takes and mints,
/// as `(amount_a, amount_b, liquidity)`.
///
/// Into a pool with an empty reserve or no supply, both desired amounts go in and
/// `sqrt(amount_a * amount_b)` is minted. Otherwise the deposit keeps the pool's ratio:
/// all of `amount_a_desired` with `amount_a_desired * reserve_b / reserve_a` of token B
/// when that is at most `amount_b_desired`, else all of `amount_b_desired` with
/// `amount_b_desired * reserve_a / reserve_b` of token A; the liquidity is the smaller of
/// the two proportional shares of the supply. `Overflow` when a quotient does not fit a `u64`.
pub open spec fn add_liquidity_result(
    amount_a_desired: u64,
    amount_b_desired: u64,
    reserve_a: u64,
    reserve_b: u64,
    lp_supply: u64,
) -> Result<(u64, u64, u64), AMMError> {
    if reserve_a == 0 || reserve_b == 0 || lp_supply == 0 {
        Ok((amount_a_desired, amount_b_desired, initial_liquidity(amount_a_desired, amount_b_desired) as u64))
    } else {
        let b_optimal = amount_a_desired * reserve_b / (reserve_a as int);
        if b_optimal > u64::MAX {
            Err(AMMError::Overflow)
        } else {
            let a: int = if b_optimal <= amount_b_desired {
                amount_a_desired as int
            } else {
                amount_b_desired * reserve_a / (reserve_b as int)
            };
            let b: int = if b_optimal <= amount_b_desired { b_optimal } else { amount_b_desired as int };
            let from_a = a * lp_supply / (reserve_a as int);
            let from_b = b * lp_supply / (reserve_b as int);
            if from_a > u64::MAX || from_b > u64::MAX {
                Err(AMMError::Overflow)
            } else {
                Ok((a as u64, b as u64, (if from_a <= from_b { from_a } else { from_b }) as u64))
            }
        }
    }
}

/// When `amount_b_desired` is the binding side, the matching amount of token A
/// is below `amount_a_desired`.
pub proof fn lemma_a_optimal_below_desired(
    amount_a_desired: u64,
    amount_b_desired: u64,
    reserve_a: u64,
    reserve_b: u64,
)
    requires
        reserve_a > 0,
        reserve_b > 0,
        amount_a_desired * reserve_b / (reserve_a as int) > amount_b_desired,
    ensures
        amount_b_desired * reserve_a / (reserve_b as int) < amount_a_desired,
{
    let p = amount_a_desired * reserve_b;
    let q = p / (reserve_a as int);
    lemma_fundamental_div_mod(p, reserve_a as int);
    assert(reserve_a * (amount_b_desired + 1) <= reserve_a * q) by {
        lemma_mul_inequality(amount_b_desired + 1, q, reserve_a as int);
        assert(reserve_a * (amount_b_desired + 1) == (amount_b_desired + 1) * reserve_a)
            by (nonlinear_arith);
        assert(reserve_a * q == q * reserve_a) by (nonlinear_arith);
    }
    assert(amount_b_desired * reserve_a < reserve_b * amount_a_desired) by (nonlinear_arith)
        requires
            p == amount_a_desired * reserve_b,
            p == reserve_a * q + p % (reserve_a as int),
            0 <= p % (reserve_a as int),
            reserve_a * (amount_b_desired + 1) <= reserve_a * q,
            reserve_a > 0,
    ;
    lemma_multiply_divide_lt(amount_b_desired * reserve_a, reserve_b as int, amount_a_desired as int);
}

/// `x / d * d <= x` for a positive divisor.
pub proof fn lemma_div_mul_le(x: int, d: int)
    requires
        0 <= x,
        0 < d,
    ensures
        (x / d) * d <= x,
        0 <= x / d,
{
    lemma_fundamental_div_mod(x, d);
    assert((x / d) * d == d * (x / d)) by (nonlinear_arith);
    assert(0 <= x / d);
}

/// A quotient `x * s / r`, scaled back by `r`, is at most `x * s`.
proof fn lemma_share_scaled_back(x: int, s: int, r: int)
    requires
        0 <= x,
        0 <= s,
        0 < r,
    ensures
        (x * s / r) * r <= x * s,
{
    assert(0 <= x * s) by (nonlinear_arith)
        requires
            0 <= x,
            0 <= s,
    ;
    lemma_div_mul_le(x * s, r);
}

/// What a deposit takes never exceeds what was offered, and the liquidity it mints
/// is never more than its proportional share of the supply.
pub proof fn lemma_add_liquidity_facts(
    amount_a_desired: u64,
    amount_b_desired: u64,
    reserve_a: u64,
    reserve_b: u64,
    lp_supply: u64,
)
    ensures
        ({
            let r = add_liquidity_result(amount_a_desired, amount_b_desired, reserve_a, reserve_b, lp_supply);
            &&& r is Err ==> r == Err::<(u64, u64, u64), AMMError>(AMMError::Overflow)
            &&& r matches Ok((a, b, _)) ==> a <= amount_a_desired && b <= amount_b_desired
            &&& (reserve_a == 0 || reserve_b == 0 || lp_supply == 0) ==> (r matches Ok((a, b, lp))
                && lp * lp <= a * b)
            &&& (reserve_a > 0 && reserve_b > 0 && lp_supply > 0) ==> (r matches Ok((a, b, lp)) ==> (
                lp * reserve_a <= a * lp_supply && lp * reserve_b <= b * lp_supply))
        }),
{
    if reserve_a == 0 || reserve_b == 0 || lp_supply == 0 {
        lemma_initial_liquidity_fits(amount_a_desired, amount_b_desired);
    } else {
        let b_optimal = amount_a_desired * reserve_b / (reserve_a as int);
        lemma_u64_product_fits(amount_a_desired, reserve_b);
        if b_optimal <= u64::MAX {
            if b_optimal > amount_b_desired {
                lemma_a_optimal_below_desired(amount_a_desired, amount_b_desired, reserve_a, reserve_b);
                lemma_u64_product_fits(amount_b_desired, reserve_a);
            }
            let a: int = if b_optimal <= amount_b_desired {
                amount_a_desired as int
            } else {
                amount_b_desired * reserve_a / (reserve_b as int)
            };
            let b: int = if b_optimal <= amount_b_desired { b_optimal } else { amount_b_desired as int };
            assert(0 <= a && 0 <= b) by {
                lemma_div_mul_le(amount_a_desired * reserve_b, reserve_a as int);
                lemma_div_mul_le(amount_b_desired * reserve_a, reserve_b as int);
            }
            let from_a = a * lp_supply / (reserve_a as int);
            let from_b = b * lp_supply / (reserve_b as int);
            lemma_share_scaled_back(a, lp_supply as int, reserve_a as int);
            lemma_share_scaled_back(b, lp_supply as int, reserve_b as int);
            let lp = if from_a <= from_b { from_a } else { from_b };
            assert(0 <= from_a && 0 <= from_b) by {
                assert(0 <= a * lp_supply && 0 <= b * lp_supply) by (nonlinear_arith)
                    requires
                        0 <= a,
                        0 <= b,
                        0 <= lp_supply,
                ;
                lemma_div_mul_le(a * lp_supply, reserve_a as int);
                lemma_div_mul_le(b * lp_supply, reserve_b as int);
            }
            lemma_mul_inequality(lp, from_a, reserve_a as int);
            lemma_mul_inequality(lp, from_b, reserve_b as int);
        }
    }
}

/// Splits a deposit into the amounts the pool takes and the liquidity it mints.
pub fn add_liquidity_amount(
    amount_a_desired: u64,
    amount_b_desired: u64,
    reserve_a: u64,
    reserve_b: u64,
    lp_supply: u64,
) -> (r: Result<(u64, u64, u64), AMMError>)
    ensures
        r == add_liquidity_result(amount_a_desired, amount_b_desired, reserve_a, reserve_b, lp_supply),
        r is Err ==> r == Err::<(u64, u64, u64), AMMError>(AMMError::Overflow),
        r matches Ok((a, b, _)) ==> a <= amount_a_desired && b <= amount_b_desired,
        (reserve_a == 0 || reserve_b == 0 || lp_supply == 0) ==> (r matches Ok((a, b, lp))
            && lp * lp <= a * b),
        (reserve_a > 0 && reserve_b > 0 && lp_supply > 0) ==> (r matches Ok((a, b, lp)) ==> (
        lp * reserve_a <= a * lp_supply && lp * reserve_b <= b * lp_supply && ((lp + 1) * reserve_a
            > a * lp_supply || (lp + 1) * reserve_b > b * lp_supply))),
{
    proof {
        crate::outcomes::lemma_add_liquidity_outcome(
            amount_a_desired,
            amount_b_desired,
            reserve_a,
            reserve_b,
            lp_supply,
        );
    }
    proof {
        lemma_add_liquidity_facts(amount_a_desired, amount_b_desired, reserve_a, reserve_b, lp_supply);
    }
    if reserve_a == 0 || reserve_b == 0 || lp_supply == 0 {
        let lp = initial_add_liquidity(amount_a_desired, amount_b_desired)?;
        return Ok((amount_a_desired, amount_b_desired, lp));
    }
    let amount_b_optimal = mul_div(amount_a_desired, reserve_b, reserve_a)?;
    if amount_b_optimal <= amount_b_desired {
        let lp = lp_amount_for_add_liquidity(
            amount_a_desired,
            amount_b_optimal,
            reserve_a,
            reserve_b,
            lp_supply,
        )?;
        Ok((amount_a_desired, amount_b_optimal, lp))
    } else {
        proof {
            lemma_a_optimal_below_desired(amount_a_desired, amount_b_desired, reserve_a, reserve_b);
        }
        let amount_a_optimal = mul_div(amount_b_desired, reserve_a, reserve_b)?;
        let lp = lp_amount_for_add_liquidity(
            amount_a_optimal,
            amount_b_desired,
            reserve_a,
            reserve_b,
            lp_supply,
        )?;
        Ok((amount_a_optimal, amount_b_desired, lp))
    }
}

/// What burning `lp_amount` of `lp_supply` liquidity pays out of reserves
/// `reserve_a` and `reserve_b`: the proportional shares `lp_amount * reserve / lp_supply`,
/// rounded down. `InsufficientSupply` unless `0 < lp_amount <= lp_supply`.
pub open spec fn withdraw_liquidity_result(
    lp_amount: u64,
    reserve_a: u64,
    reserve_b: u64,
    lp_supply: u64,
) -> Result<(u64, u64), AMMError> {
    if lp_supply >= lp_amount && lp_amount > 0 {
        Ok((
            (lp_amount * reserve_a / (lp_supply as int)) as u64,
            (lp_amount * reserve_b / (lp_supply as int)) as u64,
        ))
    } else {
        Err(AMMError::InsufficientSupply)
    }
}

/// The proportional share `lp_amount * reserve / lp_supply` of a reserve is at most the
/// reserve, and scaled back by the supply at most `lp_amount * reserve`.
proof fn lemma_withdraw_share(lp_amount: u64, reserve: u64, lp_supply: u64)
    requires
        0 < lp_amount <= lp_supply,
    ensures
        lp_amount * reserve / (lp_supply as int) <= reserve,
        (lp_amount * reserve / (lp_supply as int)) * lp_supply <= lp_amount * reserve,
        lp_amount == lp_supply ==> lp_amount * reserve / (lp_supply as int) == reserve,
{
    assert(lp_amount * reserve <= lp_supply * reserve) by (nonlinear_arith)
        requires
            lp_amount <= lp_supply,
            0 <= reserve,
    ;
    lemma_multiply_divide_le(lp_amount * reserve, lp_supply as int, reserve as int);
    lemma_share_scaled_back(lp_amount as int, reserve as int, lp_supply as int);
    if lp_amount == lp_supply {
        assert(lp_amount * reserve == reserve * lp_supply) by (nonlinear_arith)
            requires
                lp_amount == lp_supply,
        ;
        assert(lp_amount * reserve / (lp_supply as int) >= reserve) by {
            assert((reserve * lp_supply) / (lp_supply as int) == reserve as int) by (nonlinear_arith)
                requires
                    lp_supply > 0,
            ;
        }
    }
}

/// The amounts of each token that burning `lp_amount` liquidity pays out.
pub fn withdraw_liquidity_amount(
    lp_amount: u64,
    reserve_a: u64,
    reserve_b: u64,
    lp_supply: u64,
) -> (r: Result<(u64, u64), AMMError>)
    ensures
        r == withdraw_liquidity_result(lp_amount, reserve_a, reserve_b, lp_supply),
        r matches Ok((a, b)) ==> a <= reserve_a && b <= reserve_b
            && a * lp_supply <= lp_amount * reserve_a && b * lp_supply <= lp_amount * reserve_b,
        0 < lp_amount == lp_supply ==> r == Ok::<(u64, u64), AMMError>((reserve_a, reserve_b)),
{
    if !(lp_supply >= lp_amount && lp_amount > 0) {
        return Err(AMMError::InsufficientSupply);
    }
    proof {
        lemma_withdraw_share(lp_amount, reserve_a, lp_supply);
        lemma_withdraw_share(lp_amount, reserve_b, lp_supply);
    }
    let amount_a = mul_div(lp_amount, reserve_a, lp_supply)?;
    let amount_b = mul_div(lp_amount, reserve_b, lp_supply)?;
    Ok((amount_a, amount_b))
}

/// The part of `amount_in` that remains after a fee of `fee_bps` basis points, rounded down.
pub open spec fn in_after_fee(amount_in: u64, fee_bps: u16) -> int {
    amount_in * (BASIS_POINTS - fee_bps) / (BASIS_POINTS as int)
}

/// What a swap of `amount_in` into a pool with reserves `reserve_in` and `reserve_out`
/// pays out: with `f` the input after the fee, `f * reserve_out / (f + reserve_in)`,
/// rounded down. `InsufficientSupply` when either reserve is empty.
pub open spec fn swap_amount_result(
    amount_in: u64,
    reserve_in: u64,
    reserve_out: u64,
    fee_bps: u16,
) -> Result<u64, AMMError> {
    if reserve_in > 0 && reserve_out > 0 {
        let f = in_after_fee(amount_in, fee_bps);
        Ok((f * reserve_out / (f + reserve_in)) as u64)
    } else {
        Err(AMMError::InsufficientSupply)
    }
}

/// A swap pays out less than the whole output reserve, and the product of the
/// reserves after it is at least the product before it.
pub proof fn lemma_swap_facts(amount_in: u64, reserve_in: u64, reserve_out: u64, fee_bps: u16)
    requires
        fee_bps <= BASIS_POINTS,
        reserve_in > 0,
        reserve_out > 0,
    ensures
        0 <= in_after_fee(amount_in, fee_bps) <= amount_in,
        ({
            let f = in_after_fee(amount_in, fee_bps);
            let out = f * reserve_out / (f + reserve_in);
            &&& 0 <= out < reserve_out
            &&& (reserve_in + amount_in) * (reserve_out - out) >= reserve_in * reserve_out
        }),
{
    let kept = BASIS_POINTS - fee_bps;
    assert(0 <= amount_in * kept <= BASIS_POINTS * amount_in) by (nonlinear_arith)
        requires
            0 <= kept <= BASIS_POINTS,
            0 <= amount_in,
    ;
    lemma_multiply_divide_le(amount_in * kept, BASIS_POINTS as int, amount_in as int);
    lemma_div_mul_le(amount_in * kept, BASIS_POINTS as int);
    let f = in_after_fee(amount_in, fee_bps);
    let d = f + reserve_in;
    let num = f * reserve_out;
    assert(0 <= num < d * reserve_out) by (nonlinear_arith)
        requires
            0 <= f,
            d == f + reserve_in,
            num == f * reserve_out,
            reserve_in > 0,
            reserve_out > 0,
    ;
    lemma_multiply_divide_lt(num, d, reserve_out as int);
    lemma_div_mul_le(num, d);
    let out = num / d;
    assert((reserve_in + amount_in) * (reserve_out - out) >= reserve_in * reserve_out)
        by (nonlinear_arith)
        requires
            0 <= out < reserve_out,
            out * d <= num,
            d == f + reserve_in,
            num == f * reserve_out,
            0 <= f <= amount_in,
            reserve_in > 0,
    ;
}

/// The amount that a swap of `amount_in` into the pool pays out of the other reserve.
pub fn swap_amount(amount_in: u64, reserve_in: u64, reserve_out: u64, fee_bps: u16) -> (r: Result<
    u64,
    AMMError,
>)
    requires
        reserve_in > 0 && reserve_out > 0 ==> fee_bps <= BASIS_POINTS,
    ensures
        r == swap_amount_result(amount_in, reserve_in, reserve_out, fee_bps),
        r matches Ok(out) ==> out < reserve_out && (reserve_in + amount_in) * (reserve_out - out)
            >= reserve_in * reserve_out,
{
    if !(reserve_in > 0 && reserve_out > 0) {
        return Err(AMMError::InsufficientSupply);
    }
    proof {
        lemma_swap_facts(amount_in, reserve_in, reserve_out, fee_bps);
        lemma_u64_product_fits(amount_in, reserve_out);
    }
    let in_after_fee = mul_div(amount_in, BASIS_POINTS - (fee_bps as u64), BASIS_POINTS)?;
    proof {
        lemma_u64_product_fits(in_after_fee, reserve_out);
    }
    let numerator = match (in_after_fee as u128).checked_mul(reserve_out as u128) {
        Some(v) => v,
        None => return Err(AMMError::Overflow),
    };
    let denominator = match (in_after_fee as u128).checked_add(reserve_in as u128) {
        Some(v) => v,
        None => return Err(AMMError::Overflow),
    };
    let amount_out = numerator / denominator;
    if amount_out > u64::MAX as u128 {
        return Err(AMMError::Overflow);
    }
    Ok(amount_out as u64)
}

} // verus!
