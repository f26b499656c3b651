use cp_amm::{
    add_liquidity_amount, initial_add_liquidity, lp_amount_for_add_liquidity, mul_div, sqrt,
    swap_amount, withdraw_liquidity_amount, AMMError, BASIS_POINTS,
};

#[test]
fn mul_div_rounds_down() {
    assert_eq!(mul_div(10, 20, 3), Ok(66));
    assert_eq!(mul_div(7, 1, 7), Ok(1));
    assert_eq!(mul_div(0, 5, 9), Ok(0));
}

#[test]
fn mul_div_uses_wide_product() {
    assert_eq!(mul_div(u64::MAX, u64::MAX, u64::MAX), Ok(u64::MAX));
    assert_eq!(mul_div(u64::MAX, 4, 8), Ok(u64::MAX / 2));
}

#[test]
fn mul_div_divide_by_zero() {
    assert_eq!(mul_div(1, 2, 0), Err(AMMError::DivideByZero));
}

#[test]
fn mul_div_overflow() {
    assert_eq!(mul_div(u64::MAX, u64::MAX, 1), Err(AMMError::Overflow));
    assert_eq!(mul_div(u64::MAX, 2, 1), Err(AMMError::Overflow));
}

#[test]
fn sqrt_small_values() {
    let expected: [u128; 17] = [0, 1, 1, 1, 2, 2, 2, 2, 2, 3, 3, 3, 3, 3, 3, 3, 4];
    for (n, r) in expected.iter().enumerate() {
        assert_eq!(sqrt(n as u128), *r);
    }
}

#[test]
fn sqrt_large_values() {
    assert_eq!(sqrt(1_000_000_000_000), 1_000_000);
    assert_eq!(sqrt(999_999_999_999), 999_999);
    assert_eq!(sqrt(u128::MAX - 1), u64::MAX as u128);
    assert_eq!(sqrt(u128::MAX), u64::MAX as u128);
    let m = u64::MAX as u128;
    assert_eq!(sqrt(m * m), m);
    assert_eq!(sqrt(m * m - 1), m - 1);
}

#[test]
fn sqrt_is_floor_root() {
    for n in [5u128, 26, 99, 100, 101, 12345, 1 << 70, (1 << 100) + 7] {
        let r = sqrt(n);
        assert!(r * r <= n);
        assert!((r + 1) * (r + 1) > n);
    }
}

#[test]
fn initial_liquidity_is_geometric_mean() {
    assert_eq!(initial_add_liquidity(100, 400), Ok(200));
    assert_eq!(initial_add_liquidity(2, 3), Ok(2));
    assert_eq!(initial_add_liquidity(0, 1000), Ok(0));
    assert_eq!(initial_add_liquidity(u64::MAX, u64::MAX), Ok(u64::MAX));
}

#[test]
fn lp_amount_takes_smaller_share() {
    assert_eq!(lp_amount_for_add_liquidity(100, 200, 1000, 2000, 500), Ok(50));
    assert_eq!(lp_amount_for_add_liquidity(100, 100, 1000, 2000, 500), Ok(25));
    assert_eq!(lp_amount_for_add_liquidity(100, 100, 2000, 1000, 500), Ok(25));
}

#[test]
fn lp_amount_errors() {
    assert_eq!(lp_amount_for_add_liquidity(1, 1, 0, 1, 1), Err(AMMError::DivideByZero));
    assert_eq!(lp_amount_for_add_liquidity(1, 1, 1, 0, 1), Err(AMMError::DivideByZero));
    assert_eq!(lp_amount_for_add_liquidity(u64::MAX, 1, 1, 1, u64::MAX), Err(AMMError::Overflow));
}

#[test]
fn add_liquidity_into_empty_pool() {
    assert_eq!(add_liquidity_amount(100, 400, 0, 0, 0), Ok((100, 400, 200)));
    assert_eq!(add_liquidity_amount(9, 4, 5, 0, 7), Ok((9, 4, 6)));
    assert_eq!(add_liquidity_amount(9, 4, 5, 8, 0), Ok((9, 4, 6)));
}

#[test]
fn add_liquidity_a_side_binds() {
    assert_eq!(add_liquidity_amount(100, 400, 1000, 2000, 500), Ok((100, 200, 50)));
}

#[test]
fn add_liquidity_b_side_binds() {
    assert_eq!(add_liquidity_amount(100, 100, 1000, 2000, 500), Ok((50, 100, 25)));
}

#[test]
fn add_liquidity_overflow() {
    assert_eq!(add_liquidity_amount(u64::MAX, 1, 1, u64::MAX, 1), Err(AMMError::Overflow));
    assert_eq!(add_liquidity_amount(1000, 1000, 1, 1, u64::MAX), Err(AMMError::Overflow));
}

#[test]
fn add_liquidity_no_dilution() {
    let (ra, rb, s) = (1_003u64, 2_011u64, 997u64);
    let (a, b, lp) = add_liquidity_amount(777, 1_234, ra, rb, s).unwrap();
    assert!(a <= 777 && b <= 1_234);
    assert!((lp as u128) * (ra as u128) <= (a as u128) * (s as u128));
    assert!((lp as u128) * (rb as u128) <= (b as u128) * (s as u128));
}

#[test]
fn withdraw_proportional_share() {
    assert_eq!(withdraw_liquidity_amount(50, 1000, 2000, 500), Ok((100, 200)));
    assert_eq!(withdraw_liquidity_amount(1, 10, 10, 3), Ok((3, 3)));
}

#[test]
fn withdraw_whole_supply_empties_reserves() {
    assert_eq!(withdraw_liquidity_amount(500, 1234, 5678, 500), Ok((1234, 5678)));
    assert_eq!(withdraw_liquidity_amount(u64::MAX, u64::MAX, 1, u64::MAX), Ok((u64::MAX, 1)));
}

#[test]
fn withdraw_insufficient_supply() {
    assert_eq!(withdraw_liquidity_amount(0, 10, 10, 10), Err(AMMError::InsufficientSupply));
    assert_eq!(withdraw_liquidity_amount(11, 10, 10, 10), Err(AMMError::InsufficientSupply));
    assert_eq!(withdraw_liquidity_amount(1, 10, 10, 0), Err(AMMError::InsufficientSupply));
}

#[test]
fn swap_with_fee() {
    assert_eq!(swap_amount(1000, 10_000, 10_000, 30), Ok(906));
}

#[test]
fn swap_without_fee() {
    assert_eq!(swap_amount(100, 100, 100, 0), Ok(50));
    assert_eq!(swap_amount(0, 100, 100, 0), Ok(0));
}

#[test]
fn swap_full_fee_pays_nothing() {
    assert_eq!(swap_amount(1000, 10, 10, BASIS_POINTS as u16), Ok(0));
}

#[test]
fn swap_insufficient_supply() {
    assert_eq!(swap_amount(1, 0, 10, 30), Err(AMMError::InsufficientSupply));
    assert_eq!(swap_amount(1, 10, 0, 30), Err(AMMError::InsufficientSupply));
}

#[test]
fn swap_empty_reserve_refused_for_any_fee() {
    assert_eq!(swap_amount(1, 0, 10, u16::MAX), Err(AMMError::InsufficientSupply));
    assert_eq!(swap_amount(1, 10, 0, 10_001), Err(AMMError::InsufficientSupply));
}

#[test]
fn swap_keeps_constant_product() {
    let (rin, rout) = (12_345u64, 67_890u64);
    for amount_in in [1u64, 10, 999, 12_345, 1_000_000, u64::MAX / 2] {
        let out = swap_amount(amount_in, rin, rout, 25).unwrap();
        assert!(out < rout);
        let before = (rin as u128) * (rout as u128);
        let after = (rin as u128 + amount_in as u128) * ((rout - out) as u128);
        assert!(after >= before);
    }
}

#[test]
fn swap_huge_amounts_do_not_overflow() {
    assert_eq!(swap_amount(u64::MAX, 1, u64::MAX, 0), Ok(u64::MAX - 1));
}
