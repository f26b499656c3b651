use cp_amm::{
    add_liquidity_amount, create_pool_config, key_less, plan_add_liquidity, plan_swap,
    swap_amount, withdraw_liquidity_amount, AMMError, LiquidityPoolConfig, SwapDirection,
    SwapPlan,
};

fn key(first: u8, last: u8) -> [u8; 32] {
    let mut k = [7u8; 32];
    k[0] = first;
    k[31] = last;
    k
}

#[test]
fn key_order_is_lexicographic() {
    assert!(key_less(&key(1, 9), &key(2, 0)));
    assert!(!key_less(&key(2, 0), &key(1, 9)));
    assert!(key_less(&key(1, 0), &key(1, 1)));
    assert!(!key_less(&key(1, 1), &key(1, 1)));
}

#[test]
fn create_pool_builds_empty_pool() {
    let config = create_pool_config(&key(1, 0), &key(2, 0), 30, 254, 253).unwrap();
    assert_eq!(
        config,
        LiquidityPoolConfig { vault_a: 0, vault_b: 0, fee: 30, liquidity_pool_mint_bump: 254, bump: 253 }
    );
}

#[test]
fn create_pool_rejects_unordered_mints() {
    assert_eq!(create_pool_config(&key(2, 0), &key(1, 0), 30, 1, 1), Err(AMMError::InvalidArguments));
    assert_eq!(create_pool_config(&key(1, 0), &key(1, 0), 30, 1, 1), Err(AMMError::InvalidArguments));
}

#[test]
fn create_pool_rejects_full_fee() {
    assert_eq!(create_pool_config(&key(1, 0), &key(2, 0), 10_000, 1, 1), Err(AMMError::InvalidArguments));
    assert!(create_pool_config(&key(1, 0), &key(2, 0), 9_999, 1, 1).is_ok());
}

#[test]
fn plan_add_liquidity_passes_amounts() {
    assert_eq!(plan_add_liquidity(100, 400, 1000, 2000, 500), Ok((100, 200, 50)));
    assert_eq!(plan_add_liquidity(100, 400, 0, 0, 0), Ok((100, 400, 200)));
}

#[test]
fn plan_add_liquidity_rejects_zero_desired() {
    assert_eq!(plan_add_liquidity(0, 400, 1000, 2000, 500), Err(AMMError::InvalidArguments));
    assert_eq!(plan_add_liquidity(100, 0, 1000, 2000, 500), Err(AMMError::InvalidArguments));
}

#[test]
fn plan_add_liquidity_rejects_zero_amounts() {
    // token B rounds down to nothing
    assert_eq!(plan_add_liquidity(1, 400, 1000, 10, 500), Err(AMMError::InvalidAmount));
    // nothing minted for a tiny deposit into a deep pool
    assert_eq!(plan_add_liquidity(1, 1, 1000, 1000, 1), Err(AMMError::InvalidAmount));
}

#[test]
fn plan_add_liquidity_overflow() {
    assert_eq!(plan_add_liquidity(1000, 1000, 1, 1, u64::MAX), Err(AMMError::Overflow));
}

#[test]
fn plan_swap_a_to_b() {
    assert_eq!(
        plan_swap(1000, 0, 900, 10_000, 10_000, 30),
        Ok(SwapPlan { direction: SwapDirection::AToB, amount_in: 1000, amount_out: 906 })
    );
}

#[test]
fn plan_swap_b_to_a() {
    assert_eq!(
        plan_swap(0, 500, 0, 2000, 1000, 0),
        Ok(SwapPlan { direction: SwapDirection::BToA, amount_in: 500, amount_out: 666 })
    );
}

#[test]
fn plan_swap_rejects_two_inputs_or_none() {
    assert_eq!(plan_swap(1, 1, 0, 100, 100, 0), Err(AMMError::InvalidArguments));
    assert_eq!(plan_swap(0, 0, 0, 100, 100, 0), Err(AMMError::InvalidArguments));
}

#[test]
fn plan_swap_argument_checks_come_before_fee() {
    assert_eq!(plan_swap(1, 1, 0, 100, 100, u16::MAX), Err(AMMError::InvalidArguments));
    assert_eq!(plan_swap(0, 0, 0, 100, 100, 20_000), Err(AMMError::InvalidArguments));
    assert_eq!(plan_swap(5, 0, 0, 0, 100, 20_000), Err(AMMError::InsufficientSupply));
    assert_eq!(plan_swap(0, 5, 0, 100, 0, 20_000), Err(AMMError::InsufficientSupply));
}

#[test]
fn plan_swap_requires_more_than_minimum() {
    assert_eq!(plan_swap(1000, 0, 906, 10_000, 10_000, 30), Err(AMMError::InvalidAmount));
}

#[test]
fn plan_swap_empty_vault() {
    assert_eq!(plan_swap(1000, 0, 0, 0, 10_000, 30), Err(AMMError::InsufficientSupply));
}

#[test]
fn withdraw_updates_reserves() {
    let mut config = LiquidityPoolConfig { vault_a: 1000, vault_b: 2000, fee: 30, liquidity_pool_mint_bump: 9, bump: 8 };
    assert_eq!(config.withdraw_liquidity(50, 500), Ok((100, 200)));
    assert_eq!(
        config,
        LiquidityPoolConfig { vault_a: 900, vault_b: 1800, fee: 30, liquidity_pool_mint_bump: 9, bump: 8 }
    );
}

#[test]
fn withdraw_rejects_zero_and_excess() {
    let original = LiquidityPoolConfig { vault_a: 1000, vault_b: 2000, fee: 30, liquidity_pool_mint_bump: 9, bump: 8 };
    let mut config = original;
    assert_eq!(config.withdraw_liquidity(0, 500), Err(AMMError::InvalidArguments));
    assert_eq!(config, original);
    assert_eq!(config.withdraw_liquidity(501, 500), Err(AMMError::InsufficientSupply));
    assert_eq!(config, original);
}

#[test]
fn deposit_then_withdraw_returns_no_more() {
    let (ra, rb, s) = (10_007u64, 20_011u64, 3_001u64);
    let (a, b, lp) = add_liquidity_amount(1_234, 5_678, ra, rb, s).unwrap();
    let (out_a, out_b) = withdraw_liquidity_amount(lp, ra + a, rb + b, s + lp).unwrap();
    assert!(out_a <= a && out_b <= b);
}

#[test]
fn first_deposit_then_withdraw_returns_it() {
    let (a, b, lp) = add_liquidity_amount(1_000, 4_000, 0, 0, 0).unwrap();
    assert_eq!(withdraw_liquidity_amount(lp, a, b, lp), Ok((1_000, 4_000)));
}

#[test]
fn swap_monotone_in_input() {
    let mut previous = 0;
    for amount_in in [0u64, 1, 2, 50, 51, 1000, 1001, 99_999] {
        let out = swap_amount(amount_in, 5_000, 7_000, 30).unwrap();
        assert!(out >= previous);
        previous = out;
    }
}

#[test]
fn swap_round_trip_no_gain() {
    let (ra, rb) = (10_000u64, 10_000u64);
    let out = swap_amount(1000, ra, rb, 30).unwrap();
    assert_eq!(out, 906);
    let back = swap_amount(out, rb - out, ra + 1000, 30).unwrap();
    assert_eq!(back, 993);
    assert!(back <= 1000);
}
