//! A constant-product automated market maker: the arithmetic that prices
//! deposits, withdrawals and swaps of a two-token liquidity pool, and the
//! decisions each instruction of the pool makes before tokens move.

pub mod cp_math;
pub mod error;
pub mod instructions;
pub mod isqrt;
pub mod laws;
pub mod outcomes;
pub mod state;

pub use cp_math::{
    add_liquidity_amount, add_liquidity_result, initial_add_liquidity, initial_liquidity,
    in_after_fee, lp_amount_for_add_liquidity, lp_amount_result, mul_div, mul_div_result, sqrt,
    swap_amount, swap_amount_result, withdraw_liquidity_amount, withdraw_liquidity_result,
    BASIS_POINTS,
};
pub use error::AMMError;
pub use instructions::create_pool::{create_pool_config, create_pool_result, key_less, key_precedes};
pub use state::LiquidityPoolConfig;
pub use instructions::add_liquidity::{add_liquidity_plan_result, plan_add_liquidity};
pub use instructions::swap::{plan_swap, swap_plan_result, vaults_after_swap, SwapDirection, SwapPlan};
pub use instructions::withdraw_liquidity::withdraw_plan_result;
