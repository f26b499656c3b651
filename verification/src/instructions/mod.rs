pub mod add_liquidity;
pub mod create_pool;
pub mod swap;
pub mod withdraw_liquidity;
