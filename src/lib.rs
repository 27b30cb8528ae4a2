//! A single-asset liquidity pool that swaps a staked token for the
//! underlying token at a fixed price, with a fee that rises as the token
//! reserve is drained below a target, and that mints and burns LP tokens
//! in proportion to the value deposited. All quantities are fixed-point
//! integers scaled by `SCALING_FACTOR`.

pub mod laws;
pub mod model;
pub mod pool;
pub mod units;

pub use pool::{Errors, LpPool};
pub use units::{LpTokenAmount, Percentage, Price, StakedTokenAmount, TokenAmount, SCALING_FACTOR};
