//! Unit-tagged fixed-point quantities. Each wraps a raw `u64` that stands
//! for `value / SCALING_FACTOR` of its unit.

use vstd::prelude::*;

verus! {

/// Fixed-point denominator: five implied decimal digits.
pub const SCALING_FACTOR: u64 = 100_000;

/// Price of one staked token in underlying tokens, scaled.
#[derive(Debug)]
pub struct Price(pub u64);

/// Amount of the underlying token, scaled.
#[derive(Debug)]
pub struct TokenAmount(pub u64);

/// Amount of the staked token, scaled.
#[derive(Debug)]
pub struct StakedTokenAmount(pub u64);

/// Amount of pool-ownership (LP) tokens, scaled.
#[derive(Debug)]
pub struct LpTokenAmount(pub u64);

/// A fee rate, scaled: `100 * SCALING_FACTOR` is one hundred percent.
#[derive(Debug)]
pub struct Percentage(pub u64);

} // verus!
