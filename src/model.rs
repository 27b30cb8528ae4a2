//! The pool's formulas as functions on mathematical integers, and the
//! arithmetic facts that bound them. Every formula multiplies before it
//! divides, and every division truncates.

use vstd::arithmetic::div_mod::{
    lemma_div_by_multiple, lemma_div_by_multiple_is_strongly_ordered, lemma_div_is_ordered,
};
use vstd::arithmetic::mul::{
    lemma_mul_inequality, lemma_mul_is_commutative, lemma_mul_strict_inequality,
    lemma_mul_upper_bound,
};
use vstd::prelude::*;

use crate::units::SCALING_FACTOR;

verus! {

/// A fee of one hundred percent, in the scaled units of `Percentage`.
pub const FULL_FEE: u64 = 100 * SCALING_FACTOR;

/// Value in underlying tokens of `staked` staked tokens at `price`.
pub open spec fn staked_value(staked: int, price: int) -> int {
    staked * price / SCALING_FACTOR as int
}

/// Total value in underlying tokens of a token reserve and a staked
/// reserve, the latter valued at `price`.
pub open spec fn pool_value(token: int, staked: int, price: int) -> int {
    token + staked_value(staked, price)
}

/// Value of one LP token, scaled, when `lp_supply` of them share `value`.
pub open spec fn lp_unit_price(value: int, lp_supply: int) -> int {
    value * SCALING_FACTOR as int / lp_supply
}

/// LP tokens minted for a deposit of `amount`: one for one while no LP
/// token exists, else the deposit divided by the LP unit price.
pub open spec fn minted_for(amount: int, value: int, lp_supply: int) -> int {
    if lp_supply == 0 {
        amount
    } else {
        amount * SCALING_FACTOR as int / lp_unit_price(value, lp_supply)
    }
}

/// The share of `reserve` that `part` out of `supply` LP tokens stands for.
pub open spec fn pro_rata(part: int, reserve: int, supply: int) -> int {
    part * reserve / supply
}

/// Fee rate charged when the token reserve left after a swap is
/// `after`: `min_fee` at or above `target`, rising linearly below it to
/// reach `max_fee` at zero.
pub open spec fn fee_at(min_fee: int, max_fee: int, target: int, after: int) -> int {
    if after >= target {
        min_fee
    } else {
        max_fee - (max_fee - min_fee) * after / target
    }
}

/// What is left of `gross` once a fee rate of `fee` is taken off it.
pub open spec fn net_of_fee(gross: int, fee: int) -> int {
    gross * (FULL_FEE - fee) / FULL_FEE as int
}

/// The product of two `u64` values fits in a `u128`.
pub proof fn lemma_product_fits_u128(a: u64, b: u64)
    ensures
        0 <= a * b <= u128::MAX,
{
    lemma_mul_upper_bound(a as int, u64::MAX as int, b as int, u64::MAX as int);
}

/// Scaling `x` by a fraction `part / whole` of at most one gives at most `x`.
pub proof fn lemma_fraction_bounded(part: int, whole: int, x: int)
    requires
        0 <= part <= whole,
        0 < whole,
        0 <= x,
    ensures
        0 <= part * x / whole <= x,
        part * x / whole == x * part / whole,
{
    lemma_mul_is_commutative(part, x);
    lemma_mul_inequality(0, part, x);
    lemma_mul_inequality(part, whole, x);
    lemma_div_is_ordered(0, part * x, whole);
    lemma_div_is_ordered(part * x, whole * x, whole);
    lemma_mul_is_commutative(whole, x);
    lemma_div_by_multiple(x, whole);
}

/// Scaling `x` by `whole / whole` gives `x` back.
pub proof fn lemma_fraction_whole(whole: int, x: int)
    requires
        0 < whole,
        0 <= x,
    ensures
        whole * x / whole == x,
{
    lemma_mul_is_commutative(whole, x);
    lemma_div_by_multiple(x, whole);
}

/// Scaling a positive `x` by a fraction `part / whole` below one gives
/// less than `x`.
pub proof fn lemma_fraction_below_whole(part: int, whole: int, x: int)
    requires
        0 <= part < whole,
        0 < x,
    ensures
        part * x / whole < x,
{
    lemma_mul_strict_inequality(part, whole, x);
    lemma_mul_is_commutative(whole, x);
    lemma_div_by_multiple_is_strongly_ordered(part * x, x * whole, x, whole);
    lemma_div_by_multiple(x, whole);
}

/// A truncated fraction of `x` grows with its numerator.
pub proof fn lemma_fraction_monotonic(x: int, a: int, b: int, whole: int)
    requires
        0 <= x,
        a <= b,
        0 < whole,
    ensures
        x * a / whole <= x * b / whole,
{
    lemma_mul_inequality(a, b, x);
    lemma_mul_is_commutative(a, x);
    lemma_mul_is_commutative(b, x);
    lemma_div_is_ordered(x * a, x * b, whole);
}

} // verus!
