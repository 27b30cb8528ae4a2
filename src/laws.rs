//! Properties of the fee curve that `LpPool::swap` charges, proved for
//! every well-formed pool.

use vstd::prelude::*;

use crate::model::{lemma_fraction_bounded, lemma_fraction_monotonic, net_of_fee};
use crate::pool::LpPool;

verus! {

/// The fee never falls as the reserve left after a swap shrinks, and it
/// stays between `min_fee` and `max_fee`.
pub proof fn lemma_fee_non_decreasing_as_reserve_falls(pool: LpPool, lower: int, higher: int)
    requires
        pool.wf(),
        0 <= lower <= higher,
    ensures
        pool.fee_curve(higher) <= pool.fee_curve(lower),
        pool.min_fee.0 <= pool.fee_curve(lower) <= pool.max_fee.0,
        pool.min_fee.0 <= pool.fee_curve(higher) <= pool.max_fee.0,
{
    let target = pool.liquidity_target.0 as int;
    let spread = pool.max_fee.0 - pool.min_fee.0;
    if lower < target {
        lemma_fraction_bounded(lower, target, spread);
    }
    if higher < target {
        lemma_fraction_bounded(higher, target, spread);
        lemma_fraction_monotonic(spread, lower, higher, target);
    }
}

/// At or above the liquidity target the fee is `min_fee`; with the
/// reserve drained to zero it is `max_fee`.
pub proof fn lemma_fee_at_curve_ends(pool: LpPool, after: int)
    requires
        pool.wf(),
        after >= pool.liquidity_target.0,
    ensures
        pool.fee_curve(after) == pool.min_fee.0,
        pool.fee_curve(0) == pool.max_fee.0,
{
}

/// A swap that leaves at least the liquidity target is charged exactly
/// `min_fee`; one that drains the token reserve to zero is charged exactly
/// `max_fee`. These are the fee and payout that `LpPool::swap` states.
pub proof fn lemma_swap_fee_at_curve_ends(pool: LpPool, staked: int)
    requires
        pool.wf(),
        0 <= pool.swap_gross(staked) <= pool.token_amount.0,
    ensures
        pool.token_amount.0 - pool.swap_gross(staked) >= pool.liquidity_target.0 ==> {
            &&& pool.swap_fee(staked) == pool.min_fee.0
            &&& pool.swap_net(staked) == net_of_fee(pool.swap_gross(staked), pool.min_fee.0 as int)
        },
        pool.swap_gross(staked) == pool.token_amount.0 ==> {
            &&& pool.swap_fee(staked) == pool.max_fee.0
            &&& pool.swap_net(staked) == net_of_fee(pool.swap_gross(staked), pool.max_fee.0 as int)
        },
{
}

/// Above zero, the fee falls strictly below `max_fee` once the drop from
/// `max_fee` that the curve gives is at least one unit, that is once
/// `(max_fee - min_fee) * after >= liquidity_target`.
pub proof fn lemma_fee_below_max_when_reserve_left(pool: LpPool, after: int)
    requires
        pool.wf(),
        0 < after,
        (pool.max_fee.0 - pool.min_fee.0) * after >= pool.liquidity_target.0,
    ensures
        pool.fee_curve(after) < pool.max_fee.0,
{
    let target = pool.liquidity_target.0 as int;
    let spread = pool.max_fee.0 - pool.min_fee.0;
    if after < target {
        lemma_fraction_monotonic(1, target, spread * after, target);
        vstd::arithmetic::div_mod::lemma_div_by_multiple(1, target);
        vstd::arithmetic::mul::lemma_mul_is_commutative(spread, after);
    } else {
        assert(spread > 0) by (nonlinear_arith)
            requires
                spread >= 0,
                spread * after >= target,
                target > 0,
        ;
    }
}

} // verus!
