use lp_pool::{
    Errors, LpPool, LpTokenAmount, Percentage, Price, StakedTokenAmount, TokenAmount,
};

fn pool(price: u64, min_fee: u64, max_fee: u64, target: u64) -> LpPool {
    LpPool::init(Price(price), Percentage(min_fee), Percentage(max_fee), TokenAmount(target))
        .expect("valid parameters")
}

fn reserves(pool: &LpPool) -> (u64, u64, u64) {
    (pool.token_amount.0, pool.st_token_amount.0, pool.lp_token_amount.0)
}

/// Pool at price 1.0 holding 100 tokens against a target of 90.
fn funded_unit_price_pool() -> LpPool {
    let mut p = pool(100_000, 10_000, 900_000, 9_000_000);
    p.add_liquidity(TokenAmount(10_000_000)).expect("deposit");
    p
}

#[test]
fn scenario_deposit_swap_deposit_swap() {
    let mut p = pool(150_000, 10_000, 900_000, 9_000_000);

    let minted = p.add_liquidity(TokenAmount(10_000_000)).unwrap();
    assert_eq!(minted.0, 10_000_000);

    // Gross 900000, reserve stays above target: the minimum fee applies.
    let net = p.swap(StakedTokenAmount(600_000)).unwrap();
    assert_eq!(net.0, 900_000 * (10_000_000 - 10_000) / 10_000_000);
    assert!(net.0 < 900_000);

    // Fees accrued to the pool, so a deposit mints fewer than one for one.
    let minted = p.add_liquidity(TokenAmount(1_000_000)).unwrap();
    assert_eq!(minted.0, 999_910);
    assert!(minted.0 < 1_000_000);

    // Gross 4500000 leaves 5600900 < target: interpolated fee.
    let reserve_before = p.token_amount.0;
    assert_eq!(reserve_before, 10_100_900);
    let after: u128 = 10_100_900 - 4_500_000;
    let fee = 900_000 - (890_000 * after / 9_000_000) as u64;
    assert_eq!(fee, 346_134);
    assert!(fee > 10_000);
    let net = p.swap(StakedTokenAmount(3_000_000)).unwrap();
    assert_eq!(net.0, (4_500_000u128 * (10_000_000 - fee as u128) / 10_000_000) as u64);
    assert_eq!(net.0, 4_344_239);
}

#[test]
fn init_accepts_equal_fees_and_checks_zero_first() {
    let p = pool(1, 5, 5, 1);
    assert_eq!(reserves(&p), (0, 0, 0));
    assert_eq!((p.min_fee.0, p.max_fee.0), (5, 5));

    let r = LpPool::init(Price(0), Percentage(10), Percentage(1), TokenAmount(0));
    assert_eq!(r.unwrap_err(), Errors::ZeroValue);
    let r = LpPool::init(Price(7), Percentage(10), Percentage(1), TokenAmount(0));
    assert_eq!(r.unwrap_err(), Errors::ZeroValue);
    let r = LpPool::init(Price(7), Percentage(10), Percentage(9), TokenAmount(3));
    assert_eq!(r.unwrap_err(), Errors::InvalidFees);
}

#[test]
fn bootstrap_mints_exactly_the_deposit() {
    for amount in [1u64, 12_345, u64::MAX] {
        let mut p = pool(150_000, 10_000, 900_000, 9_000_000);
        let minted = p.add_liquidity(TokenAmount(amount)).unwrap();
        assert_eq!(minted.0, amount);
        assert_eq!(reserves(&p), (amount, 0, amount));
    }
}

#[test]
fn zero_amounts_rejected_without_change() {
    let mut p = funded_unit_price_pool();
    p.swap(StakedTokenAmount(2_000_000)).unwrap();
    let before = reserves(&p);

    assert_eq!(p.add_liquidity(TokenAmount(0)).unwrap_err(), Errors::ZeroValue);
    assert_eq!(p.swap(StakedTokenAmount(0)).unwrap_err(), Errors::ZeroValue);
    assert_eq!(p.remove_liquidity(LpTokenAmount(0)).unwrap_err(), Errors::ZeroValue);
    assert_eq!(reserves(&p), before);
}

#[test]
fn partial_withdrawal_is_pro_rata() {
    let mut p = pool(150_000, 10_000, 900_000, 9_000_000);
    p.add_liquidity(TokenAmount(10_000_000)).unwrap();
    p.swap(StakedTokenAmount(600_000)).unwrap();
    p.add_liquidity(TokenAmount(1_000_000)).unwrap();
    let (token, staked, supply) = reserves(&p);
    assert_eq!((token, staked, supply), (10_100_900, 600_000, 10_999_910));

    let burned: u64 = 1_234_567;
    let (token_out, staked_out) = p.remove_liquidity(LpTokenAmount(burned)).unwrap();
    let expected_token = (burned as u128 * token as u128 / supply as u128) as u64;
    let expected_staked = (burned as u128 * staked as u128 / supply as u128) as u64;
    assert_eq!(token_out.0, expected_token);
    assert_eq!(staked_out.0, expected_staked);
    assert_eq!(token_out.0, 1_133_667);
    assert_eq!(staked_out.0, 67_340);
    assert_eq!(
        reserves(&p),
        (token - expected_token, staked - expected_staked, supply - burned)
    );
}

#[test]
fn full_withdrawal_empties_the_pool() {
    let mut p = funded_unit_price_pool();
    p.swap(StakedTokenAmount(3_333_333)).unwrap();
    let (token, staked, supply) = reserves(&p);
    let (token_out, staked_out) = p.remove_liquidity(LpTokenAmount(supply)).unwrap();
    assert_eq!((token_out.0, staked_out.0), (token, staked));
    assert_eq!(reserves(&p), (0, 0, 0));
}

#[test]
fn withdrawal_above_supply_rejected_without_change() {
    let mut p = funded_unit_price_pool();
    let before = reserves(&p);
    let r = p.remove_liquidity(LpTokenAmount(10_000_001));
    assert_eq!(r.unwrap_err(), Errors::InsufficientLpTokens);
    assert_eq!(reserves(&p), before);
}

#[test]
fn fee_curve_points() {
    // Leaves exactly the target: minimum fee.
    let mut p = funded_unit_price_pool();
    assert_eq!(p.swap(StakedTokenAmount(1_000_000)).unwrap().0, 999_000);

    // Leaves half the target: fee 900000 - 890000 / 2 = 455000.
    let mut p = funded_unit_price_pool();
    assert_eq!(p.swap(StakedTokenAmount(5_500_000)).unwrap().0, 5_249_750);

    // Drains the reserve: maximum fee.
    let mut p = funded_unit_price_pool();
    assert_eq!(p.swap(StakedTokenAmount(10_000_000)).unwrap().0, 9_100_000);
    assert_eq!(reserves(&p), (900_000, 10_000_000, 10_000_000));
}

#[test]
fn fee_never_falls_as_swaps_grow() {
    let mut last_fee: u128 = 0;
    for staked in (500_000u64..=10_000_000).step_by(500_000) {
        let mut p = funded_unit_price_pool();
        let net = p.swap(StakedTokenAmount(staked)).unwrap().0 as u128;
        let gross = staked as u128;
        let after = 10_000_000 - gross;
        let fee = if after >= 9_000_000 {
            10_000
        } else {
            900_000 - 890_000 * after / 9_000_000
        };
        assert_eq!(net, gross * (10_000_000 - fee) / 10_000_000);
        assert!(fee >= last_fee);
        last_fee = fee;
    }
    assert_eq!(last_fee, 900_000);
}

#[test]
fn swap_beyond_reserve_rejected_without_change() {
    let mut p = funded_unit_price_pool();
    let before = reserves(&p);
    let r = p.swap(StakedTokenAmount(10_000_001));
    assert_eq!(r.unwrap_err(), Errors::InsufficientLiquidity);
    assert_eq!(reserves(&p), before);
}

#[test]
fn fee_above_one_hundred_percent_is_an_arithmetic_fault() {
    let mut p = pool(100_000, 0, 20_000_000, 9_000_000);
    p.add_liquidity(TokenAmount(1_000_000)).unwrap();
    let before = reserves(&p);
    let r = p.swap(StakedTokenAmount(1_000_000));
    assert_eq!(r.unwrap_err(), Errors::ArithmeticOverflow);
    assert_eq!(reserves(&p), before);
}

#[test]
fn staked_reserve_overflow_is_an_arithmetic_fault() {
    let mut p = pool(1, 0, 0, 1);
    p.add_liquidity(TokenAmount(1_000_000_000_000_000)).unwrap();
    p.swap(StakedTokenAmount(u64::MAX)).unwrap();
    assert_eq!(p.st_token_amount.0, u64::MAX);
    let before = reserves(&p);
    let r = p.swap(StakedTokenAmount(1));
    assert_eq!(r.unwrap_err(), Errors::ArithmeticOverflow);
    assert_eq!(reserves(&p), before);
}

#[test]
fn token_reserve_overflow_is_an_arithmetic_fault() {
    let mut p = pool(100_000, 0, 0, 1);
    p.add_liquidity(TokenAmount(u64::MAX)).unwrap();
    let before = reserves(&p);
    let r = p.add_liquidity(TokenAmount(1));
    assert_eq!(r.unwrap_err(), Errors::ArithmeticOverflow);
    assert_eq!(reserves(&p), before);
}

#[test]
fn swap_into_pool_without_lp_tokens_rejected() {
    // Gross value rounds to zero, yet the staked token would be orphaned.
    let mut p = pool(1, 0, 0, 1);
    let r = p.swap(StakedTokenAmount(1));
    assert_eq!(r.unwrap_err(), Errors::InsufficientLiquidity);
    assert_eq!(reserves(&p), (0, 0, 0));

    // After a full withdrawal the pool is empty again and refuses swaps.
    let mut p = funded_unit_price_pool();
    p.remove_liquidity(LpTokenAmount(10_000_000)).unwrap();
    let r = p.swap(StakedTokenAmount(1));
    assert_eq!(r.unwrap_err(), Errors::InsufficientLiquidity);
    assert_eq!(reserves(&p), (0, 0, 0));
}
