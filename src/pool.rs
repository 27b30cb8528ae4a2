//! The pool aggregate and its four state transitions. Every operation
//! validates before it mutates: on `Err` the pool is left as it was.

use vstd::prelude::*;

use crate::model::{
    fee_at, lemma_fraction_below_whole, lemma_fraction_bounded, lemma_fraction_whole,
    lemma_product_fits_u128, lp_unit_price, minted_for, net_of_fee, pool_value, pro_rata,
    staked_value, FULL_FEE,
};
use crate::units::{
    LpTokenAmount, Percentage, Price, StakedTokenAmount, TokenAmount, SCALING_FACTOR,
};

verus! {

/// A liquidity pool: reserves of the underlying and of the staked token,
/// the LP token supply, and parameters fixed at construction.
#[derive(Debug)]
pub struct LpPool {
    pub price: Price,
    pub token_amount: TokenAmount,
    pub st_token_amount: StakedTokenAmount,
    pub lp_token_amount: LpTokenAmount,
    pub liquidity_target: TokenAmount,
    pub min_fee: Percentage,
    pub max_fee: Percentage,
}

/// Why an operation on the pool was refused.
#[derive(Debug, PartialEq, Eq, Structural)]
pub enum Errors {
    /// `max_fee` was below `min_fee` at construction.
    InvalidFees,
    /// A swap's gross value exceeded the token reserve.
    InsufficientLiquidity,
    /// A withdrawal asked for more LP tokens than exist.
    InsufficientLpTokens,
    /// A quantity that must be positive was zero.
    ZeroValue,
    /// An intermediate or resulting quantity did not fit its integer type,
    /// or a divisor came out as zero.
    ArithmeticOverflow,
}

impl LpPool {
    /// The pool's invariant: a positive price and liquidity target, fees
    /// in order, and no LP token exactly when both reserves are empty.
    pub open spec fn wf(&self) -> bool {
        &&& self.price.0 > 0
        &&& self.liquidity_target.0 > 0
        &&& self.min_fee.0 <= self.max_fee.0
        &&& (self.lp_token_amount.0 == 0 <==> (self.token_amount.0 == 0
            && self.st_token_amount.0 == 0))
    }

    /// The same pool with its three reserve fields replaced.
    pub open spec fn with_reserves(&self, token: int, staked: int, lp: int) -> LpPool {
        LpPool {
            price: self.price,
            token_amount: TokenAmount(token as u64),
            st_token_amount: StakedTokenAmount(staked as u64),
            lp_token_amount: LpTokenAmount(lp as u64),
            liquidity_target: self.liquidity_target,
            min_fee: self.min_fee,
            max_fee: self.max_fee,
        }
    }

    /// Underlying tokens that `lp` LP tokens withdraw.
    pub open spec fn token_share(&self, lp: int) -> int {
        pro_rata(lp, self.token_amount.0 as int, self.lp_token_amount.0 as int)
    }

    /// Staked tokens that `lp` LP tokens withdraw.
    pub open spec fn staked_share(&self, lp: int) -> int {
        pro_rata(lp, self.st_token_amount.0 as int, self.lp_token_amount.0 as int)
    }

    /// Value of the pool in underlying tokens, the staked reserve taken
    /// at the pool's price.
    pub open spec fn value(&self) -> int {
        pool_value(
            self.token_amount.0 as int,
            self.st_token_amount.0 as int,
            self.price.0 as int,
        )
    }

    /// LP tokens minted for a deposit of `amount` underlying tokens.
    pub open spec fn minted(&self, amount: int) -> int {
        minted_for(amount, self.value(), self.lp_token_amount.0 as int)
    }

    /// A deposit of `amount` keeps the reserve and the supply in range, and
    /// while LP tokens exist, the LP unit price is computable and positive.
    pub open spec fn deposit_fits(&self, amount: int) -> bool {
        &&& self.token_amount.0 + amount <= u64::MAX
        &&& self.lp_token_amount.0 > 0 ==> {
            &&& self.value() * SCALING_FACTOR <= u128::MAX
            &&& lp_unit_price(self.value(), self.lp_token_amount.0 as int) > 0
        }
        &&& self.lp_token_amount.0 + self.minted(amount) <= u64::MAX
    }

    /// Gross value in underlying tokens of swapping `staked` staked tokens.
    pub open spec fn swap_gross(&self, staked: int) -> int {
        staked_value(staked, self.price.0 as int)
    }

    /// Fee rate of this pool when `after` underlying tokens would remain.
    pub open spec fn fee_curve(&self, after: int) -> int {
        fee_at(
            self.min_fee.0 as int,
            self.max_fee.0 as int,
            self.liquidity_target.0 as int,
            after,
        )
    }

    /// Fee rate that a swap of `staked` staked tokens is charged.
    pub open spec fn swap_fee(&self, staked: int) -> int {
        self.fee_curve(self.token_amount.0 - self.swap_gross(staked))
    }

    /// Underlying tokens paid out for `staked` staked tokens.
    pub open spec fn swap_net(&self, staked: int) -> int {
        net_of_fee(self.swap_gross(staked), self.swap_fee(staked))
    }

    /// A swap of `staked` that the reserve covers also has a fee of at
    /// most one hundred percent and a staked reserve that stays in range.
    pub open spec fn swap_fits(&self, staked: int) -> bool {
        &&& self.swap_fee(staked) <= FULL_FEE
        &&& self.st_token_amount.0 + staked <= u64::MAX
    }

    /// Builds an empty pool with the given parameters.
    pub fn init(
        price: Price,
        min_fee: Percentage,
        max_fee: Percentage,
        liquidity_target: TokenAmount,
    ) -> (r: Result<Self, Errors>)
        ensures
            price.0 == 0 || liquidity_target.0 == 0 ==> r == Err::<Self, Errors>(Errors::ZeroValue),
            price.0 > 0 && liquidity_target.0 > 0 && max_fee.0 < min_fee.0 ==> r == Err::<
                Self,
                Errors,
            >(Errors::InvalidFees),
            price.0 > 0 && liquidity_target.0 > 0 && min_fee.0 <= max_fee.0 ==> r == Ok::<
                Self,
                Errors,
            >(
                (LpPool {
                    price,
                    token_amount: TokenAmount(0),
                    st_token_amount: StakedTokenAmount(0),
                    lp_token_amount: LpTokenAmount(0),
                    liquidity_target,
                    min_fee,
                    max_fee,
                }),
            ),
            r matches Ok(p) ==> p.wf(),
    {
        if price.0 == 0 || liquidity_target.0 == 0 {
            return Err(Errors::ZeroValue);
        }
        if max_fee.0 < min_fee.0 {
            return Err(Errors::InvalidFees);
        }
        Ok(LpPool {
            price,
            token_amount: TokenAmount(0),
            st_token_amount: StakedTokenAmount(0),
            lp_token_amount: LpTokenAmount(0),
            liquidity_target,
            min_fee,
            max_fee,
        })
    }

    /// Deposits `token_amount` underlying tokens and mints LP tokens for
    /// them: one for one into a pool without LP tokens, else in proportion
    /// to the value the deposit adds to the pool, rounded down.
    pub fn add_liquidity(&mut self, token_amount: TokenAmount) -> (r: Result<
        LpTokenAmount,
        Errors,
    >)
        requires
            old(self).wf(),
        ensures
            final(self).wf(),
            token_amount.0 == 0 ==> r == Err::<LpTokenAmount, Errors>(Errors::ZeroValue)
                && *final(self) == *old(self),
            token_amount.0 > 0 && !old(self).deposit_fits(token_amount.0 as int) ==> r == Err::<
                LpTokenAmount,
                Errors,
            >(Errors::ArithmeticOverflow) && *final(self) == *old(self),
            token_amount.0 > 0 && old(self).deposit_fits(token_amount.0 as int) ==> {
                let minted = old(self).minted(token_amount.0 as int);
                &&& r == Ok::<LpTokenAmount, Errors>(LpTokenAmount(minted as u64))
                &&& *final(self) == old(self).with_reserves(
                    old(self).token_amount.0 + token_amount.0,
                    old(self).st_token_amount.0 as int,
                    old(self).lp_token_amount.0 + minted,
                )
            },
            token_amount.0 > 0 && old(self).lp_token_amount.0 == 0 ==> r == Ok::<
                LpTokenAmount,
                Errors,
            >(LpTokenAmount(token_amount.0)),
    {
        let amount = token_amount.0;
        if amount == 0 {
            return Err(Errors::ZeroValue);
        }
        let supply = self.lp_token_amount.0;
        let minted: u64 = if supply == 0 {
            amount
        } else {
            proof {
                lemma_product_fits_u128(self.st_token_amount.0, self.price.0);
            }
            let staked_worth = (self.st_token_amount.0 as u128) * (self.price.0 as u128) / (
            SCALING_FACTOR as u128);
            let total = self.token_amount.0 as u128 + staked_worth;
            let scaled = match total.checked_mul(SCALING_FACTOR as u128) {
                Some(v) => v,
                None => return Err(Errors::ArithmeticOverflow),
            };
            let lp_price = scaled / (supply as u128);
            if lp_price == 0 {
                return Err(Errors::ArithmeticOverflow);
            }
            let minted_wide = (amount as u128) * (SCALING_FACTOR as u128) / lp_price;
            if minted_wide > u64::MAX as u128 {
                return Err(Errors::ArithmeticOverflow);
            }
            minted_wide as u64
        };
        if amount > u64::MAX - self.token_amount.0 || minted > u64::MAX - supply {
            return Err(Errors::ArithmeticOverflow);
        }
        self.token_amount.0 = self.token_amount.0 + amount;
        self.lp_token_amount.0 = supply + minted;
        Ok(LpTokenAmount(minted))
    }

    /// Burns `lp_token_amount` LP tokens and pays out the same share of
    /// both reserves, rounded down.
    pub fn remove_liquidity(&mut self, lp_token_amount: LpTokenAmount) -> (r: Result<
        (TokenAmount, StakedTokenAmount),
        Errors,
    >)
        requires
            old(self).wf(),
        ensures
            final(self).wf(),
            lp_token_amount.0 == 0 ==> r == Err::<(TokenAmount, StakedTokenAmount), Errors>(
                Errors::ZeroValue,
            ) && *final(self) == *old(self),
            lp_token_amount.0 > old(self).lp_token_amount.0 ==> r == Err::<
                (TokenAmount, StakedTokenAmount),
                Errors,
            >(Errors::InsufficientLpTokens) && *final(self) == *old(self),
            0 < lp_token_amount.0 <= old(self).lp_token_amount.0 ==> {
                let token_out = old(self).token_share(lp_token_amount.0 as int);
                let staked_out = old(self).staked_share(lp_token_amount.0 as int);
                &&& r == Ok::<(TokenAmount, StakedTokenAmount), Errors>(
                    (TokenAmount(token_out as u64), StakedTokenAmount(staked_out as u64)),
                )
                &&& 0 <= token_out <= old(self).token_amount.0
                &&& 0 <= staked_out <= old(self).st_token_amount.0
                &&& *final(self) == old(self).with_reserves(
                    old(self).token_amount.0 - token_out,
                    old(self).st_token_amount.0 - staked_out,
                    old(self).lp_token_amount.0 - lp_token_amount.0,
                )
            },
            lp_token_amount.0 > 0 && lp_token_amount.0 == old(self).lp_token_amount.0 ==> {
                &&& final(self).token_amount.0 == 0
                &&& final(self).st_token_amount.0 == 0
                &&& final(self).lp_token_amount.0 == 0
            },
    {
        let burned = lp_token_amount.0;
        if burned == 0 {
            return Err(Errors::ZeroValue);
        }
        let supply = self.lp_token_amount.0;
        if burned > supply {
            return Err(Errors::InsufficientLpTokens);
        }
        let token_reserve = self.token_amount.0;
        let staked_reserve = self.st_token_amount.0;
        proof {
            lemma_product_fits_u128(burned, token_reserve);
            lemma_product_fits_u128(burned, staked_reserve);
            lemma_fraction_bounded(burned as int, supply as int, token_reserve as int);
            lemma_fraction_bounded(burned as int, supply as int, staked_reserve as int);
            lemma_fraction_whole(supply as int, token_reserve as int);
            lemma_fraction_whole(supply as int, staked_reserve as int);
            if burned < supply && token_reserve > 0 {
                lemma_fraction_below_whole(burned as int, supply as int, token_reserve as int);
            }
            if burned < supply && staked_reserve > 0 {
                lemma_fraction_below_whole(burned as int, supply as int, staked_reserve as int);
            }
        }
        let token_out = ((burned as u128) * (token_reserve as u128) / (supply as u128)) as u64;
        let staked_out = ((burned as u128) * (staked_reserve as u128) / (supply as u128)) as u64;
        self.token_amount.0 = token_reserve - token_out;
        self.st_token_amount.0 = staked_reserve - staked_out;
        self.lp_token_amount.0 = supply - burned;
        Ok((TokenAmount(token_out), StakedTokenAmount(staked_out)))
    }
    /// Fee rate for a swap that would leave `amount_after` underlying tokens.
    fn fee_for(&self, amount_after: u64) -> (fee: u64)
        requires
            self.min_fee.0 <= self.max_fee.0,
        ensures
            fee == self.fee_curve(amount_after as int),
            self.min_fee.0 <= fee <= self.max_fee.0,
    {
        let target = self.liquidity_target.0;
        if amount_after >= target {
            return self.min_fee.0;
        }
        let spread = self.max_fee.0 - self.min_fee.0;
        proof {
            lemma_product_fits_u128(spread, amount_after);
            lemma_fraction_bounded(amount_after as int, target as int, spread as int);
        }
        let rise = (spread as u128) * (amount_after as u128) / (target as u128);
        self.max_fee.0 - rise as u64
    }

    /// Exchanges `staked_token_amount` staked tokens for underlying tokens
    /// at the pool's price, less a fee that grows as the swap drains the
    /// token reserve below the liquidity target. A pool without LP tokens
    /// refuses every swap.
    pub fn swap(&mut self, staked_token_amount: StakedTokenAmount) -> (r: Result<
        TokenAmount,
        Errors,
    >)
        requires
            old(self).wf(),
        ensures
            final(self).wf(),
            staked_token_amount.0 == 0 ==> r == Err::<TokenAmount, Errors>(Errors::ZeroValue)
                && *final(self) == *old(self),
            staked_token_amount.0 > 0 && (old(self).lp_token_amount.0 == 0 || old(self).swap_gross(
                staked_token_amount.0 as int,
            ) > old(self).token_amount.0) ==> r == Err::<TokenAmount, Errors>(
                Errors::InsufficientLiquidity,
            ) && *final(self) == *old(self),
            staked_token_amount.0 > 0 && old(self).lp_token_amount.0 > 0 && old(self).swap_gross(
                staked_token_amount.0 as int,
            ) <= old(self).token_amount.0 && !old(self).swap_fits(staked_token_amount.0 as int)
                ==> r == Err::<TokenAmount, Errors>(Errors::ArithmeticOverflow) && *final(self)
                == *old(self),
            staked_token_amount.0 > 0 && old(self).lp_token_amount.0 > 0 && old(self).swap_gross(
                staked_token_amount.0 as int,
            ) <= old(self).token_amount.0 && old(self).swap_fits(staked_token_amount.0 as int)
                ==> {
                let net = old(self).swap_net(staked_token_amount.0 as int);
                &&& r == Ok::<TokenAmount, Errors>(TokenAmount(net as u64))
                &&& 0 <= net <= old(self).swap_gross(staked_token_amount.0 as int)
                &&& *final(self) == old(self).with_reserves(
                    old(self).token_amount.0 - net,
                    old(self).st_token_amount.0 + staked_token_amount.0,
                    old(self).lp_token_amount.0 as int,
                )
            },
    {
        let staked = staked_token_amount.0;
        if staked == 0 {
            return Err(Errors::ZeroValue);
        }
        // A pool without LP tokens holds nothing to pay out, and staked
        // tokens left in it would belong to no one.
        if self.lp_token_amount.0 == 0 {
            return Err(Errors::InsufficientLiquidity);
        }
        proof {
            lemma_product_fits_u128(staked, self.price.0);
        }
        let gross_wide = (staked as u128) * (self.price.0 as u128) / (SCALING_FACTOR as u128);
        if gross_wide > self.token_amount.0 as u128 {
            return Err(Errors::InsufficientLiquidity);
        }
        let gross = gross_wide as u64;
        let amount_after = self.token_amount.0 - gross;
        let fee = self.fee_for(amount_after);
        if fee > FULL_FEE {
            return Err(Errors::ArithmeticOverflow);
        }
        if staked > u64::MAX - self.st_token_amount.0 {
            return Err(Errors::ArithmeticOverflow);
        }
        let kept = FULL_FEE - fee;
        proof {
            lemma_product_fits_u128(gross, kept);
            lemma_fraction_bounded(kept as int, FULL_FEE as int, gross as int);
        }
        let net = ((gross as u128) * (kept as u128) / (FULL_FEE as u128)) as u64;
        self.token_amount.0 = self.token_amount.0 - net;
        self.st_token_amount.0 = self.st_token_amount.0 + staked;
        Ok(TokenAmount(net))
    }
}

} // verus!
