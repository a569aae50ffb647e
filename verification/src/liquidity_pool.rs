//! Pool ledger: tracks the total contributed value and the total outstanding
//! shares of one pool, and converts between deposited value and shares.
//!
//! All quantities are non-negative integers; every division is an integer
//! floor division taken in multiply-then-divide order.

use vstd::prelude::*;
use vstd::arithmetic::div_mod::{
    lemma_div_multiples_vanish, lemma_div_pos_is_pos, lemma_fundamental_div_mod,
    lemma_fundamental_div_mod_converse, lemma_mod_pos_bound, lemma_multiply_divide_le,
    lemma_multiply_divide_lt,
};
use vstd::arithmetic::mul::{lemma_mul_inequality, lemma_mul_strict_inequality};
use crate::FarmError;

verus! {

/// Shares credited for a deposit of `value` into a pool holding
/// `total_value` against `total_shares` outstanding shares: one to one when
/// the pool is empty, otherwise share-weighted with a floor division.
pub open spec fn shares_for_value(value: int, total_value: int, total_shares: int) -> int {
    if total_shares == 0 {
        value
    } else {
        value * total_shares / total_value
    }
}

/// Pool value attributable to `shares` out of `total_shares` outstanding,
/// floor division in multiply-then-divide order.
pub open spec fn value_attributable(shares: int, total_value: int, total_shares: int) -> int {
    if total_shares == 0 {
        0
    } else {
        shares * total_value / total_shares
    }
}

/// Reward owed when redeeming `shares` whose recorded principal is
/// `origin_value`: the attributable value minus the principal, clamped at
/// zero when the pool has lost value.
pub open spec fn reward_amount(
    shares: int,
    origin_value: int,
    total_value: int,
    total_shares: int,
) -> int {
    let attributable = value_attributable(shares, total_value, total_shares);
    if attributable >= origin_value {
        attributable - origin_value
    } else {
        0
    }
}

/// Principal carried by `redeemed` out of the `total` share quantity of a
/// position whose recorded entry value is `entry_value`.
pub open spec fn principal_part(entry_value: int, redeemed: int, total: int) -> int {
    entry_value * redeemed / total
}

/// Floor of `a * b / c`, computed without overflow through a double-width
/// intermediate.
pub fn mul_div(a: u64, b: u64, c: u64) -> (r: u64)
    requires
        c > 0,
        a * b / (c as int) <= u64::MAX,
    ensures
        r == a * b / (c as int),
{
    proof {
        assert((a as u128) * (b as u128) <= u128::MAX) by (nonlinear_arith)
            requires
                a <= u64::MAX,
                b <= u64::MAX,
        ;
    }
    let wide: u128 = (a as u128) * (b as u128) / (c as u128);
    wide as u64
}

/// Floor of `a * b / c` at full width, for callers that cannot bound the
/// quotient in advance.
pub fn mul_div_wide(a: u64, b: u64, c: u64) -> (r: u128)
    requires
        c > 0,
    ensures
        r == a * b / (c as int),
{
    proof {
        assert((a as u128) * (b as u128) <= u128::MAX) by (nonlinear_arith)
            requires
                a <= u64::MAX,
                b <= u64::MAX,
        ;
    }
    (a as u128) * (b as u128) / (c as u128)
}

/// The shared pool ledger both the farm and the staking variant build on.
pub struct LiquidityPool {
    /// Total contributed value still in the pool, in the pool's unit of
    /// account, used as the pricing reference.
    pub virtual_reserves: u64,
    /// Total shares outstanding against `virtual_reserves`.
    pub total_supply: u64,
}

impl LiquidityPool {
    /// Conservation invariant: shares exist exactly when value does.
    pub open spec fn wf(&self) -> bool {
        self.total_supply == 0 <==> self.virtual_reserves == 0
    }

    /// An empty pool.
    pub fn new() -> (r: LiquidityPool)
        ensures
            r.virtual_reserves == 0,
            r.total_supply == 0,
            r.wf(),
    {
        LiquidityPool { virtual_reserves: 0, total_supply: 0 }
    }

    /// Shares a deposit of `value` would mint right now, without mutating.
    pub fn shares_for(&self, value: u64) -> (r: u64)
        requires
            self.wf(),
            shares_for_value(value as int, self.virtual_reserves as int, self.total_supply as int)
                <= u64::MAX,
        ensures
            r == shares_for_value(
                value as int,
                self.virtual_reserves as int,
                self.total_supply as int,
            ),
    {
        if self.total_supply == 0 {
            value
        } else {
            mul_div(value, self.total_supply, self.virtual_reserves)
        }
    }

    /// Credits a deposit of `value` and mints the corresponding shares.
    ///
    /// Rejects a zero deposit with `InvalidAmount`; on rejection nothing
    /// changes. On success the totals grow by the deposit and by the minted
    /// shares, and the conservation invariant is preserved.
    pub fn add_liquidity(&mut self, value: u64) -> (r: Result<u64, FarmError>)
        requires
            old(self).wf(),
            old(self).virtual_reserves + value <= u64::MAX,
            old(self).total_supply + shares_for_value(
                value as int,
                old(self).virtual_reserves as int,
                old(self).total_supply as int,
            ) <= u64::MAX,
        ensures
            r is Err <==> value == 0,
            r is Err ==> r == Err::<u64, FarmError>(FarmError::InvalidAmount)
                && *final(self) == *old(self),
            r matches Ok(shares) ==> {
                &&& shares == shares_for_value(
                    value as int,
                    old(self).virtual_reserves as int,
                    old(self).total_supply as int,
                )
                &&& final(self).virtual_reserves == old(self).virtual_reserves + value
                &&& final(self).total_supply == old(self).total_supply + shares
            },
            final(self).wf(),
    {
        if value == 0 {
            return Err(FarmError::InvalidAmount);
        }
        let shares = self.shares_for(value);
        self.virtual_reserves = self.virtual_reserves + value;
        self.total_supply = self.total_supply + shares;
        Ok(shares)
    }

    /// Reward that removing `liquidity` shares against a recorded principal
    /// of `initial_worth` would pay right now, without mutating.
    ///
    /// Fails with `InsufficientShares` exactly when more shares are
    /// presented than are outstanding.
    pub fn calculate_reward(&self, liquidity: u64, initial_worth: u128) -> (r: Result<
        u64,
        FarmError,
    >)
        requires
            self.wf(),
        ensures
            r is Err <==> liquidity > self.total_supply,
            r is Err ==> r == Err::<u64, FarmError>(FarmError::InsufficientShares),
            r matches Ok(reward) ==> reward == reward_amount(
                liquidity as int,
                initial_worth as int,
                self.virtual_reserves as int,
                self.total_supply as int,
            ),
    {
        if liquidity > self.total_supply {
            return Err(FarmError::InsufficientShares);
        }
        if self.total_supply == 0 {
            return Ok(0);
        }
        proof {
            lemma_attributable_le_reserves(
                liquidity as int,
                self.virtual_reserves as int,
                self.total_supply as int,
            );
        }
        let attributable = mul_div(liquidity, self.virtual_reserves, self.total_supply);
        if (attributable as u128) >= initial_worth {
            Ok(attributable - (initial_worth as u64))
        } else {
            Ok(0)
        }
    }

    /// Debits `liquidity` shares: burns them, removes the attributable
    /// value, and returns the reward over the recorded principal
    /// `initial_worth` (clamped at zero when the pool has lost value).
    ///
    /// Fails with `InsufficientShares` exactly when more shares are
    /// presented than are outstanding; on failure nothing changes.
    pub fn remove_liquidity(&mut self, liquidity: u64, initial_worth: u64) -> (r: Result<
        u64,
        FarmError,
    >)
        requires
            old(self).wf(),
        ensures
            r is Err <==> liquidity > old(self).total_supply,
            r is Err ==> r == Err::<u64, FarmError>(FarmError::InsufficientShares)
                && *final(self) == *old(self),
            r matches Ok(reward) ==> {
                &&& reward == reward_amount(
                    liquidity as int,
                    initial_worth as int,
                    old(self).virtual_reserves as int,
                    old(self).total_supply as int,
                )
                &&& final(self).total_supply == old(self).total_supply - liquidity
                &&& final(self).virtual_reserves == old(self).virtual_reserves
                    - value_attributable(
                        liquidity as int,
                        old(self).virtual_reserves as int,
                        old(self).total_supply as int,
                    )
            },
            final(self).wf(),
    {
        if liquidity > self.total_supply {
            return Err(FarmError::InsufficientShares);
        }
        if self.total_supply == 0 {
            return Ok(0);
        }
        proof {
            lemma_attributable_le_reserves(
                liquidity as int,
                self.virtual_reserves as int,
                self.total_supply as int,
            );
            if liquidity < self.total_supply {
                lemma_attributable_lt_reserves(
                    liquidity as int,
                    self.virtual_reserves as int,
                    self.total_supply as int,
                );
            }
        }
        let attributable = mul_div(liquidity, self.virtual_reserves, self.total_supply);
        let reward = if attributable >= initial_worth {
            attributable - initial_worth
        } else {
            0
        };
        self.virtual_reserves = self.virtual_reserves - attributable;
        self.total_supply = self.total_supply - liquidity;
        Ok(reward)
    }
}

/// With `liquidity` no more than the outstanding shares, the attributable
/// value never exceeds the reserves; with all shares presented it is the
/// whole reserve.
proof fn lemma_attributable_le_reserves(liquidity: int, reserves: int, supply: int)
    requires
        0 < supply,
        0 <= liquidity <= supply,
        0 <= reserves,
    ensures
        liquidity * reserves / supply <= reserves,
        liquidity == supply ==> liquidity * reserves / supply == reserves,
{
    lemma_mul_inequality(liquidity, supply, reserves);
    lemma_multiply_divide_le(liquidity * reserves, supply, reserves);
    if liquidity == supply {
        lemma_div_multiples_vanish(reserves, supply);
    }
}

/// With strictly fewer shares presented than are outstanding in a non-empty
/// pool, some value stays behind.
proof fn lemma_attributable_lt_reserves(liquidity: int, reserves: int, supply: int)
    requires
        0 < supply,
        0 <= liquidity < supply,
        0 < reserves,
    ensures
        liquidity * reserves / supply < reserves,
{
    lemma_mul_strict_inequality(liquidity, supply, reserves);
    lemma_multiply_divide_lt(liquidity * reserves, supply, reserves);
}

/// A proportional part never exceeds the whole: redeeming at most the full
/// share quantity of a position yields at most its full recorded value.
pub proof fn lemma_principal_bounded(value: int, redeemed: int, total: int)
    requires
        0 <= value,
        0 <= redeemed <= total,
        0 < total,
    ensures
        0 <= principal_part(value, redeemed, total) <= value,
{
    assert(value * redeemed <= total * value && value * redeemed >= 0) by (nonlinear_arith)
        requires
            0 <= value,
            0 <= redeemed <= total,
    ;
    lemma_multiply_divide_le(value * redeemed, total, value);
    lemma_div_pos_is_pos(value * redeemed, total);
}

/// Entering a pool and immediately redeeming the whole minted position
/// returns exactly the contributed principal and no reward: the share price
/// cannot be pushed up by the entry itself.
pub proof fn lemma_enter_exit_round_trip(value: int, total_value: int, total_shares: int)
    requires
        total_shares == 0 <==> total_value == 0,
        total_value >= 0,
        total_shares >= 0,
        value > 0,
        shares_for_value(value, total_value, total_shares) > 0,
    ensures
        principal_part(
            value,
            shares_for_value(value, total_value, total_shares),
            shares_for_value(value, total_value, total_shares),
        ) == value,
        reward_amount(
            shares_for_value(value, total_value, total_shares),
            value,
            total_value + value,
            total_shares + shares_for_value(value, total_value, total_shares),
        ) == 0,
{
    let s = shares_for_value(value, total_value, total_shares);
    assert(principal_part(value, s, s) == value) by {
        lemma_div_multiples_vanish(value, s);
        assert(s * value == value * s) by (nonlinear_arith);
    }
    // The minted shares satisfy s * total_value <= value * total_shares.
    if total_shares == 0 {
        assert(s * total_value <= value * total_shares) by (nonlinear_arith)
            requires
                total_value == 0,
                total_shares == 0,
        ;
    } else {
        lemma_fundamental_div_mod(value * total_shares, total_value);
        assert(s * total_value <= value * total_shares) by (nonlinear_arith)
            requires
                total_value > 0,
                s == value * total_shares / total_value,
                value * total_shares == total_value * (value * total_shares / total_value) + (
                value * total_shares) % total_value,
                (value * total_shares) % total_value >= 0,
        ;
    }
    // Hence the value attributable to s in the grown pool is at most value.
    assert(s * (total_value + value) <= value * (total_shares + s)) by (nonlinear_arith)
        requires
            s * total_value <= value * total_shares,
    ;
    assert(value * (total_shares + s) == (total_shares + s) * value) by (nonlinear_arith);
    lemma_multiply_divide_le(s * (total_value + value), total_shares + s, value);
    assert(value_attributable(s, total_value + value, total_shares + s) <= value);
}

/// The share price (value per share) never falls when a deposit is
/// credited: the shares minted for it are never worth more than the deposit
/// itself. Stated cross-multiplied, so no rational arithmetic is needed.
pub proof fn lemma_share_price_nondecreasing_on_add(value: int, total_value: int, total_shares: int)
    requires
        total_shares == 0 <==> total_value == 0,
        total_value >= 0,
        total_shares >= 0,
        value > 0,
    ensures
        (total_value + value) * total_shares >= total_value * (total_shares + shares_for_value(
            value,
            total_value,
            total_shares,
        )),
{
    let s = shares_for_value(value, total_value, total_shares);
    if total_shares == 0 {
        assert((total_value + value) * total_shares == 0 && total_value * (total_shares + s) == 0)
            by (nonlinear_arith)
            requires
                total_shares == 0,
                total_value == 0,
        ;
    } else {
        lemma_fundamental_div_mod(value * total_shares, total_value);
        lemma_mod_pos_bound(value * total_shares, total_value);
        assert(s * total_value <= value * total_shares) by (nonlinear_arith)
            requires
                total_value > 0,
                s == value * total_shares / total_value,
                value * total_shares == total_value * (value * total_shares / total_value) + (
                value * total_shares) % total_value,
                (value * total_shares) % total_value >= 0,
        ;
        assert((total_value + value) * total_shares >= total_value * (total_shares + s))
            by (nonlinear_arith)
            requires
                s * total_value <= value * total_shares,
        ;
    }
}

/// The share price never falls when shares are redeemed either: the value
/// debited for them is never more than their proportional worth, because the
/// attributable value is rounded down.
pub proof fn lemma_share_price_nondecreasing_on_remove(
    shares: int,
    total_value: int,
    total_shares: int,
)
    requires
        0 < total_shares,
        0 <= shares <= total_shares,
        0 <= total_value,
    ensures
        (total_value - value_attributable(shares, total_value, total_shares)) * total_shares
            >= total_value * (total_shares - shares),
{
    let attributable = shares * total_value / total_shares;
    lemma_fundamental_div_mod(shares * total_value, total_shares);
    lemma_mod_pos_bound(shares * total_value, total_shares);
    assert(attributable * total_shares <= shares * total_value) by (nonlinear_arith)
        requires
            total_shares > 0,
            attributable == shares * total_value / total_shares,
            shares * total_value == total_shares * (shares * total_value / total_shares) + (shares
                * total_value) % total_shares,
            (shares * total_value) % total_shares >= 0,
    ;
    assert((total_value - attributable) * total_shares >= total_value * (total_shares - shares))
        by (nonlinear_arith)
        requires
            attributable * total_shares <= shares * total_value,
    ;
}

/// Splitting one partial exit into two loses or gains nothing beyond a
/// single unit of floor-division slack: the two principals sum to the joint
/// principal or fall one short of it.
pub proof fn lemma_partial_exit_split(entry_value: int, k1: int, k2: int, total: int)
    requires
        entry_value >= 0,
        k1 >= 0,
        k2 >= 0,
        total > 0,
    ensures
        principal_part(entry_value, k1, total) + principal_part(entry_value, k2, total)
            <= principal_part(entry_value, k1 + k2, total),
        principal_part(entry_value, k1 + k2, total) <= principal_part(entry_value, k1, total)
            + principal_part(entry_value, k2, total) + 1,
{
    let a = entry_value * k1;
    let b = entry_value * k2;
    assert(a >= 0 && b >= 0) by (nonlinear_arith)
        requires
            entry_value >= 0,
            k1 >= 0,
            k2 >= 0,
            a == entry_value * k1,
            b == entry_value * k2,
    ;
    lemma_fundamental_div_mod(a, total);
    lemma_fundamental_div_mod(b, total);
    lemma_mod_pos_bound(a, total);
    lemma_mod_pos_bound(b, total);
    let qa = a / total;
    let qb = b / total;
    let ra = a % total;
    let rb = b % total;
    assert(entry_value * (k1 + k2) == a + b) by (nonlinear_arith)
        requires
            a == entry_value * k1,
            b == entry_value * k2,
    ;
    if ra + rb < total {
        assert(a + b == (qa + qb) * total + (ra + rb)) by (nonlinear_arith)
            requires
                a == total * qa + ra,
                b == total * qb + rb,
        ;
        lemma_fundamental_div_mod_converse(a + b, total, qa + qb, ra + rb);
    } else {
        assert(a + b == (qa + qb + 1) * total + (ra + rb - total)) by (nonlinear_arith)
            requires
                a == total * qa + ra,
                b == total * qb + rb,
        ;
        lemma_fundamental_div_mod_converse(a + b, total, qa + qb + 1, ra + rb - total);
    }
}

} // verus!
