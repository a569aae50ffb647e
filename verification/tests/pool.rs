use dex_farm::liquidity_pool::{mul_div, mul_div_wide, LiquidityPool};
use dex_farm::FarmError;

#[test]
fn bootstrap_add_is_one_to_one() {
    let mut pool = LiquidityPool::new();
    let shares = pool.add_liquidity(1000).unwrap();
    assert_eq!(shares, 1000);
    assert_eq!(pool.virtual_reserves, 1000);
    assert_eq!(pool.total_supply, 1000);
}

#[test]
fn second_add_is_share_weighted() {
    let mut pool = LiquidityPool::new();
    let first = pool.add_liquidity(1000).unwrap();
    assert_eq!(first, 1000);
    let second = pool.add_liquidity(500).unwrap();
    assert_eq!(second, 500 * 1000 / 1000);
    assert_eq!(pool.virtual_reserves, 1500);
    assert_eq!(pool.total_supply, 1500);
}

#[test]
fn remove_without_growth_pays_no_reward() {
    let mut pool = LiquidityPool::new();
    pool.add_liquidity(1000).unwrap();
    pool.add_liquidity(500).unwrap();
    let reward = pool.remove_liquidity(500, 500).unwrap();
    assert_eq!(reward, 0);
    assert_eq!(pool.virtual_reserves, 1000);
    assert_eq!(pool.total_supply, 1000);
}

#[test]
fn reward_is_clamped_when_pool_lost_value() {
    // A position recorded at a higher principal than the pool now attributes
    // to its shares absorbs the loss: the reward is zero, never negative.
    let mut pool = LiquidityPool::new();
    pool.add_liquidity(100).unwrap();
    let reward = pool.remove_liquidity(50, 80).unwrap();
    assert_eq!(reward, 0);
    assert_eq!(pool.virtual_reserves, 50);
    assert_eq!(pool.total_supply, 50);
}

#[test]
fn zero_add_is_invalid_amount() {
    let mut pool = LiquidityPool::new();
    assert_eq!(pool.add_liquidity(0), Err(FarmError::InvalidAmount));
    assert_eq!(pool.total_supply, 0);
    assert_eq!(pool.virtual_reserves, 0);
}

#[test]
fn removing_more_shares_than_outstanding_fails() {
    let mut pool = LiquidityPool::new();
    pool.add_liquidity(10).unwrap();
    assert_eq!(pool.remove_liquidity(11, 1), Err(FarmError::InsufficientShares));
    assert_eq!(pool.total_supply, 10);
}

#[test]
fn calculate_reward_matches_remove() {
    let mut pool = LiquidityPool::new();
    pool.add_liquidity(1000).unwrap();
    // Simulate growth: a further deposit raises the value behind each share.
    pool.virtual_reserves = 2000;
    let quoted = pool.calculate_reward(400, 300).unwrap();
    let paid = pool.remove_liquidity(400, 300).unwrap();
    assert_eq!(quoted, paid);
    assert_eq!(paid, 400 * 2000 / 1000 - 300);
}

#[test]
fn conservation_shares_iff_value() {
    // total_shares == 0 <=> total_value == 0, after every operation.
    let mut pool = LiquidityPool::new();
    assert!(pool.total_supply == 0 && pool.virtual_reserves == 0);
    pool.add_liquidity(7).unwrap();
    assert!(pool.total_supply != 0 && pool.virtual_reserves != 0);
    pool.add_liquidity(3).unwrap();
    assert!(pool.total_supply != 0 && pool.virtual_reserves != 0);
    pool.remove_liquidity(5, 5).unwrap();
    assert!(pool.total_supply != 0 && pool.virtual_reserves != 0);
    pool.remove_liquidity(5, 5).unwrap();
    assert!(pool.total_supply == 0 && pool.virtual_reserves == 0);
}

#[test]
fn full_redemption_drains_the_pool() {
    let mut pool = LiquidityPool::new();
    pool.add_liquidity(123).unwrap();
    pool.add_liquidity(77).unwrap();
    let total = pool.total_supply;
    pool.remove_liquidity(total, 200).unwrap();
    assert_eq!(pool.total_supply, 0);
    assert_eq!(pool.virtual_reserves, 0);
}

#[test]
fn partial_exit_split_loses_at_most_one_unit() {
    // Exiting k1 + k2 in one go pays the same principal as two exits, up to
    // one unit of floor-division slack, and never less than their sum.
    let entry_value: u64 = 1003;
    let total: u64 = 997;
    let k1: u64 = 311;
    let k2: u64 = 455;
    let joint = mul_div(entry_value, k1 + k2, total);
    let split = mul_div(entry_value, k1, total) + mul_div(entry_value, k2, total);
    assert!(split <= joint);
    assert!(joint <= split + 1);
}

#[test]
fn mul_div_is_floor_of_product() {
    assert_eq!(mul_div(7, 3, 2), 10);
    assert_eq!(mul_div(u64::MAX, 1, 1), u64::MAX);
    assert_eq!(mul_div(u64::MAX, u64::MAX, u64::MAX), u64::MAX);
    assert_eq!(mul_div_wide(u64::MAX, u64::MAX, 1), (u64::MAX as u128) * (u64::MAX as u128));
    assert_eq!(mul_div_wide(10, 10, 3), 33);
}
