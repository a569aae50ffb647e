use dex_farm::farm::{IssueResult, Refund};
use dex_farm::fee::{FeeDestination, FeeModule, PairFees};
use dex_farm::staking::{Staking, UNBOND_DELAY_EPOCHS};
use dex_farm::FarmError;

const WEGLD: u64 = 1;
const LP: u64 = 2;
const SFT: u64 = 9;
const OWNER: u64 = 100;
const USER: u64 = 200;
const PAIR_ADDR: u64 = 50;

fn ready_staking() -> Staking {
    let mut staking = Staking::init(WEGLD, OWNER);
    staking.set_pair_for_lp_token(LP, PAIR_ADDR);
    let refund = staking.sft_issue_callback(OWNER, IssueResult::Issued(SFT), 0, 0);
    assert_eq!(refund, None);
    staking
}

#[test]
fn stake_mints_a_position() {
    let mut staking = ready_staking();
    let receipt = staking.stake(LP, 500, 1000).unwrap();
    assert_eq!(receipt.liquidity, 1000);
    assert_eq!(receipt.sft_nonce, 1);
    assert_eq!(staking.pool.total_supply, 1000);
    assert_eq!(staking.pool.virtual_reserves, 1000);
}

#[test]
fn stake_rejects_unknown_or_worthless_deposits() {
    let mut staking = ready_staking();
    assert_eq!(staking.stake(7, 500, 1000), Err(FarmError::UnknownAsset));
    assert_eq!(staking.stake(LP, 500, 0), Err(FarmError::ZeroContribution));
    // A pair registration pointing at the null address counts as absent.
    staking.set_pair_for_lp_token(LP, 0);
    assert_eq!(staking.stake(LP, 500, 1000), Err(FarmError::UnknownAsset));
}

#[test]
fn unbond_before_release_fails_and_at_release_succeeds() {
    let mut staking = ready_staking();
    staking.stake(LP, 500, 1000).unwrap();
    staking.unstake(USER, SFT, 1, 1000, 100, 5000).unwrap();
    let release = 100 + UNBOND_DELAY_EPOCHS;
    // One epoch early: the unbond-too-early error.
    assert_eq!(
        staking.unbond(USER, LP, release - 1, 5000),
        Err(FarmError::UnbondTooEarly)
    );
    // Exactly at the release epoch: success, paying the accumulated amount.
    assert_eq!(staking.unbond(USER, LP, release, 5000), Ok(500));
    // The entry is cleared.
    assert_eq!(
        staking.unbond(USER, LP, release, 5000),
        Err(FarmError::NothingToUnbond)
    );
}

#[test]
fn repeated_unstake_accumulates_and_extends_the_release() {
    let mut staking = ready_staking();
    staking.stake(LP, 500, 1000).unwrap();
    staking.unstake(USER, SFT, 1, 400, 100, 5000).unwrap();
    staking.unstake(USER, SFT, 1, 600, 150, 5000).unwrap();
    let release = 150 + UNBOND_DELAY_EPOCHS;
    assert_eq!(
        staking.unbond(USER, LP, release - 1, 5000),
        Err(FarmError::UnbondTooEarly)
    );
    // 500 * 400 / 1000 + 500 * 600 / 1000
    assert_eq!(staking.unbond(USER, LP, release, 5000), Ok(200 + 300));
}

#[test]
fn unstake_checks_token_serial_and_balances() {
    let mut staking = ready_staking();
    staking.stake(LP, 500, 1000).unwrap();
    assert_eq!(staking.unstake(USER, 7, 1, 100, 1, 0), Err(FarmError::UnknownToken));
    assert_eq!(staking.unstake(USER, SFT, 2, 100, 1, 0), Err(FarmError::DecodingError));
    assert_eq!(
        staking.unstake(USER, SFT, 1, 1001, 1, 0),
        Err(FarmError::InsufficientBalance)
    );
    assert_eq!(staking.unstake(USER, SFT, 1, 0, 1, 0), Err(FarmError::ZeroPrincipal));
}

#[test]
fn unstake_pays_the_reward_up_front_if_funds_allow() {
    let mut staking = ready_staking();
    staking.stake(LP, 500, 1000).unwrap();
    // Simulate growth of the pool's reference value.
    staking.pool.virtual_reserves = 1500;
    // The on-hand balance cannot cover the reward: ledger drift, rejected.
    assert_eq!(
        staking.unstake(USER, SFT, 1, 1000, 1, 500),
        Err(FarmError::InsufficientBalance)
    );
    let receipt = staking.unstake(USER, SFT, 1, 1000, 1, 5000).unwrap();
    assert_eq!(receipt.reward_to_send, 500);
    assert_eq!(receipt.reward_token_id, WEGLD);
    // The principal waits in the pending entry instead.
    assert_eq!(
        staking.unbond(USER, LP, 1 + UNBOND_DELAY_EPOCHS, 5000),
        Ok(500)
    );
}

#[test]
fn unbond_requires_on_hand_balance_above_the_amount() {
    let mut staking = ready_staking();
    staking.stake(LP, 500, 1000).unwrap();
    staking.unstake(USER, SFT, 1, 1000, 1, 5000).unwrap();
    assert_eq!(
        staking.unbond(USER, LP, 1 + UNBOND_DELAY_EPOCHS, 500),
        Err(FarmError::InsufficientBalance)
    );
    assert_eq!(staking.unbond(USER, LP, 1 + UNBOND_DELAY_EPOCHS, 501), Ok(500));
}

#[test]
fn pending_entries_are_per_account_and_asset() {
    let mut staking = ready_staking();
    staking.stake(LP, 500, 1000).unwrap();
    staking.stake(LP, 500, 1000).unwrap();
    staking.unstake(USER, SFT, 1, 1000, 1, 5000).unwrap();
    staking.unstake(OWNER, SFT, 2, 1000, 1, 5000).unwrap();
    let release = 1 + UNBOND_DELAY_EPOCHS;
    assert_eq!(staking.unbond(USER, LP, release, 5000), Ok(500));
    // The other account's entry is untouched.
    assert_eq!(staking.unbond(OWNER, LP, release, 5000), Ok(500));
}

#[test]
fn sft_issue_is_owner_only_and_once() {
    let mut staking = Staking::init(WEGLD, OWNER);
    assert_eq!(staking.sft_issue(USER, 5), Err(FarmError::PermissionDenied));
    let request = staking.sft_issue(OWNER, 5).unwrap();
    assert_eq!(request.caller, OWNER);
    staking.sft_issue_callback(OWNER, IssueResult::Issued(SFT), 0, 0);
    assert_eq!(staking.sft_issue(OWNER, 5), Err(FarmError::AlreadyIssued));
}

#[test]
fn sft_issue_callback_refunds_on_failure_only() {
    let mut staking = Staking::init(WEGLD, OWNER);
    // Failure with the native fee returned: refund.
    let refund = staking.sft_issue_callback(OWNER, IssueResult::Failed, 0, 5);
    assert_eq!(refund, Some(Refund { to: OWNER, amount: 5 }));
    assert_eq!(staking.sft_staking_token_identifier, None);
    // Failure with a labeled asset returned, or nothing returned: no refund.
    assert_eq!(staking.sft_issue_callback(OWNER, IssueResult::Failed, LP, 5), None);
    assert_eq!(staking.sft_issue_callback(OWNER, IssueResult::Failed, 0, 0), None);
    // Adoption consumes the fee: no refund.
    let refund = staking.sft_issue_callback(OWNER, IssueResult::Issued(SFT), 0, 0);
    assert_eq!(refund, None);
    // A duplicate success is simply dropped: nothing adopted, nothing
    // refunded, even with a positive native payment attached.
    let refund = staking.sft_issue_callback(USER, IssueResult::Issued(77), 0, 5);
    assert_eq!(refund, None);
    assert_eq!(staking.sft_staking_token_identifier, Some(SFT));
}

#[test]
fn fee_module_is_enabled_iff_a_destination_exists() {
    let mut fees = PairFees::new();
    assert!(!fees.is_enabled());
    fees.destination_map.push(FeeDestination { address: OWNER, token: WEGLD });
    assert!(fees.is_enabled());
}
