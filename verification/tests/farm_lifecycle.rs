use dex_farm::farm::{Farm, IssueResult, Refund, RolesResult, EXIT_FARM_NO_PENALTY_MIN_EPOCHS};
use dex_farm::FarmError;

const UNIT: u64 = 1; // the pool's unit of account
const LP: u64 = 2; // a paired-liquidity asset
const FARM_TOKEN: u64 = 9; // the issued position token class
const OWNER: u64 = 100;
const ROUTER: u64 = 101;
const USER: u64 = 200;

fn issued_farm() -> Farm {
    let mut farm = Farm::init(UNIT, ROUTER, false, OWNER);
    let refund = farm.issue_callback(OWNER, IssueResult::Issued(FARM_TOKEN), 0, 0);
    assert_eq!(refund, None);
    farm
}

#[test]
fn enter_then_full_exit_returns_principal_and_no_reward() {
    let mut farm = issued_farm();
    let receipt = farm.enter_farm(UNIT, 1000, 1000, 10).unwrap();
    assert_eq!(receipt.liquidity, 1000);
    assert_eq!(receipt.farm_token_nonce, 1);
    // Exit long after entry so no penalty applies.
    let exit = farm
        .exit_farm(FARM_TOKEN, receipt.farm_token_nonce, receipt.liquidity, 1000)
        .unwrap();
    assert_eq!(exit.farmed_token_to_send, 1000); // principal == V
    assert_eq!(exit.reward_to_send, 0); // no reward accrued
    assert_eq!(exit.farmed_token_id, UNIT);
    assert_eq!(exit.reward_token_id, UNIT);
    assert_eq!(farm.pool.total_supply, 0);
    assert_eq!(farm.pool.virtual_reserves, 0);
}

#[test]
fn early_exit_pays_penalty_exactly_once() {
    let mut farm = issued_farm();
    let receipt = farm.enter_farm(UNIT, 1000, 1000, 10).unwrap();
    // Epoch 11 is within the minimum holding period of the epoch-10 entry.
    assert!(10 + EXIT_FARM_NO_PENALTY_MIN_EPOCHS >= 11);
    let exit = farm.exit_farm(FARM_TOKEN, 1, 1000, 11).unwrap();
    // 10% off, applied once: 900, not 810 (twice) and not 1000 (never).
    assert_eq!(exit.farmed_token_to_send, 900);
    assert_ne!(exit.farmed_token_to_send, 810);
}

#[test]
fn penalty_is_not_idempotent() {
    let farm = issued_farm();
    let once = farm.apply_penalty(1000);
    let twice = farm.apply_penalty(once);
    assert_eq!(once, 900);
    assert_eq!(twice, 810);
    assert_ne!(twice, once);
}

#[test]
fn exit_at_threshold_is_penalized_and_after_is_not() {
    // The comparison direction penalizes a position while
    // entry + minimum holding period >= now, and exempts it after.
    let mut farm = issued_farm();
    farm.enter_farm(UNIT, 100, 100, 10).unwrap();
    farm.enter_farm(UNIT, 100, 100, 10).unwrap();
    let at_threshold = farm
        .exit_farm(FARM_TOKEN, 1, 100, 10 + EXIT_FARM_NO_PENALTY_MIN_EPOCHS)
        .unwrap();
    assert_eq!(at_threshold.farmed_token_to_send, 90);
    let past_threshold = farm
        .exit_farm(FARM_TOKEN, 2, 100, 10 + EXIT_FARM_NO_PENALTY_MIN_EPOCHS + 1)
        .unwrap();
    assert_eq!(past_threshold.farmed_token_to_send, 100);
}

#[test]
fn partial_exit_is_proportional() {
    let mut farm = issued_farm();
    let receipt = farm.enter_farm(UNIT, 800, 1000, 10).unwrap();
    assert_eq!(receipt.liquidity, 1000);
    // Redeem 300 of 1000 shares: principal = 1000 * 300 / 1000 in value,
    // origin amount = 800 * 300 / 1000.
    let exit = farm.exit_farm(FARM_TOKEN, 1, 300, 1000).unwrap();
    assert_eq!(exit.farmed_token_to_send, 800 * 300 / 1000);
    assert_eq!(exit.reward_to_send, 0);
    assert_eq!(farm.pool.total_supply, 700);
    // The record's attributes stay immutable; only its outstanding quantity
    // shrank.
    let attrs = farm.get_farm_attributes(1).unwrap();
    assert_eq!(attrs.total_amount_liquidity, 1000);
    assert_eq!(attrs.total_initial_worth, 1000);
    assert_eq!(farm.positions[0].outstanding, 700);
}

#[test]
fn quoted_rewards_match_what_exit_pays() {
    let mut farm = issued_farm();
    farm.enter_farm(UNIT, 1000, 1000, 10).unwrap();
    // Simulate reward injection: the pool's reference value grows.
    farm.pool.virtual_reserves = 1500;
    let quoted = farm.calculate_rewards_for_given_position(1, 400, 1000).unwrap();
    let exit = farm.exit_farm(FARM_TOKEN, 1, 400, 1000).unwrap();
    assert_eq!(quoted, exit.reward_to_send);
    assert_eq!(quoted, 400 * 1500 / 1000 - 400);
}

#[test]
fn quoted_rewards_apply_the_same_penalty() {
    let mut farm = issued_farm();
    farm.enter_farm(UNIT, 1000, 1000, 10).unwrap();
    farm.pool.virtual_reserves = 2000;
    let quoted = farm.calculate_rewards_for_given_position(1, 1000, 11).unwrap();
    let exit = farm.exit_farm(FARM_TOKEN, 1, 1000, 11).unwrap();
    assert_eq!(quoted, exit.reward_to_send);
    assert_eq!(quoted, (2000 - 1000) * 90 / 100);
}

#[test]
fn enter_requires_active_and_issued_and_value() {
    let mut farm = Farm::init(UNIT, ROUTER, false, OWNER);
    assert_eq!(farm.enter_farm(UNIT, 5, 5, 1), Err(FarmError::NotIssued));
    farm.issue_callback(OWNER, IssueResult::Issued(FARM_TOKEN), 0, 0);
    assert_eq!(farm.enter_farm(UNIT, 5, 0, 1), Err(FarmError::ZeroContribution));
    farm.pause(OWNER).unwrap();
    assert_eq!(farm.enter_farm(UNIT, 5, 5, 1), Err(FarmError::NotActive));
    farm.resume(OWNER).unwrap();
    assert!(farm.enter_farm(UNIT, 5, 5, 1).is_ok());
}

#[test]
fn enter_rejects_a_deposit_too_small_to_mint_a_share() {
    let mut farm = issued_farm();
    farm.enter_farm(UNIT, 1000, 1000, 1).unwrap();
    // Push the share price above 1: now a 1-unit deposit floors to 0 shares.
    farm.pool.virtual_reserves = 5000;
    assert_eq!(farm.enter_farm(UNIT, 1, 1, 1), Err(FarmError::ZeroContribution));
    // A record with zero shares or zero value is never minted.
    assert_eq!(farm.positions.len(), 1);
}

#[test]
fn exit_stays_available_while_paused() {
    let mut farm = issued_farm();
    farm.enter_farm(UNIT, 50, 50, 1).unwrap();
    farm.pause(OWNER).unwrap();
    assert!(farm.exit_farm(FARM_TOKEN, 1, 50, 100).is_ok());
}

#[test]
fn exit_rejects_wrong_token_and_bad_serial() {
    let mut farm = issued_farm();
    farm.enter_farm(UNIT, 50, 50, 1).unwrap();
    assert_eq!(farm.exit_farm(UNIT, 1, 50, 100), Err(FarmError::UnknownToken));
    assert_eq!(farm.exit_farm(FARM_TOKEN, 2, 50, 100), Err(FarmError::DecodingError));
    assert_eq!(farm.exit_farm(FARM_TOKEN, 0, 50, 100), Err(FarmError::DecodingError));
    assert_eq!(farm.exit_farm(FARM_TOKEN, 1, 51, 100), Err(FarmError::InsufficientBalance));
}

#[test]
fn exit_rejects_zero_principal_and_zero_origin() {
    let mut farm = issued_farm();
    farm.enter_farm(UNIT, 1000, 1000, 1).unwrap();
    // 0 of 1000 shares: the principal floors to zero.
    assert_eq!(farm.exit_farm(FARM_TOKEN, 1, 0, 100), Err(FarmError::ZeroPrincipal));
    // A tiny origin amount floors to zero before the principal does.
    let mut other = issued_farm();
    other.enter_farm(LP, 1, 1000, 1).unwrap();
    assert_eq!(other.exit_farm(FARM_TOKEN, 1, 500, 100), Err(FarmError::ZeroOriginAmount));
}

#[test]
fn zero_transfer_legs_are_reported_as_zero_not_errors() {
    let mut farm = issued_farm();
    farm.enter_farm(UNIT, 1000, 1000, 1).unwrap();
    let exit = farm.exit_farm(FARM_TOKEN, 1, 1000, 100).unwrap();
    // No growth: the reward leg is exactly zero and is simply skipped.
    assert_eq!(exit.reward_to_send, 0);
    assert_eq!(exit.farmed_token_to_send, 1000);
}

#[test]
fn issue_handshake_adopts_once_and_drops_duplicates() {
    let mut farm = Farm::init(UNIT, ROUTER, false, OWNER);
    let request = farm.issue_farm_token(OWNER, 5).unwrap();
    assert_eq!(request.caller, OWNER);
    assert_eq!(request.issue_cost, 5);
    let refund = farm.issue_callback(OWNER, IssueResult::Issued(FARM_TOKEN), 0, 0);
    assert_eq!(refund, None);
    assert_eq!(farm.farm_token_id, Some(FARM_TOKEN));
    // A racing duplicate result is dropped, not adopted.
    let refund = farm.issue_callback(OWNER, IssueResult::Issued(77), 0, 0);
    assert_eq!(refund, None);
    assert_eq!(farm.farm_token_id, Some(FARM_TOKEN));
    // And a second request is refused outright.
    assert_eq!(farm.issue_farm_token(OWNER, 5), Err(FarmError::AlreadyIssued));
}

#[test]
fn issue_failure_refunds_native_fee_only() {
    let mut farm = Farm::init(UNIT, ROUTER, false, OWNER);
    farm.issue_farm_token(OWNER, 5).unwrap();
    // Fee returned in native currency: refund the original caller.
    let refund = farm.issue_callback(OWNER, IssueResult::Failed, 0, 5);
    assert_eq!(refund, Some(Refund { to: OWNER, amount: 5 }));
    // Fee returned in a labeled asset, or nothing returned: no refund.
    assert_eq!(farm.issue_callback(OWNER, IssueResult::Failed, LP, 5), None);
    assert_eq!(farm.issue_callback(OWNER, IssueResult::Failed, 0, 0), None);
    assert_eq!(farm.farm_token_id, None);
}

#[test]
fn issue_checks_permissions_and_pause() {
    let mut farm = Farm::init(UNIT, ROUTER, false, OWNER);
    assert_eq!(farm.issue_farm_token(USER, 5), Err(FarmError::PermissionDenied));
    assert!(farm.issue_farm_token(ROUTER, 5).is_ok());
    farm.pause(OWNER).unwrap();
    assert_eq!(farm.issue_farm_token(OWNER, 5), Err(FarmError::NotActive));
}

#[test]
fn role_handshake_records_and_clears_the_last_error() {
    let mut farm = issued_farm();
    let token = farm.set_local_roles_farm_token(OWNER).unwrap();
    assert_eq!(token, FARM_TOKEN);
    farm.change_roles_callback(RolesResult::Failed(b"insufficient funds".to_vec()));
    assert_eq!(farm.last_error_message, b"insufficient funds".to_vec());
    farm.change_roles_callback(RolesResult::Granted);
    assert!(farm.last_error_message.is_empty());
}

#[test]
fn roles_request_needs_an_issued_token() {
    let farm = Farm::init(UNIT, ROUTER, false, OWNER);
    assert_eq!(farm.set_local_roles_farm_token(OWNER), Err(FarmError::NotIssued));
    assert_eq!(farm.set_local_roles_farm_token(USER), Err(FarmError::PermissionDenied));
}

#[test]
fn pause_and_resume_are_owner_or_router_only() {
    let mut farm = Farm::init(UNIT, ROUTER, false, OWNER);
    assert_eq!(farm.pause(USER), Err(FarmError::PermissionDenied));
    assert!(farm.is_active());
    farm.pause(ROUTER).unwrap();
    assert!(!farm.is_active());
    farm.resume(OWNER).unwrap();
    assert!(farm.is_active());
}

#[test]
fn pool_totals_getter_reports_reference_and_actual_balance() {
    let mut farm = issued_farm();
    farm.enter_farm(UNIT, 70, 70, 1).unwrap();
    let (token, (virtual_amount, actual)) = farm.get_farming_pool_token_id_and_amounts(65);
    assert_eq!(token, UNIT);
    assert_eq!(virtual_amount, 70);
    assert_eq!(actual, 65);
}
