use dex_farm::farm::{ContributionStep, DecompositionStep, Farm, OracleQuery, TokenAmountPair};
use dex_farm::FarmError;

const UNIT: u64 = 1;
const LP: u64 = 2;
const TOKEN_A: u64 = 3;
const TOKEN_B: u64 = 4;
const OWNER: u64 = 100;
const ROUTER: u64 = 101;
const USER: u64 = 200;
const PAIR_ADDR: u64 = 50;
const ORACLE_ADDR: u64 = 51;

fn lp_farm() -> Farm {
    Farm::init(UNIT, ROUTER, true, OWNER)
}

#[test]
fn unit_of_account_resolves_to_itself() {
    // An asset equal to the unit of account, in a pool without
    // paired-liquidity accounting, is worth its own amount unchanged.
    let farm = Farm::init(UNIT, ROUTER, false, OWNER);
    let step = farm.get_farm_contribution(UNIT, 1234).unwrap();
    assert_eq!(step, ContributionStep::Resolved(1234));
}

#[test]
fn unknown_asset_has_no_route() {
    let farm = Farm::init(UNIT, ROUTER, false, OWNER);
    assert_eq!(farm.get_farm_contribution(LP, 10), Err(FarmError::UnknownAsset));
    let lp = lp_farm();
    // In a paired-liquidity pool even the unit of account needs a registration.
    assert_eq!(lp.get_farm_contribution(UNIT, 10), Err(FarmError::UnknownAsset));
}

#[test]
fn registered_pair_is_queried_for_decomposition() {
    let mut farm = lp_farm();
    farm.add_accepted_pair(OWNER, PAIR_ADDR, LP).unwrap();
    let step = farm.get_farm_contribution(LP, 10).unwrap();
    assert_eq!(step, ContributionStep::QueryPair(PAIR_ADDR));
}

#[test]
fn decomposition_with_unit_constituent_skips_the_oracle() {
    let mut farm = lp_farm();
    // Even with an oracle registered, a constituent equal to the unit of
    // account settles directly.
    farm.add_oracle_pair(OWNER, TOKEN_A, UNIT, ORACLE_ADDR).unwrap();
    let first = TokenAmountPair { token_id: UNIT, amount: 70 };
    let second = TokenAmountPair { token_id: TOKEN_A, amount: 30 };
    let step = farm.contribution_from_decomposition(first, second, 100).unwrap();
    assert_eq!(step, DecompositionStep::Resolved(70));
    // The second constituent settles too when the first is foreign.
    let step = farm.contribution_from_decomposition(second, first, 100).unwrap();
    assert_eq!(step, DecompositionStep::Resolved(70));
}

#[test]
fn oracle_route_is_used_when_no_constituent_matches() {
    let mut farm = lp_farm();
    farm.add_oracle_pair(OWNER, TOKEN_B, UNIT, ORACLE_ADDR).unwrap();
    let first = TokenAmountPair { token_id: TOKEN_A, amount: 70 };
    let second = TokenAmountPair { token_id: TOKEN_B, amount: 30 };
    // The first constituent has no route, so the second one's oracle is
    // chosen, quoting the full deposited amount.
    let step = farm.contribution_from_decomposition(first, second, 100).unwrap();
    assert_eq!(
        step,
        DecompositionStep::QueryOracle(OracleQuery {
            token_to_ask: TOKEN_B,
            amount_in: 100,
            oracle_address: ORACLE_ADDR,
        })
    );
}

#[test]
fn first_constituent_oracle_wins_over_second() {
    let mut farm = lp_farm();
    farm.add_oracle_pair(OWNER, TOKEN_A, UNIT, ORACLE_ADDR).unwrap();
    farm.add_oracle_pair(OWNER, TOKEN_B, UNIT, ORACLE_ADDR + 1).unwrap();
    let first = TokenAmountPair { token_id: TOKEN_A, amount: 70 };
    let second = TokenAmountPair { token_id: TOKEN_B, amount: 30 };
    let step = farm.contribution_from_decomposition(first, second, 100).unwrap();
    assert_eq!(
        step,
        DecompositionStep::QueryOracle(OracleQuery {
            token_to_ask: TOKEN_A,
            amount_in: 100,
            oracle_address: ORACLE_ADDR,
        })
    );
}

#[test]
fn no_route_for_either_constituent_fails() {
    let farm = lp_farm();
    let first = TokenAmountPair { token_id: TOKEN_A, amount: 70 };
    let second = TokenAmountPair { token_id: TOKEN_B, amount: 30 };
    assert_eq!(
        farm.contribution_from_decomposition(first, second, 100),
        Err(FarmError::NoPriceRoute)
    );
}

#[test]
fn oracle_registration_serves_both_orderings() {
    let mut farm = lp_farm();
    farm.add_oracle_pair(OWNER, TOKEN_A, UNIT, ORACLE_ADDR).unwrap();
    // Registering the reversed ordering is refused: the route already serves
    // both directions.
    assert_eq!(
        farm.add_oracle_pair(OWNER, UNIT, TOKEN_A, ORACLE_ADDR),
        Err(FarmError::OracleAlreadyRegistered)
    );
    // And removal under the reversed ordering removes the route whole.
    farm.remove_oracle_pair(OWNER, UNIT, TOKEN_A, ORACLE_ADDR).unwrap();
    assert_eq!(
        farm.remove_oracle_pair(OWNER, TOKEN_A, UNIT, ORACLE_ADDR),
        Err(FarmError::OracleNotRegistered)
    );
}

#[test]
fn oracle_removal_checks_the_address() {
    let mut farm = lp_farm();
    farm.add_oracle_pair(OWNER, TOKEN_A, UNIT, ORACLE_ADDR).unwrap();
    assert_eq!(
        farm.remove_oracle_pair(OWNER, TOKEN_A, UNIT, ORACLE_ADDR + 1),
        Err(FarmError::OracleAddressMismatch)
    );
    // Other routes survive a removal.
    farm.add_oracle_pair(OWNER, TOKEN_B, UNIT, ORACLE_ADDR + 1).unwrap();
    farm.remove_oracle_pair(OWNER, TOKEN_A, UNIT, ORACLE_ADDR).unwrap();
    let first = TokenAmountPair { token_id: TOKEN_B, amount: 1 };
    let second = TokenAmountPair { token_id: TOKEN_A, amount: 1 };
    assert_eq!(
        farm.contribution_from_decomposition(first, second, 100).unwrap(),
        DecompositionStep::QueryOracle(OracleQuery {
            token_to_ask: TOKEN_B,
            amount_in: 100,
            oracle_address: ORACLE_ADDR + 1,
        })
    );
}

#[test]
fn pair_registration_is_guarded() {
    let mut farm = lp_farm();
    assert_eq!(farm.add_accepted_pair(USER, PAIR_ADDR, LP), Err(FarmError::PermissionDenied));
    assert_eq!(farm.add_accepted_pair(OWNER, 0, LP), Err(FarmError::ZeroAddress));
    assert_eq!(farm.add_accepted_pair(OWNER, PAIR_ADDR, 0), Err(FarmError::NotLabeledAsset));
    farm.add_accepted_pair(OWNER, PAIR_ADDR, LP).unwrap();
    assert_eq!(
        farm.add_accepted_pair(OWNER, PAIR_ADDR + 1, LP),
        Err(FarmError::PairAlreadyRegistered)
    );
    let mut plain = Farm::init(UNIT, ROUTER, false, OWNER);
    assert_eq!(plain.add_accepted_pair(OWNER, PAIR_ADDR, LP), Err(FarmError::NotPairedPool));
}

#[test]
fn pair_removal_is_guarded_and_exact() {
    let mut farm = lp_farm();
    farm.add_accepted_pair(OWNER, PAIR_ADDR, LP).unwrap();
    assert_eq!(
        farm.remove_accepted_pair(OWNER, PAIR_ADDR, TOKEN_A),
        Err(FarmError::PairNotRegistered)
    );
    assert_eq!(
        farm.remove_accepted_pair(OWNER, PAIR_ADDR + 1, LP),
        Err(FarmError::PairAddressMismatch)
    );
    farm.remove_accepted_pair(OWNER, PAIR_ADDR, LP).unwrap();
    assert_eq!(farm.get_farm_contribution(LP, 10), Err(FarmError::UnknownAsset));
}

#[test]
fn registry_endpoints_respect_the_pause_gate() {
    let mut farm = lp_farm();
    farm.pause(OWNER).unwrap();
    assert_eq!(farm.add_accepted_pair(OWNER, PAIR_ADDR, LP), Err(FarmError::NotActive));
    assert_eq!(
        farm.add_oracle_pair(OWNER, TOKEN_A, UNIT, ORACLE_ADDR),
        Err(FarmError::NotActive)
    );
    assert_eq!(
        farm.remove_oracle_pair(OWNER, TOKEN_A, UNIT, ORACLE_ADDR),
        Err(FarmError::NotActive)
    );
    assert_eq!(farm.remove_accepted_pair(OWNER, PAIR_ADDR, LP), Err(FarmError::NotActive));
}

#[test]
fn accepted_tokens_listing_matches_the_pool_kind() {
    let mut farm = lp_farm();
    farm.add_accepted_pair(OWNER, PAIR_ADDR, LP).unwrap();
    farm.add_accepted_pair(OWNER, PAIR_ADDR + 1, TOKEN_A).unwrap();
    assert_eq!(farm.get_all_accepted_tokens(), vec![LP, TOKEN_A]);
    let plain = Farm::init(UNIT, ROUTER, false, OWNER);
    assert_eq!(plain.get_all_accepted_tokens(), vec![UNIT]);
}
