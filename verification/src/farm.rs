//! Farm variant: position lifecycle, price-resolution decisions, registries
//! of accepted paired-liquidity assets and oracle routes, and the
//! issuance/role handshake.
//!
//! Remote work (pair-contract decomposition, oracle quotes, token issuance)
//! belongs to the host: each operation that needs it either returns the query
//! to make or takes the query's answer as an argument, and every decision in
//! between is verified here.

use vstd::prelude::*;
use vstd::arithmetic::div_mod::lemma_multiply_divide_le;
use vstd::arithmetic::mul::lemma_mul_inequality;
use crate::{Address, Epoch, FarmError, TokenId, ZERO_ADDRESS, NATIVE_TOKEN};
use crate::liquidity_pool::{
    mul_div, mul_div_wide, principal_part, reward_amount, shares_for_value,
    value_attributable,
    LiquidityPool,
};

verus! {

/// Flat early-exit penalty, in percent of the paid-out amounts.
pub const PENALTY_PERCENT: u64 = 10;

/// Resource budget for one remote price query; the host caps each query it
/// makes for the library at this much, or at what remains if that is less.
pub const EXTERN_QUERY_MAX_GAS: u64 = 20000000;

/// A position younger than this many epochs pays the penalty on exit.
pub const EXIT_FARM_NO_PENALTY_MIN_EPOCHS: u64 = 3;

/// The immutable record minted with each entry: the origin asset and amount
/// deposited, its value in the pool's unit of account, the shares credited
/// for it, and the entry epoch.
#[derive(Clone, Copy, Debug, PartialEq, Eq, Structural)]
pub struct FarmTokenAttributes {
    pub farmed_token_id: TokenId,
    pub total_farmed_tokens: u64,
    pub total_initial_worth: u64,
    pub total_amount_liquidity: u64,
    pub epoch_when_entering: Epoch,
}

/// One constituent of a paired-liquidity decomposition: an asset and a
/// quantity of it.
#[derive(Clone, Copy, Debug, PartialEq, Eq, Structural)]
pub struct TokenAmountPair {
    pub token_id: TokenId,
    pub amount: u64,
}

/// A minted position: its immutable attributes and how much of its token
/// quantity is still outstanding (not yet burned).
#[derive(Clone, Copy, Debug, PartialEq, Eq, Structural)]
pub struct FarmRecord {
    pub attributes: FarmTokenAttributes,
    pub outstanding: u64,
}

/// Registry entry: a paired-liquidity asset and the pair contract that can
/// decompose it.
#[derive(Clone, Copy, Debug, PartialEq, Eq, Structural)]
pub struct PairEntry {
    pub token: TokenId,
    pub address: Address,
}

/// Registry entry: an oracle contract serving one asset pair, in both
/// orderings.
#[derive(Clone, Copy, Debug, PartialEq, Eq, Structural)]
pub struct OracleEntry {
    pub first_token: TokenId,
    pub second_token: TokenId,
    pub address: Address,
}

/// Whether a registry entry serves the pair `(a, b)`; the orderings are
/// never told apart.
pub open spec fn oracle_matches(e: OracleEntry, a: TokenId, b: TokenId) -> bool {
    (e.first_token == a && e.second_token == b) || (e.first_token == b && e.second_token == a)
}

/// Whether an oracle route is registered for the pair `(a, b)`.
pub open spec fn has_oracle(s: Seq<OracleEntry>, a: TokenId, b: TokenId) -> bool {
    exists|i: int| 0 <= i < s.len() && oracle_matches(s[i], a, b)
}

/// The address of the oracle registered for `(a, b)`; meaningful only when
/// `has_oracle` holds and the registry holds no duplicate routes.
pub open spec fn oracle_address(s: Seq<OracleEntry>, a: TokenId, b: TokenId) -> Address {
    s[choose|i: int| 0 <= i < s.len() && oracle_matches(s[i], a, b)].address
}

/// No two entries serve the same pair, in either ordering.
pub open spec fn oracle_routes_unique(s: Seq<OracleEntry>) -> bool {
    forall|i: int, j: int|
        #![trigger s[i], s[j]]
        0 <= i < j < s.len() ==> !oracle_matches(s[j], s[i].first_token, s[i].second_token)
            && !oracle_matches(s[j], s[i].second_token, s[i].first_token)
}

/// Every pair other than `(first_token, second_token)` (in either ordering)
/// keeps its oracle route (and the route's address) across a registry change
/// from `pre` to `post`.
pub open spec fn oracle_preserved_except(
    pre: Seq<OracleEntry>,
    post: Seq<OracleEntry>,
    first_token: TokenId,
    second_token: TokenId,
) -> bool {
    forall|a: TokenId, b: TokenId|
        !((a == first_token && b == second_token) || (a == second_token && b == first_token))
            ==> #[trigger] has_oracle(post, a, b) == has_oracle(pre, a, b) && (has_oracle(
            pre,
            a,
            b,
        ) ==> oracle_address(post, a, b) == oracle_address(pre, a, b))
}

/// Whether a pair contract is registered for `token`.
pub open spec fn has_accepted(s: Seq<PairEntry>, token: TokenId) -> bool {
    exists|i: int| 0 <= i < s.len() && s[i].token == token
}

/// The pair contract registered for `token`; meaningful only when
/// `has_accepted` holds and the registry keys are unique.
pub open spec fn accepted_address(s: Seq<PairEntry>, token: TokenId) -> Address {
    s[choose|i: int| 0 <= i < s.len() && s[i].token == token].address
}

/// Every asset other than `token` keeps its registration (and its
/// registered address) across a registry change from `pre` to `post`.
pub open spec fn accepted_preserved_except(
    pre: Seq<PairEntry>,
    post: Seq<PairEntry>,
    token: TokenId,
) -> bool {
    forall|t: TokenId|
        t != token ==> #[trigger] has_accepted(post, t) == has_accepted(pre, t) && (has_accepted(
            pre,
            t,
        ) ==> accepted_address(post, t) == accepted_address(pre, t))
}

/// No two entries share an asset.
pub open spec fn accepted_unique(s: Seq<PairEntry>) -> bool {
    forall|i: int, j: int|
        #![trigger s[i], s[j]]
        0 <= i < j < s.len() ==> s[i].token != s[j].token
}

/// A registered oracle route serves both orderings of its pair alike: the
/// registry cannot answer for `(a, b)` and stay silent for `(b, a)`, nor
/// name different oracles for the two.
pub proof fn lemma_oracle_route_symmetric(s: Seq<OracleEntry>, a: TokenId, b: TokenId)
    ensures
        has_oracle(s, a, b) == has_oracle(s, b, a),
        has_oracle(s, a, b) && oracle_routes_unique(s) ==> oracle_address(s, a, b)
            == oracle_address(s, b, a),
{
    assert forall|i: int| 0 <= i < s.len() && oracle_matches(s[i], a, b) implies oracle_matches(
        s[i],
        b,
        a,
    ) by {}
    assert forall|i: int| 0 <= i < s.len() && oracle_matches(s[i], b, a) implies oracle_matches(
        s[i],
        a,
        b,
    ) by {}
    if has_oracle(s, a, b) && oracle_routes_unique(s) {
        let i = choose|i: int| 0 <= i < s.len() && oracle_matches(s[i], a, b);
        let j = choose|j: int| 0 <= j < s.len() && oracle_matches(s[j], b, a);
        if i < j {
            assert(oracle_matches(s[j], s[i].first_token, s[i].second_token) || oracle_matches(
                s[j],
                s[i].second_token,
                s[i].first_token,
            ));
        } else if j < i {
            assert(oracle_matches(s[i], s[j].first_token, s[j].second_token) || oracle_matches(
                s[i],
                s[j].second_token,
                s[j].first_token,
            ));
        }
    }
}

/// Whether an exit at `current` epoch from a position entered at `entering`
/// pays the early-exit penalty. The comparison direction penalizes positions
/// younger than the minimum holding period.
pub open spec fn should_penalize(entering: int, current: int) -> bool {
    entering + EXIT_FARM_NO_PENALTY_MIN_EPOCHS >= current
}

/// The flat percentage haircut, integer floor division.
pub open spec fn penalized(amount: int) -> int {
    amount * (100 - PENALTY_PERCENT) / 100
}

/// What an exit pays out of a computed amount: the amount itself, or the
/// penalized amount for a position inside the holding period.
pub open spec fn payout(amount: int, entering: int, current: int) -> int {
    if should_penalize(entering, current) {
        penalized(amount)
    } else {
        amount
    }
}

/// What the host must do after a successful entry: transfer `liquidity`
/// units of the position token minted under `farm_token_nonce` to the
/// caller.
#[derive(Clone, Copy, Debug, PartialEq, Eq, Structural)]
pub struct EnterReceipt {
    pub farm_token_nonce: u64,
    pub liquidity: u64,
}

/// What the host must transfer after a successful exit; a zero leg is
/// simply skipped, not an error.
#[derive(Clone, Copy, Debug, PartialEq, Eq, Structural)]
pub struct ExitReceipt {
    /// Reward, paid in the pool's unit of account.
    pub reward_to_send: u64,
    /// The token the reward is paid in.
    pub reward_token_id: TokenId,
    /// Redeemed origin-asset quantity.
    pub farmed_token_to_send: u64,
    /// The origin asset it is paid in.
    pub farmed_token_id: TokenId,
}

/// First step of price resolution: either the value is already known, or
/// the host must ask the named pair contract to decompose the deposit.
#[derive(Clone, Copy, Debug, PartialEq, Eq, Structural)]
pub enum ContributionStep {
    Resolved(u64),
    QueryPair(Address),
}

/// An oracle query the host must make: ask the oracle at `oracle_address`
/// for the equivalent of `amount_in` of `token_to_ask` in the pool's unit of
/// account; the answer is the deposit's value.
#[derive(Clone, Copy, Debug, PartialEq, Eq, Structural)]
pub struct OracleQuery {
    pub token_to_ask: TokenId,
    pub amount_in: u64,
    pub oracle_address: Address,
}

/// Second step of price resolution, after a decomposition came back: either
/// a constituent was the unit of account and its amount is the value, or the
/// host must make the returned oracle query.
#[derive(Clone, Copy, Debug, PartialEq, Eq, Structural)]
pub enum DecompositionStep {
    Resolved(u64),
    QueryOracle(OracleQuery),
}

/// A token-issuance request the host must forward to the issuance
/// authority, together with the continuation data its callback needs.
#[derive(Clone, Copy, Debug, PartialEq, Eq, Structural)]
pub struct IssueRequest {
    pub caller: Address,
    pub issue_cost: u64,
}

/// What the issuance authority's callback reports.
#[derive(Clone, Copy, Debug, PartialEq, Eq, Structural)]
pub enum IssueResult {
    Issued(TokenId),
    Failed,
}

/// A compensating native-currency refund the host must pay.
#[derive(Clone, Copy, Debug, PartialEq, Eq, Structural)]
pub struct Refund {
    pub to: Address,
    pub amount: u64,
}

/// What the role-grant callback reports: success, or a failure message to
/// record.
#[derive(Debug, PartialEq, Eq)]
pub enum RolesResult {
    Granted,
    Failed(Vec<u8>),
}

/// The whole farm contract state: configuration, pause gate, pool ledger,
/// registries, and the minted position records.
pub struct Farm {
    /// Pause gate: value-moving entry points other than exit need it open.
    pub state: bool,
    /// The deployer; may administrate.
    pub owner: Address,
    /// The router contract; may administrate too.
    pub router_address: Address,
    /// The pool's unit of account.
    pub farming_pool_token_id: TokenId,
    /// The position token class, once the issuance handshake adopted one.
    pub farm_token_id: Option<TokenId>,
    /// Whether deposits are paired-liquidity assets that need decomposition
    /// rather than the unit of account itself.
    pub farm_with_lp_tokens: bool,
    /// The shared pool ledger.
    pub pool: LiquidityPool,
    /// Accepted paired-liquidity assets and their pair contracts.
    pub accepted_pairs: Vec<PairEntry>,
    /// Oracle routes, one entry per asset pair, serving both orderings.
    pub oracle_pairs: Vec<OracleEntry>,
    /// Minted position records; the record minted `n`-th answers to
    /// position-token serial number `n` (serials start at 1).
    pub positions: Vec<FarmRecord>,
    /// The last asynchronous role-grant failure, empty after a success.
    pub last_error_message: Vec<u8>,
}

impl Farm {
    /// Well-formedness: the pool conserves value against shares, registries
    /// hold no duplicate keys, and every minted record carries strictly
    /// positive value and shares with no more outstanding than was minted.
    pub open spec fn wf(&self) -> bool {
        &&& self.pool.wf()
        &&& accepted_unique(self.accepted_pairs@)
        &&& oracle_routes_unique(self.oracle_pairs@)
        &&& forall|i: int|
            0 <= i < self.positions@.len() ==> {
                let r = #[trigger] self.positions@[i];
                r.attributes.total_amount_liquidity > 0 && r.attributes.total_initial_worth > 0
                    && r.outstanding <= r.attributes.total_amount_liquidity
            }
    }

    /// Deploys a farm: active, owned by the deploying caller, with an empty
    /// pool and no position token class yet.
    pub fn init(
        farming_pool_token_id: TokenId,
        router_address: Address,
        farm_with_lp_tokens: bool,
        caller: Address,
    ) -> (r: Farm)
        ensures
            r.state,
            r.owner == caller,
            r.router_address == router_address,
            r.farming_pool_token_id == farming_pool_token_id,
            r.farm_token_id is None,
            r.farm_with_lp_tokens == farm_with_lp_tokens,
            r.pool.virtual_reserves == 0,
            r.pool.total_supply == 0,
            r.accepted_pairs@.len() == 0,
            r.oracle_pairs@.len() == 0,
            r.positions@.len() == 0,
            r.last_error_message@.len() == 0,
            r.wf(),
    {
        Farm {
            state: true,
            owner: caller,
            router_address,
            farming_pool_token_id,
            farm_token_id: None,
            farm_with_lp_tokens,
            pool: LiquidityPool::new(),
            accepted_pairs: Vec::new(),
            oracle_pairs: Vec::new(),
            positions: Vec::new(),
            last_error_message: Vec::new(),
        }
    }

    /// Whether the pause gate is open.
    pub fn is_active(&self) -> (r: bool)
        ensures
            r == self.state,
    {
        self.state
    }

    /// Only the owner or the router may administrate.
    pub fn require_permissions(&self, caller: Address) -> (r: Result<(), FarmError>)
        ensures
            r is Ok <==> caller == self.owner || caller == self.router_address,
            r is Err ==> r == Err::<(), FarmError>(FarmError::PermissionDenied),
    {
        if caller == self.owner || caller == self.router_address {
            Ok(())
        } else {
            Err(FarmError::PermissionDenied)
        }
    }

    /// Closes the pause gate. Exit stays available regardless.
    pub fn pause(&mut self, caller: Address) -> (r: Result<(), FarmError>)
        ensures
            r is Ok <==> caller == old(self).owner || caller == old(self).router_address,
            r is Err ==> r == Err::<(), FarmError>(FarmError::PermissionDenied) && *final(self)
                == *old(self),
            r is Ok ==> *final(self) == (Farm { state: false, ..*old(self) }),
    {
        let perm = self.require_permissions(caller);
        if let Err(e) = perm {
            return Err(e);
        }
        self.state = false;
        Ok(())
    }

    /// Reopens the pause gate.
    pub fn resume(&mut self, caller: Address) -> (r: Result<(), FarmError>)
        ensures
            r is Ok <==> caller == old(self).owner || caller == old(self).router_address,
            r is Err ==> r == Err::<(), FarmError>(FarmError::PermissionDenied) && *final(self)
                == *old(self),
            r is Ok ==> *final(self) == (Farm { state: true, ..*old(self) }),
    {
        let perm = self.require_permissions(caller);
        if let Err(e) = perm {
            return Err(e);
        }
        self.state = true;
        Ok(())
    }

    /// Whether an exit at `current_epoch` from a position entered at
    /// `entering_epoch` pays the penalty.
    pub fn should_apply_penalty(&self, entering_epoch: Epoch, current_epoch: Epoch) -> (r: bool)
        ensures
            r == should_penalize(entering_epoch as int, current_epoch as int),
    {
        if current_epoch <= entering_epoch {
            true
        } else {
            current_epoch - entering_epoch <= EXIT_FARM_NO_PENALTY_MIN_EPOCHS
        }
    }

    /// Applies the flat early-exit haircut to one payout leg.
    pub fn apply_penalty(&self, amount: u64) -> (r: u64)
        ensures
            r == penalized(amount as int),
            r <= amount,
    {
        proof {
            lemma_mul_inequality(100 - PENALTY_PERCENT as int, 100, amount as int);
            lemma_multiply_divide_le(
                amount as int * (100 - PENALTY_PERCENT as int),
                100,
                amount as int,
            );
            assert(amount as int * (100 - PENALTY_PERCENT as int) == (100 - PENALTY_PERCENT as int)
                * amount as int) by (nonlinear_arith);
        }
        mul_div(amount, 100 - PENALTY_PERCENT, 100)
    }

    /// Looks up the pair contract registered for `token`.
    pub fn find_accepted(&self, token: TokenId) -> (r: Option<Address>)
        requires
            accepted_unique(self.accepted_pairs@),
        ensures
            r is Some <==> has_accepted(self.accepted_pairs@, token),
            r matches Some(a) ==> a == accepted_address(self.accepted_pairs@, token),
    {
        let n = self.accepted_pairs.len();
        let mut i: usize = 0;
        while i < n
            invariant
                n == self.accepted_pairs@.len(),
                i <= n,
                accepted_unique(self.accepted_pairs@),
                forall|k: int| 0 <= k < i ==> self.accepted_pairs@[k].token != token,
            decreases n - i,
        {
            if self.accepted_pairs[i].token == token {
                proof {
                    let j = choose|j: int|
                        0 <= j < self.accepted_pairs@.len() && self.accepted_pairs@[j].token
                            == token;
                    assert(self.accepted_pairs@[i as int].token == token);
                    assert(j == i as int);
                }
                return Some(self.accepted_pairs[i].address);
            }
            i = i + 1;
        }
        None
    }

    /// Looks up the oracle registered for the pair `(a, b)`, in either
    /// ordering.
    pub fn find_oracle(&self, a: TokenId, b: TokenId) -> (r: Option<Address>)
        requires
            oracle_routes_unique(self.oracle_pairs@),
        ensures
            r is Some <==> has_oracle(self.oracle_pairs@, a, b),
            r matches Some(addr) ==> addr == oracle_address(self.oracle_pairs@, a, b),
    {
        let n = self.oracle_pairs.len();
        let mut i: usize = 0;
        while i < n
            invariant
                n == self.oracle_pairs@.len(),
                i <= n,
                oracle_routes_unique(self.oracle_pairs@),
                forall|k: int| 0 <= k < i ==> !oracle_matches(self.oracle_pairs@[k], a, b),
            decreases n - i,
        {
            let e = self.oracle_pairs[i];
            if (e.first_token == a && e.second_token == b) || (e.first_token == b
                && e.second_token == a) {
                proof {
                    let j = choose|j: int|
                        0 <= j < self.oracle_pairs@.len() && oracle_matches(
                            self.oracle_pairs@[j],
                            a,
                            b,
                        );
                    assert(oracle_matches(self.oracle_pairs@[i as int], a, b));
                    if j < i as int {
                        assert(oracle_matches(
                            self.oracle_pairs@[i as int],
                            self.oracle_pairs@[j].first_token,
                            self.oracle_pairs@[j].second_token,
                        ) || oracle_matches(
                            self.oracle_pairs@[i as int],
                            self.oracle_pairs@[j].second_token,
                            self.oracle_pairs@[j].first_token,
                        ));
                    } else if (i as int) < j {
                        assert(oracle_matches(
                            self.oracle_pairs@[j],
                            self.oracle_pairs@[i as int].first_token,
                            self.oracle_pairs@[i as int].second_token,
                        ) || oracle_matches(
                            self.oracle_pairs@[j],
                            self.oracle_pairs@[i as int].second_token,
                            self.oracle_pairs@[i as int].first_token,
                        ));
                    }
                    assert(j == i as int);
                }
                return Some(e.address);
            }
            i = i + 1;
        }
        None
    }

    /// The admin gate shared by the registry endpoints: the farm must be
    /// active, the caller authorized, and the pool of the paired-liquidity
    /// kind.
    pub open spec fn spec_admin_gate(self, caller: Address) -> Option<FarmError> {
        if !self.state {
            Some(FarmError::NotActive)
        } else if caller != self.owner && caller != self.router_address {
            Some(FarmError::PermissionDenied)
        } else if !self.farm_with_lp_tokens {
            Some(FarmError::NotPairedPool)
        } else {
            None
        }
    }

    /// Runs the admin gate checks in order.
    fn admin_gate(&self, caller: Address) -> (r: Result<(), FarmError>)
        ensures
            r is Err <==> self.spec_admin_gate(caller) is Some,
            r is Err ==> r == Err::<(), FarmError>(self.spec_admin_gate(caller).unwrap()),
    {
        if !self.is_active() {
            return Err(FarmError::NotActive);
        }
        let perm = self.require_permissions(caller);
        if let Err(e) = perm {
            return Err(e);
        }
        if !self.farm_with_lp_tokens {
            return Err(FarmError::NotPairedPool);
        }
        Ok(())
    }

    /// Why `add_oracle_pair` would reject, or `None` if it would register.
    pub open spec fn spec_add_oracle_error(
        self,
        caller: Address,
        first_token: TokenId,
        second_token: TokenId,
    ) -> Option<FarmError> {
        if self.spec_admin_gate(caller) is Some {
            self.spec_admin_gate(caller)
        } else if has_oracle(self.oracle_pairs@, first_token, second_token) {
            Some(FarmError::OracleAlreadyRegistered)
        } else {
            None
        }
    }

    /// Registers `address` as the trusted oracle for the pair
    /// `(first_token, second_token)`. The route is symmetric: it serves both
    /// orderings, and a second registration under either ordering is
    /// rejected, so registration and removal keep the two directions
    /// consistent.
    pub fn add_oracle_pair(
        &mut self,
        caller: Address,
        first_token: TokenId,
        second_token: TokenId,
        address: Address,
    ) -> (r: Result<(), FarmError>)
        requires
            old(self).wf(),
        ensures
            final(self).wf(),
            r is Err <==> old(self).spec_add_oracle_error(caller, first_token, second_token)
                is Some,
            r is Err ==> r == Err::<(), FarmError>(
                old(self).spec_add_oracle_error(caller, first_token, second_token).unwrap(),
            ) && *final(self) == *old(self),
            r is Ok ==> {
                &&& final(self).oracle_pairs@ == old(self).oracle_pairs@.push(
                    (OracleEntry { first_token, second_token, address }),
                )
                &&& *final(self) == (Farm {
                    oracle_pairs: final(self).oracle_pairs,
                    ..*old(self)
                })
                &&& has_oracle(final(self).oracle_pairs@, first_token, second_token)
                &&& oracle_address(final(self).oracle_pairs@, first_token, second_token)
                    == address
            },
    {
        let gate = self.admin_gate(caller);
        if let Err(e) = gate {
            return Err(e);
        }
        let existing = self.find_oracle(first_token, second_token);
        if existing.is_some() {
            return Err(FarmError::OracleAlreadyRegistered);
        }
        let entry = OracleEntry { first_token, second_token, address };
        self.oracle_pairs.push(entry);
        proof {
            let s = self.oracle_pairs@;
            let n = s.len() - 1;
            assert(oracle_matches(s[n], first_token, second_token));
            assert forall|i: int, j: int|
                #![trigger s[i], s[j]]
                0 <= i < j < s.len() implies !oracle_matches(
                s[j],
                s[i].first_token,
                s[i].second_token,
            ) && !oracle_matches(s[j], s[i].second_token, s[i].first_token) by {
                if j < n {
                    assert(s[i] == old(self).oracle_pairs@[i]);
                    assert(s[j] == old(self).oracle_pairs@[j]);
                } else {
                    assert(s[i] == old(self).oracle_pairs@[i]);
                    assert(!oracle_matches(old(self).oracle_pairs@[i], first_token, second_token));
                }
            }
            let w = choose|w: int| 0 <= w < s.len() && oracle_matches(s[w], first_token, second_token);
            if w != n {
                assert(oracle_matches(s[w], first_token, second_token));
                assert(s[w] == old(self).oracle_pairs@[w]);
            }
        }
        Ok(())
    }

    /// Why `remove_oracle_pair` would reject, or `None` if it would remove.
    pub open spec fn spec_remove_oracle_error(
        self,
        caller: Address,
        first_token: TokenId,
        second_token: TokenId,
        address: Address,
    ) -> Option<FarmError> {
        if self.spec_admin_gate(caller) is Some {
            self.spec_admin_gate(caller)
        } else if !has_oracle(self.oracle_pairs@, first_token, second_token) {
            Some(FarmError::OracleNotRegistered)
        } else if oracle_address(self.oracle_pairs@, first_token, second_token) != address {
            Some(FarmError::OracleAddressMismatch)
        } else {
            None
        }
    }

    /// Removes the oracle route for `(first_token, second_token)`, in both
    /// orderings at once; the supplied address must match the registered
    /// one. Every other route is untouched.
    #[verifier::loop_isolation(false)]
    pub fn remove_oracle_pair(
        &mut self,
        caller: Address,
        first_token: TokenId,
        second_token: TokenId,
        address: Address,
    ) -> (r: Result<(), FarmError>)
        requires
            old(self).wf(),
        ensures
            final(self).wf(),
            r is Err <==> old(self).spec_remove_oracle_error(
                caller,
                first_token,
                second_token,
                address,
            ) is Some,
            r is Err ==> r == Err::<(), FarmError>(
                old(self).spec_remove_oracle_error(
                    caller,
                    first_token,
                    second_token,
                    address,
                ).unwrap(),
            ) && *final(self) == *old(self),
            r is Ok ==> {
                &&& !has_oracle(final(self).oracle_pairs@, first_token, second_token)
                &&& !has_oracle(final(self).oracle_pairs@, second_token, first_token)
                &&& final(self).oracle_pairs@.len() == old(self).oracle_pairs@.len() - 1
                &&& *final(self) == (Farm {
                    oracle_pairs: final(self).oracle_pairs,
                    ..*old(self)
                })
                &&& oracle_preserved_except(
                    old(self).oracle_pairs@,
                    final(self).oracle_pairs@,
                    first_token,
                    second_token,
                )
            },
    {
        let gate = self.admin_gate(caller);
        if let Err(e) = gate {
            return Err(e);
        }
        let n = self.oracle_pairs.len();
        let mut i: usize = 0;
        while i < n
            invariant
                *self == *old(self),
                n == self.oracle_pairs@.len(),
                i <= n,
                oracle_routes_unique(self.oracle_pairs@),
                forall|k: int|
                    0 <= k < i ==> !oracle_matches(
                        self.oracle_pairs@[k],
                        first_token,
                        second_token,
                    ),
            decreases n - i,
        {
            let e = self.oracle_pairs[i];
            if (e.first_token == first_token && e.second_token == second_token) || (e.first_token
                == second_token && e.second_token == first_token) {
                if e.address != address {
                    proof {
                        lemma_oracle_choose_is(
                            self.oracle_pairs@,
                            first_token,
                            second_token,
                            i as int,
                        );
                    }
                    return Err(FarmError::OracleAddressMismatch);
                }
                let _ = self.oracle_pairs.remove(i);
                proof {
                    let s = old(self).oracle_pairs@;
                    lemma_oracle_choose_is(s, first_token, second_token, i as int);
                    lemma_oracle_remove(s, i as int);
                    assert(self.oracle_pairs@ == s.remove(i as int));
                    assert(oracle_preserved_except(s, self.oracle_pairs@, first_token, second_token));
                }
                return Ok(());
            }
            i = i + 1;
        }
        Err(FarmError::OracleNotRegistered)
    }

    /// Why `add_accepted_pair` would reject, or `None` if it would register.
    pub open spec fn spec_add_accepted_error(
        self,
        caller: Address,
        address: Address,
        token: TokenId,
    ) -> Option<FarmError> {
        if self.spec_admin_gate(caller) is Some {
            self.spec_admin_gate(caller)
        } else if address == ZERO_ADDRESS {
            Some(FarmError::ZeroAddress)
        } else if token == NATIVE_TOKEN {
            Some(FarmError::NotLabeledAsset)
        } else if has_accepted(self.accepted_pairs@, token) {
            Some(FarmError::PairAlreadyRegistered)
        } else {
            None
        }
    }

    /// Registers `address` as the pair contract able to decompose the
    /// paired-liquidity asset `token`.
    pub fn add_accepted_pair(&mut self, caller: Address, address: Address, token: TokenId) -> (r:
        Result<(), FarmError>)
        requires
            old(self).wf(),
        ensures
            final(self).wf(),
            r is Err <==> old(self).spec_add_accepted_error(caller, address, token) is Some,
            r is Err ==> r == Err::<(), FarmError>(
                old(self).spec_add_accepted_error(caller, address, token).unwrap(),
            ) && *final(self) == *old(self),
            r is Ok ==> {
                &&& final(self).accepted_pairs@ == old(self).accepted_pairs@.push(
                    (PairEntry { token, address }),
                )
                &&& *final(self) == (Farm {
                    accepted_pairs: final(self).accepted_pairs,
                    ..*old(self)
                })
                &&& has_accepted(final(self).accepted_pairs@, token)
                &&& accepted_address(final(self).accepted_pairs@, token) == address
            },
    {
        let gate = self.admin_gate(caller);
        if let Err(e) = gate {
            return Err(e);
        }
        if address == ZERO_ADDRESS {
            return Err(FarmError::ZeroAddress);
        }
        if token == NATIVE_TOKEN {
            return Err(FarmError::NotLabeledAsset);
        }
        let existing = self.find_accepted(token);
        if existing.is_some() {
            return Err(FarmError::PairAlreadyRegistered);
        }
        let entry = PairEntry { token, address };
        self.accepted_pairs.push(entry);
        proof {
            let s = self.accepted_pairs@;
            let n = s.len() - 1;
            assert(s[n].token == token);
            assert forall|i: int, j: int|
                #![trigger s[i], s[j]]
                0 <= i < j < s.len() implies s[i].token != s[j].token by {
                if j < n {
                    assert(s[i] == old(self).accepted_pairs@[i]);
                    assert(s[j] == old(self).accepted_pairs@[j]);
                } else {
                    assert(s[i] == old(self).accepted_pairs@[i]);
                }
            }
            let w = choose|w: int| 0 <= w < s.len() && s[w].token == token;
            if w != n {
                assert(s[w] == old(self).accepted_pairs@[w]);
            }
        }
        Ok(())
    }

    /// Why `remove_accepted_pair` would reject, or `None` if it would
    /// remove.
    pub open spec fn spec_remove_accepted_error(
        self,
        caller: Address,
        address: Address,
        token: TokenId,
    ) -> Option<FarmError> {
        if self.spec_admin_gate(caller) is Some {
            self.spec_admin_gate(caller)
        } else if address == ZERO_ADDRESS {
            Some(FarmError::ZeroAddress)
        } else if token == NATIVE_TOKEN {
            Some(FarmError::NotLabeledAsset)
        } else if !has_accepted(self.accepted_pairs@, token) {
            Some(FarmError::PairNotRegistered)
        } else if accepted_address(self.accepted_pairs@, token) != address {
            Some(FarmError::PairAddressMismatch)
        } else {
            None
        }
    }

    /// Removes the pair-contract registration for `token`; the supplied
    /// address must match the registered one. Every other registration is
    /// untouched.
    #[verifier::loop_isolation(false)]
    #[verifier::rlimit(60)]
    pub fn remove_accepted_pair(&mut self, caller: Address, address: Address, token: TokenId) -> (r:
        Result<(), FarmError>)
        requires
            old(self).wf(),
        ensures
            final(self).wf(),
            r is Err <==> old(self).spec_remove_accepted_error(caller, address, token) is Some,
            r is Err ==> r == Err::<(), FarmError>(
                old(self).spec_remove_accepted_error(caller, address, token).unwrap(),
            ) && *final(self) == *old(self),
            r is Ok ==> {
                &&& !has_accepted(final(self).accepted_pairs@, token)
                &&& final(self).accepted_pairs@.len() == old(self).accepted_pairs@.len() - 1
                &&& *final(self) == (Farm {
                    accepted_pairs: final(self).accepted_pairs,
                    ..*old(self)
                })
                &&& accepted_preserved_except(
                    old(self).accepted_pairs@,
                    final(self).accepted_pairs@,
                    token,
                )
            },
    {
        let gate = self.admin_gate(caller);
        if let Err(e) = gate {
            return Err(e);
        }
        if address == ZERO_ADDRESS {
            return Err(FarmError::ZeroAddress);
        }
        if token == NATIVE_TOKEN {
            return Err(FarmError::NotLabeledAsset);
        }
        let n = self.accepted_pairs.len();
        let mut i: usize = 0;
        while i < n
            invariant
                *self == *old(self),
                n == self.accepted_pairs@.len(),
                i <= n,
                accepted_unique(self.accepted_pairs@),
                forall|k: int| 0 <= k < i ==> self.accepted_pairs@[k].token != token,
            decreases n - i,
        {
            if self.accepted_pairs[i].token == token {
                if self.accepted_pairs[i].address != address {
                    proof {
                        lemma_accepted_choose_is(self.accepted_pairs@, token, i as int);
                    }
                    return Err(FarmError::PairAddressMismatch);
                }
                let _ = self.accepted_pairs.remove(i);
                proof {
                    let s = old(self).accepted_pairs@;
                    lemma_accepted_choose_is(s, token, i as int);
                    lemma_accepted_remove(s, i as int);
                    assert(self.accepted_pairs@ == s.remove(i as int));
                    assert(accepted_preserved_except(s, self.accepted_pairs@, token));
                }
                return Ok(());
            }
            i = i + 1;
        }
        Err(FarmError::PairNotRegistered)
    }

    /// Why price resolution for `token_in` would reject, or `None` if a
    /// value or a query comes out.
    pub open spec fn spec_contribution_error(self, token_in: TokenId) -> Option<FarmError> {
        if token_in == self.farming_pool_token_id && !self.farm_with_lp_tokens {
            None
        } else if !has_accepted(self.accepted_pairs@, token_in) {
            Some(FarmError::UnknownAsset)
        } else {
            None
        }
    }

    /// First step of resolving a deposit's value in the pool's unit of
    /// account. A deposit of the unit of account itself, in a pool that does
    /// not require paired-liquidity accounting, is worth its own amount,
    /// with no remote query. Any other asset must be registered; the host is
    /// then told which pair contract to ask for the decomposition.
    pub fn get_farm_contribution(&self, token_in: TokenId, amount_in: u64) -> (r: Result<
        ContributionStep,
        FarmError,
    >)
        requires
            self.wf(),
        ensures
            r is Err <==> self.spec_contribution_error(token_in) is Some,
            r is Err ==> r == Err::<ContributionStep, FarmError>(FarmError::UnknownAsset),
            r matches Ok(step) ==> step == (if token_in == self.farming_pool_token_id
                && !self.farm_with_lp_tokens {
                ContributionStep::Resolved(amount_in)
            } else {
                ContributionStep::QueryPair(accepted_address(self.accepted_pairs@, token_in))
            }),
    {
        if token_in == self.farming_pool_token_id && !self.farm_with_lp_tokens {
            return Ok(ContributionStep::Resolved(amount_in));
        }
        match self.find_accepted(token_in) {
            Some(pair) => Ok(ContributionStep::QueryPair(pair)),
            None => Err(FarmError::UnknownAsset),
        }
    }

    /// Second step of price resolution, on the two constituents a pair
    /// contract decomposed the deposit of `amount_in` into. A constituent
    /// equal to the unit of account settles the value directly, without
    /// consulting any oracle; otherwise the first constituent with a
    /// registered oracle route to the unit of account is chosen and the host
    /// is handed the oracle query to make, quoting the full deposited
    /// amount. With no route for either constituent there is no way to price
    /// the deposit.
    pub fn contribution_from_decomposition(
        &self,
        first: TokenAmountPair,
        second: TokenAmountPair,
        amount_in: u64,
    ) -> (r: Result<DecompositionStep, FarmError>)
        requires
            self.wf(),
        ensures
            r == (if first.token_id == self.farming_pool_token_id {
                Ok::<DecompositionStep, FarmError>(DecompositionStep::Resolved(first.amount))
            } else if second.token_id == self.farming_pool_token_id {
                Ok::<DecompositionStep, FarmError>(DecompositionStep::Resolved(second.amount))
            } else if has_oracle(self.oracle_pairs@, first.token_id, self.farming_pool_token_id) {
                Ok::<DecompositionStep, FarmError>(
                    DecompositionStep::QueryOracle(
                        OracleQuery {
                            token_to_ask: first.token_id,
                            amount_in,
                            oracle_address: oracle_address(
                                self.oracle_pairs@,
                                first.token_id,
                                self.farming_pool_token_id,
                            ),
                        },
                    ),
                )
            } else if has_oracle(self.oracle_pairs@, second.token_id, self.farming_pool_token_id) {
                Ok::<DecompositionStep, FarmError>(
                    DecompositionStep::QueryOracle(
                        OracleQuery {
                            token_to_ask: second.token_id,
                            amount_in,
                            oracle_address: oracle_address(
                                self.oracle_pairs@,
                                second.token_id,
                                self.farming_pool_token_id,
                            ),
                        },
                    ),
                )
            } else {
                Err::<DecompositionStep, FarmError>(FarmError::NoPriceRoute)
            }),
    {
        if first.token_id == self.farming_pool_token_id {
            return Ok(DecompositionStep::Resolved(first.amount));
        }
        if second.token_id == self.farming_pool_token_id {
            return Ok(DecompositionStep::Resolved(second.amount));
        }
        if let Some(oracle) = self.find_oracle(first.token_id, self.farming_pool_token_id) {
            return Ok(
                DecompositionStep::QueryOracle(
                    OracleQuery { token_to_ask: first.token_id, amount_in, oracle_address: oracle },
                ),
            );
        }
        if let Some(oracle) = self.find_oracle(second.token_id, self.farming_pool_token_id) {
            return Ok(
                DecompositionStep::QueryOracle(
                    OracleQuery {
                        token_to_ask: second.token_id,
                        amount_in,
                        oracle_address: oracle,
                    },
                ),
            );
        }
        Err(FarmError::NoPriceRoute)
    }

    /// Mints a fresh position record carrying `attributes`, with `amount`
    /// units of its token quantity outstanding, and returns the record's
    /// serial number.
    pub fn create_farm_tokens(&mut self, amount: u64, attributes: FarmTokenAttributes) -> (nonce:
        u64)
        requires
            old(self).wf(),
            attributes.total_amount_liquidity > 0,
            attributes.total_initial_worth > 0,
            amount <= attributes.total_amount_liquidity,
        ensures
            final(self).positions@ == old(self).positions@.push(
                (FarmRecord { attributes, outstanding: amount }),
            ),
            nonce == old(self).positions@.len() + 1,
            *final(self) == (Farm { positions: final(self).positions, ..*old(self) }),
            final(self).wf(),
    {
        self.positions.push(FarmRecord { attributes, outstanding: amount });
        self.positions.len() as u64
    }

    /// Reads back the attributes of the position record with serial number
    /// `token_nonce`; a serial no record answers to cannot be decoded.
    pub fn get_farm_attributes(&self, token_nonce: u64) -> (r: Result<
        FarmTokenAttributes,
        FarmError,
    >)
        ensures
            r is Ok <==> 1 <= token_nonce <= self.positions@.len(),
            r matches Ok(a) ==> a == self.positions@[token_nonce - 1].attributes,
            r is Err ==> r == Err::<FarmTokenAttributes, FarmError>(FarmError::DecodingError),
    {
        if token_nonce == 0 || token_nonce > self.positions.len() as u64 {
            return Err(FarmError::DecodingError);
        }
        let idx: usize = (token_nonce - 1) as usize;
        Ok(self.positions[idx].attributes)
    }

    /// Burns `amount` units of the position token with serial number
    /// `token_nonce`; the host guarantees no more can be presented than is
    /// outstanding.
    pub fn burn(&mut self, token_nonce: u64, amount: u64)
        requires
            old(self).wf(),
            1 <= token_nonce <= old(self).positions@.len(),
            amount <= old(self).positions@[token_nonce - 1].outstanding,
        ensures
            final(self).positions@ == old(self).positions@.update(
                token_nonce - 1,
                (FarmRecord {
                    attributes: old(self).positions@[token_nonce - 1].attributes,
                    outstanding: (old(self).positions@[token_nonce - 1].outstanding - amount) as u64,
                }),
            ),
            *final(self) == (Farm { positions: final(self).positions, ..*old(self) }),
            final(self).wf(),
    {
        // Binding the length shows the serial fits the machine word.
        let _count: usize = self.positions.len();
        let idx: usize = (token_nonce - 1) as usize;
        let mut record = self.positions[idx];
        record.outstanding = record.outstanding - amount;
        self.positions[idx] = record;
    }

    /// Why an entry with a resolved contribution would reject, or `None` if
    /// it would mint.
    pub open spec fn spec_enter_error(self, contribution: u64) -> Option<FarmError> {
        if !self.state {
            Some(FarmError::NotActive)
        } else if self.farm_token_id is None {
            Some(FarmError::NotIssued)
        } else if contribution == 0 || shares_for_value(
            contribution as int,
            self.pool.virtual_reserves as int,
            self.pool.total_supply as int,
        ) == 0 {
            Some(FarmError::ZeroContribution)
        } else {
            None
        }
    }

    /// Enters the farm with a deposit of `amount` of `token_in` whose value
    /// in the pool's unit of account resolved to `contribution` (see
    /// `get_farm_contribution` and `contribution_from_decomposition`).
    ///
    /// Credits the pool, mints a position record carrying the origin asset
    /// and amount, the contributed value, the minted shares and the entry
    /// epoch, and tells the host to transfer the minted quantity to the
    /// caller. A deposit worth nothing, or worth too little to mint a single
    /// share, is rejected rather than recorded. Nothing changes on any
    /// rejection.
    pub fn enter_farm(
        &mut self,
        token_in: TokenId,
        amount: u64,
        contribution: u64,
        current_epoch: Epoch,
    ) -> (r: Result<EnterReceipt, FarmError>)
        requires
            old(self).wf(),
            old(self).pool.virtual_reserves + contribution <= u64::MAX,
            old(self).pool.total_supply + shares_for_value(
                contribution as int,
                old(self).pool.virtual_reserves as int,
                old(self).pool.total_supply as int,
            ) <= u64::MAX,
        ensures
            final(self).wf(),
            r is Err <==> old(self).spec_enter_error(contribution) is Some,
            r is Err ==> r == Err::<EnterReceipt, FarmError>(
                old(self).spec_enter_error(contribution).unwrap(),
            ) && *final(self) == *old(self),
            r matches Ok(receipt) ==> {
                &&& receipt.liquidity == shares_for_value(
                    contribution as int,
                    old(self).pool.virtual_reserves as int,
                    old(self).pool.total_supply as int,
                )
                &&& receipt.farm_token_nonce == old(self).positions@.len() + 1
                &&& final(self).pool.virtual_reserves == old(self).pool.virtual_reserves
                    + contribution
                &&& final(self).pool.total_supply == old(self).pool.total_supply
                    + receipt.liquidity
                &&& final(self).positions@ == old(self).positions@.push(
                    (FarmRecord {
                        attributes: FarmTokenAttributes {
                            farmed_token_id: token_in,
                            total_farmed_tokens: amount,
                            total_initial_worth: contribution,
                            total_amount_liquidity: receipt.liquidity,
                            epoch_when_entering: current_epoch,
                        },
                        outstanding: receipt.liquidity,
                    }),
                )
                &&& *final(self) == (Farm {
                    pool: final(self).pool,
                    positions: final(self).positions,
                    ..*old(self)
                })
            },
    {
        if !self.is_active() {
            return Err(FarmError::NotActive);
        }
        if self.farm_token_id.is_none() {
            return Err(FarmError::NotIssued);
        }
        if contribution == 0 {
            return Err(FarmError::ZeroContribution);
        }
        let liquidity = self.pool.shares_for(contribution);
        if liquidity == 0 {
            return Err(FarmError::ZeroContribution);
        }
        let added = self.pool.add_liquidity(contribution);
        if let Err(e) = added {
            return Err(e);
        }
        let attributes = FarmTokenAttributes {
            farmed_token_id: token_in,
            total_farmed_tokens: amount,
            total_initial_worth: contribution,
            total_amount_liquidity: liquidity,
            epoch_when_entering: current_epoch,
        };
        let nonce = self.create_farm_tokens(liquidity, attributes);
        Ok(EnterReceipt { farm_token_nonce: nonce, liquidity })
    }

    /// Why an exit would reject, or `None` if it would pay out.
    pub open spec fn spec_exit_error(
        self,
        payment_token_id: TokenId,
        token_nonce: u64,
        liquidity: u64,
    ) -> Option<FarmError> {
        if self.farm_token_id is None {
            Some(FarmError::NotIssued)
        } else if Some(payment_token_id) != self.farm_token_id {
            Some(FarmError::UnknownToken)
        } else if !(1 <= token_nonce <= self.positions@.len()) {
            Some(FarmError::DecodingError)
        } else {
            let record = self.positions@[token_nonce - 1];
            let a = record.attributes;
            if liquidity > record.outstanding {
                Some(FarmError::InsufficientBalance)
            } else if principal_part(
                a.total_initial_worth as int,
                liquidity as int,
                a.total_amount_liquidity as int,
            ) == 0 {
                Some(FarmError::ZeroPrincipal)
            } else if principal_part(
                a.total_farmed_tokens as int,
                liquidity as int,
                a.total_amount_liquidity as int,
            ) == 0 {
                Some(FarmError::ZeroOriginAmount)
            } else if liquidity > self.pool.total_supply {
                Some(FarmError::InsufficientShares)
            } else {
                None
            }
        }
    }

    /// Exits the farm by presenting `liquidity` units of the position token
    /// minted under `token_nonce`.
    ///
    /// The presented quantity is burned; the proportional principal (in the
    /// origin asset) and the proportional reward over the recorded entry
    /// value (in the unit of account) are paid out, each cut by the flat
    /// penalty when the position is younger than the minimum holding
    /// period. A leg that computes to zero is skipped by the host, not an
    /// error. Exit stays available while the farm is paused. Nothing changes
    /// on any rejection.
    pub fn exit_farm(
        &mut self,
        payment_token_id: TokenId,
        token_nonce: u64,
        liquidity: u64,
        current_epoch: Epoch,
    ) -> (r: Result<ExitReceipt, FarmError>)
        requires
            old(self).wf(),
        ensures
            final(self).wf(),
            r is Err <==> old(self).spec_exit_error(payment_token_id, token_nonce, liquidity)
                is Some,
            r is Err ==> r == Err::<ExitReceipt, FarmError>(
                old(self).spec_exit_error(payment_token_id, token_nonce, liquidity).unwrap(),
            ) && *final(self) == *old(self),
            r matches Ok(receipt) ==> {
                let record = old(self).positions@[token_nonce - 1];
                let a = record.attributes;
                let initial_worth = principal_part(
                    a.total_initial_worth as int,
                    liquidity as int,
                    a.total_amount_liquidity as int,
                );
                let farmed_amount = principal_part(
                    a.total_farmed_tokens as int,
                    liquidity as int,
                    a.total_amount_liquidity as int,
                );
                let reward = reward_amount(
                    liquidity as int,
                    initial_worth,
                    old(self).pool.virtual_reserves as int,
                    old(self).pool.total_supply as int,
                );
                &&& receipt.reward_to_send == payout(
                    reward,
                    a.epoch_when_entering as int,
                    current_epoch as int,
                )
                &&& receipt.reward_token_id == old(self).farming_pool_token_id
                &&& receipt.farmed_token_to_send == payout(
                    farmed_amount,
                    a.epoch_when_entering as int,
                    current_epoch as int,
                )
                &&& receipt.farmed_token_id == a.farmed_token_id
                &&& final(self).pool.total_supply == old(self).pool.total_supply - liquidity
                &&& final(self).pool.virtual_reserves == old(self).pool.virtual_reserves
                    - value_attributable(
                        liquidity as int,
                        old(self).pool.virtual_reserves as int,
                        old(self).pool.total_supply as int,
                    )
                &&& final(self).positions@ == old(self).positions@.update(
                    token_nonce - 1,
                    (FarmRecord {
                        attributes: a,
                        outstanding: (record.outstanding - liquidity) as u64,
                    }),
                )
                &&& *final(self) == (Farm {
                    pool: final(self).pool,
                    positions: final(self).positions,
                    ..*old(self)
                })
            },
    {
        let farm_token_id = match self.farm_token_id {
            Some(id) => id,
            None => {
                return Err(FarmError::NotIssued);
            },
        };
        if payment_token_id != farm_token_id {
            return Err(FarmError::UnknownToken);
        }
        let attributes = match self.get_farm_attributes(token_nonce) {
            Ok(a) => a,
            Err(e) => {
                return Err(e);
            },
        };
        // Binding the length shows the serial fits the machine word.
        let _count: usize = self.positions.len();
        let idx: usize = (token_nonce - 1) as usize;
        if liquidity > self.positions[idx].outstanding {
            return Err(FarmError::InsufficientBalance);
        }
        proof {
            crate::liquidity_pool::lemma_principal_bounded(
                attributes.total_initial_worth as int,
                liquidity as int,
                attributes.total_amount_liquidity as int,
            );
            crate::liquidity_pool::lemma_principal_bounded(
                attributes.total_farmed_tokens as int,
                liquidity as int,
                attributes.total_amount_liquidity as int,
            );
        }
        let initial_worth = mul_div(
            attributes.total_initial_worth,
            liquidity,
            attributes.total_amount_liquidity,
        );
        if initial_worth == 0 {
            return Err(FarmError::ZeroPrincipal);
        }
        let farmed_token_amount = mul_div(
            attributes.total_farmed_tokens,
            liquidity,
            attributes.total_amount_liquidity,
        );
        if farmed_token_amount == 0 {
            return Err(FarmError::ZeroOriginAmount);
        }
        let reward = match self.pool.remove_liquidity(liquidity, initial_worth) {
            Ok(reward) => reward,
            Err(e) => {
                return Err(e);
            },
        };
        self.burn(token_nonce, liquidity);
        let (reward_to_send, farmed_token_to_send) = if self.should_apply_penalty(
            attributes.epoch_when_entering,
            current_epoch,
        ) {
            (self.apply_penalty(reward), self.apply_penalty(farmed_token_amount))
        } else {
            (reward, farmed_token_amount)
        };
        Ok(
            ExitReceipt {
                reward_to_send,
                reward_token_id: self.farming_pool_token_id,
                farmed_token_to_send,
                farmed_token_id: attributes.farmed_token_id,
            },
        )
    }

    /// Why the reward query would reject, or `None` if it would answer.
    pub open spec fn spec_calculate_error(self, token_nonce: u64, liquidity: u64) -> Option<
        FarmError,
    > {
        if self.farm_token_id is None {
            Some(FarmError::NotIssued)
        } else if !(1 <= token_nonce <= self.positions@.len()) {
            Some(FarmError::DecodingError)
        } else {
            let a = self.positions@[token_nonce - 1].attributes;
            if principal_part(
                a.total_initial_worth as int,
                liquidity as int,
                a.total_amount_liquidity as int,
            ) != 0 && liquidity > self.pool.total_supply {
                Some(FarmError::InsufficientShares)
            } else {
                None
            }
        }
    }

    /// Quotes, without any state change, the reward an exit presenting
    /// `liquidity` units of the position under `token_nonce` would pay right
    /// now — the identical proportional and penalty rules as `exit_farm`, so
    /// the quote matches what exit would actually send.
    pub fn calculate_rewards_for_given_position(
        &self,
        token_nonce: u64,
        liquidity: u64,
        current_epoch: Epoch,
    ) -> (r: Result<u64, FarmError>)
        requires
            self.wf(),
        ensures
            r is Err <==> self.spec_calculate_error(token_nonce, liquidity) is Some,
            r is Err ==> r == Err::<u64, FarmError>(
                self.spec_calculate_error(token_nonce, liquidity).unwrap(),
            ),
            r matches Ok(v) ==> {
                let a = self.positions@[token_nonce - 1].attributes;
                let initial_worth = principal_part(
                    a.total_initial_worth as int,
                    liquidity as int,
                    a.total_amount_liquidity as int,
                );
                v == (if initial_worth == 0 {
                    0
                } else {
                    payout(
                        reward_amount(
                            liquidity as int,
                            initial_worth,
                            self.pool.virtual_reserves as int,
                            self.pool.total_supply as int,
                        ),
                        a.epoch_when_entering as int,
                        current_epoch as int,
                    )
                })
            },
    {
        if self.farm_token_id.is_none() {
            return Err(FarmError::NotIssued);
        }
        let attributes = match self.get_farm_attributes(token_nonce) {
            Ok(a) => a,
            Err(e) => {
                return Err(e);
            },
        };
        let initial_worth = mul_div_wide(
            attributes.total_initial_worth,
            liquidity,
            attributes.total_amount_liquidity,
        );
        if initial_worth == 0 {
            return Ok(0);
        }
        let reward = match self.pool.calculate_reward(liquidity, initial_worth) {
            Ok(reward) => reward,
            Err(e) => {
                return Err(e);
            },
        };
        if self.should_apply_penalty(attributes.epoch_when_entering, current_epoch) {
            Ok(self.apply_penalty(reward))
        } else {
            Ok(reward)
        }
    }

    /// Why an issuance request would reject, or `None` if it goes out.
    pub open spec fn spec_issue_error(self, caller: Address) -> Option<FarmError> {
        if !self.state {
            Some(FarmError::NotActive)
        } else if caller != self.owner && caller != self.router_address {
            Some(FarmError::PermissionDenied)
        } else if self.farm_token_id is Some {
            Some(FarmError::AlreadyIssued)
        } else {
            None
        }
    }

    /// First phase of the issuance handshake: checks that a position token
    /// class may be requested and hands the host the request to forward,
    /// with the continuation data (`caller`, the fee paid) the callback
    /// needs. Nothing is adopted until the callback arrives.
    pub fn issue_farm_token(&self, caller: Address, issue_cost: u64) -> (r: Result<
        IssueRequest,
        FarmError,
    >)
        ensures
            r is Err <==> self.spec_issue_error(caller) is Some,
            r is Err ==> r == Err::<IssueRequest, FarmError>(self.spec_issue_error(caller).unwrap()),
            r matches Ok(req) ==> req == (IssueRequest { caller, issue_cost }),
    {
        if !self.is_active() {
            return Err(FarmError::NotActive);
        }
        let perm = self.require_permissions(caller);
        if let Err(e) = perm {
            return Err(e);
        }
        if self.farm_token_id.is_some() {
            return Err(FarmError::AlreadyIssued);
        }
        Ok(IssueRequest { caller, issue_cost })
    }

    /// Second phase of the issuance handshake. On success the returned
    /// identifier is adopted unless a competing request already settled one,
    /// in which case the duplicate is dropped. On failure the issuance fee
    /// is refunded to the original caller, but only when it came back in the
    /// native currency and is positive; the host performs the returned
    /// refund.
    pub fn issue_callback(
        &mut self,
        caller: Address,
        result: IssueResult,
        returned_token: TokenId,
        returned_amount: u64,
    ) -> (refund: Option<Refund>)
        requires
            old(self).wf(),
        ensures
            final(self).wf(),
            result matches IssueResult::Issued(token_id) ==> {
                &&& refund is None
                &&& final(self).farm_token_id == (if old(self).farm_token_id is None {
                    Some(token_id)
                } else {
                    old(self).farm_token_id
                })
                &&& *final(self) == (Farm {
                    farm_token_id: final(self).farm_token_id,
                    ..*old(self)
                })
            },
            result is Failed ==> {
                &&& *final(self) == *old(self)
                &&& refund == (if returned_token == NATIVE_TOKEN && returned_amount > 0 {
                    Some(Refund { to: caller, amount: returned_amount })
                } else {
                    None::<Refund>
                })
            },
    {
        match result {
            IssueResult::Issued(token_id) => {
                if self.farm_token_id.is_none() {
                    self.farm_token_id = Some(token_id);
                }
                None
            },
            IssueResult::Failed => {
                if returned_token == NATIVE_TOKEN && returned_amount > 0 {
                    Some(Refund { to: caller, amount: returned_amount })
                } else {
                    None
                }
            },
        }
    }

    /// Why a role-grant request would reject, or `None` if it goes out.
    pub open spec fn spec_roles_error(self, caller: Address) -> Option<FarmError> {
        if !self.state {
            Some(FarmError::NotActive)
        } else if caller != self.owner && caller != self.router_address {
            Some(FarmError::PermissionDenied)
        } else if self.farm_token_id is None {
            Some(FarmError::NotIssued)
        } else {
            None
        }
    }

    /// First phase of the role handshake: checks that the operational roles
    /// (mint, quantity-increase, burn) may be requested and returns the
    /// token class the host must request them for. No fee is collected.
    pub fn set_local_roles_farm_token(&self, caller: Address) -> (r: Result<TokenId, FarmError>)
        ensures
            r is Err <==> self.spec_roles_error(caller) is Some,
            r is Err ==> r == Err::<TokenId, FarmError>(self.spec_roles_error(caller).unwrap()),
            r matches Ok(token_id) ==> Some(token_id) == self.farm_token_id,
    {
        if !self.is_active() {
            return Err(FarmError::NotActive);
        }
        let perm = self.require_permissions(caller);
        if let Err(e) = perm {
            return Err(e);
        }
        match self.farm_token_id {
            Some(token_id) => Ok(token_id),
            None => Err(FarmError::NotIssued),
        }
    }

    /// Second phase of the role handshake: a success clears the recorded
    /// error, a failure records its message for later inspection. No refund
    /// is issued — no fee was collected for this step.
    pub fn change_roles_callback(&mut self, result: RolesResult)
        requires
            old(self).wf(),
        ensures
            final(self).wf(),
            result is Granted ==> final(self).last_error_message@ == Seq::<u8>::empty(),
            result matches RolesResult::Failed(message) ==> final(self).last_error_message@
                == message@,
            *final(self) == (Farm {
                last_error_message: final(self).last_error_message,
                ..*old(self)
            }),
    {
        match result {
            RolesResult::Granted => {
                self.last_error_message = Vec::new();
            },
            RolesResult::Failed(message) => {
                self.last_error_message = message;
            },
        }
    }

    /// The pool's unit of account together with its pricing reference (the
    /// virtual reserve) and the literal balance the host reports on hand.
    pub fn get_farming_pool_token_id_and_amounts(&self, actual_balance: u64) -> (r: (
        TokenId,
        (u64, u64),
    ))
        ensures
            r == (self.farming_pool_token_id, (self.pool.virtual_reserves, actual_balance)),
    {
        (self.farming_pool_token_id, (self.pool.virtual_reserves, actual_balance))
    }

    /// Every asset a deposit may arrive in: the registered paired-liquidity
    /// assets for a paired pool, or just the unit of account itself.
    pub fn get_all_accepted_tokens(&self) -> (r: Vec<TokenId>)
        ensures
            self.farm_with_lp_tokens ==> r@.len() == self.accepted_pairs@.len() && (forall|i: int|
                0 <= i < r@.len() ==> r@[i] == self.accepted_pairs@[i].token),
            !self.farm_with_lp_tokens ==> r@.len() == 1 && r@[0] == self.farming_pool_token_id,
    {
        let mut result: Vec<TokenId> = Vec::new();
        if self.farm_with_lp_tokens {
            let n = self.accepted_pairs.len();
            let mut i: usize = 0;
            while i < n
                invariant
                    n == self.accepted_pairs@.len(),
                    i <= n,
                    result@.len() == i,
                    forall|k: int| 0 <= k < i ==> result@[k] == self.accepted_pairs@[k].token,
                decreases n - i,
            {
                result.push(self.accepted_pairs[i].token);
                i = i + 1;
            }
        } else {
            result.push(self.farming_pool_token_id);
        }
        result
    }
}

/// In a duplicate-free registry, the entry the `choose` behind
/// `accepted_address` picks is the matching entry itself.
proof fn lemma_accepted_choose_is(s: Seq<PairEntry>, token: TokenId, i: int)
    requires
        accepted_unique(s),
        0 <= i < s.len(),
        s[i].token == token,
    ensures
        has_accepted(s, token),
        accepted_address(s, token) == s[i].address,
{
    assert(has_accepted(s, token));
    let j = choose|j: int| 0 <= j < s.len() && s[j].token == token;
    if j < i {
        assert(s[j].token != s[i].token);
    } else if i < j {
        assert(s[i].token != s[j].token);
    }
}

/// Removing the unique entry for an asset removes that asset's registration
/// and nothing else.
proof fn lemma_accepted_remove(s: Seq<PairEntry>, i: int)
    requires
        accepted_unique(s),
        0 <= i < s.len(),
    ensures
        accepted_unique(s.remove(i)),
        !has_accepted(s.remove(i), s[i].token),
        accepted_preserved_except(s, s.remove(i), s[i].token),
{
    let r = s.remove(i);
    assert forall|p: int, q: int| #![trigger r[p], r[q]] 0 <= p < q < r.len() implies r[p].token
        != r[q].token by {
        let p0 = if p < i { p } else { p + 1 };
        let q0 = if q < i { q } else { q + 1 };
        assert(r[p] == s[p0]);
        assert(r[q] == s[q0]);
    }
    assert forall|k: int| 0 <= k < r.len() implies r[k].token != s[i].token by {
        let k0 = if k < i { k } else { k + 1 };
        assert(r[k] == s[k0]);
        if k0 < i {
            assert(s[k0].token != s[i].token);
        } else {
            assert(s[i].token != s[k0].token);
        }
    }
    assert forall|t: TokenId| t != s[i].token implies #[trigger] has_accepted(r, t)
        == has_accepted(s, t) && (has_accepted(s, t) ==> accepted_address(r, t)
        == accepted_address(s, t)) by {
        if has_accepted(s, t) {
            let k = choose|k: int| 0 <= k < s.len() && s[k].token == t;
            let kr = if k < i { k } else { k - 1 };
            assert(r[kr] == s[k]);
            assert(has_accepted(r, t));
            let m = choose|m: int| 0 <= m < r.len() && r[m].token == t;
            if m < kr {
                assert(r[m].token != r[kr].token);
            } else if kr < m {
                assert(r[kr].token != r[m].token);
            }
            let m0 = if m < i { m } else { m + 1 };
            assert(r[m] == s[m0]);
            lemma_accepted_choose_is(s, t, m0);
        } else {
            if has_accepted(r, t) {
                let m = choose|m: int| 0 <= m < r.len() && r[m].token == t;
                let m0 = if m < i { m } else { m + 1 };
                assert(r[m] == s[m0]);
                assert(has_accepted(s, t));
            }
        }
    }
}

/// In a duplicate-free registry, the entry the `choose` behind
/// `oracle_address` picks is the matching entry itself.
proof fn lemma_oracle_choose_is(s: Seq<OracleEntry>, a: TokenId, b: TokenId, i: int)
    requires
        oracle_routes_unique(s),
        0 <= i < s.len(),
        oracle_matches(s[i], a, b),
    ensures
        has_oracle(s, a, b),
        oracle_address(s, a, b) == s[i].address,
{
    assert(has_oracle(s, a, b));
    let j = choose|j: int| 0 <= j < s.len() && oracle_matches(s[j], a, b);
    if j < i {
        assert(!oracle_matches(s[i], s[j].first_token, s[j].second_token) && !oracle_matches(
            s[i],
            s[j].second_token,
            s[j].first_token,
        ));
    } else if i < j {
        assert(!oracle_matches(s[j], s[i].first_token, s[i].second_token) && !oracle_matches(
            s[j],
            s[i].second_token,
            s[i].first_token,
        ));
    }
}

/// Removing an oracle route removes it for both orderings of its pair and
/// touches no other route.
proof fn lemma_oracle_remove(s: Seq<OracleEntry>, i: int)
    requires
        oracle_routes_unique(s),
        0 <= i < s.len(),
    ensures
        oracle_routes_unique(s.remove(i)),
        !has_oracle(s.remove(i), s[i].first_token, s[i].second_token),
        !has_oracle(s.remove(i), s[i].second_token, s[i].first_token),
        oracle_preserved_except(s, s.remove(i), s[i].first_token, s[i].second_token),
{
    let r = s.remove(i);
    assert forall|p: int, q: int| #![trigger r[p], r[q]] 0 <= p < q < r.len() implies
        !oracle_matches(r[q], r[p].first_token, r[p].second_token) && !oracle_matches(
        r[q],
        r[p].second_token,
        r[p].first_token,
    ) by {
        let p0 = if p < i { p } else { p + 1 };
        let q0 = if q < i { q } else { q + 1 };
        assert(r[p] == s[p0]);
        assert(r[q] == s[q0]);
    }
    assert forall|k: int| 0 <= k < r.len() implies !oracle_matches(
        r[k],
        s[i].first_token,
        s[i].second_token,
    ) && !oracle_matches(r[k], s[i].second_token, s[i].first_token) by {
        let k0 = if k < i { k } else { k + 1 };
        assert(r[k] == s[k0]);
        if k0 < i {
            assert(!oracle_matches(s[i], s[k0].first_token, s[k0].second_token) && !oracle_matches(
                s[i],
                s[k0].second_token,
                s[k0].first_token,
            ));
        } else {
            assert(!oracle_matches(s[k0], s[i].first_token, s[i].second_token) && !oracle_matches(
                s[k0],
                s[i].second_token,
                s[i].first_token,
            ));
        }
    }
    assert forall|a: TokenId, b: TokenId|
        !((a == s[i].first_token && b == s[i].second_token) || (a == s[i].second_token && b
            == s[i].first_token)) implies #[trigger] has_oracle(r, a, b) == has_oracle(s, a, b) && (
    has_oracle(s, a, b) ==> oracle_address(r, a, b) == oracle_address(s, a, b)) by {
        if has_oracle(s, a, b) {
            let k = choose|k: int| 0 <= k < s.len() && oracle_matches(s[k], a, b);
            let kr = if k < i { k } else { k - 1 };
            assert(r[kr] == s[k]);
            assert(has_oracle(r, a, b));
            let m = choose|m: int| 0 <= m < r.len() && oracle_matches(r[m], a, b);
            let m0 = if m < i { m } else { m + 1 };
            assert(r[m] == s[m0]);
            lemma_oracle_choose_is(s, a, b, m0);
            if m < kr {
                assert(!oracle_matches(r[kr], r[m].first_token, r[m].second_token)
                    && !oracle_matches(r[kr], r[m].second_token, r[m].first_token));
            } else if kr < m {
                assert(!oracle_matches(r[m], r[kr].first_token, r[kr].second_token)
                    && !oracle_matches(r[m], r[kr].second_token, r[kr].first_token));
            }
        } else {
            if has_oracle(r, a, b) {
                let m = choose|m: int| 0 <= m < r.len() && oracle_matches(r[m], a, b);
                let m0 = if m < i { m } else { m + 1 };
                assert(r[m] == s[m0]);
                assert(has_oracle(s, a, b));
            }
        }
    }
}

} // verus!
