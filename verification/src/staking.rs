//! Staking variant: the same pool and position arithmetic as the farm, with
//! a mandatory unbonding delay between unstaking and withdrawal.
//!
//! Unstake burns the position and computes the entitlement, but the
//! underlying-asset quantity is not transferred: it accumulates in a pending
//! entry per (account, asset) and is released only once the entry's release
//! epoch has passed. The reward leg is priced and paid at unstake time.

use vstd::prelude::*;
use crate::{Address, Epoch, FarmError, TokenId, NATIVE_TOKEN, ZERO_ADDRESS};
use crate::farm::{IssueRequest, IssueResult, Refund};
use crate::liquidity_pool::{
    mul_div, principal_part, reward_amount, shares_for_value, value_attributable, LiquidityPool,
};

verus! {

/// Epochs between an unstake and the earliest epoch its funds may be
/// withdrawn.
pub const UNBOND_DELAY_EPOCHS: u64 = 14400;

/// The immutable record minted with each stake: the origin asset and amount
/// deposited, its value in the pool's unit of account, and the shares
/// credited for it.
#[derive(Clone, Copy, Debug, PartialEq, Eq, Structural)]
pub struct SFTAttributes {
    pub lp_token_id: TokenId,
    pub total_lp_tokens: u64,
    pub total_initial_worth: u64,
    pub total_amount_liquidity: u64,
}

/// A minted staking position: its immutable attributes and how much of its
/// token quantity is still outstanding.
#[derive(Clone, Copy, Debug, PartialEq, Eq, Structural)]
pub struct StakeRecord {
    pub attributes: SFTAttributes,
    pub outstanding: u64,
}

/// Registry entry: a paired-liquidity asset and the pair contract able to
/// decompose it.
#[derive(Clone, Copy, Debug, PartialEq, Eq, Structural)]
pub struct LpPairEntry {
    pub token: TokenId,
    pub address: Address,
}

/// One pending unbond: what one account is owed in one asset, and from which
/// epoch on it may be withdrawn.
#[derive(Clone, Copy, Debug, PartialEq, Eq, Structural)]
pub struct UnbondEntry {
    pub account: Address,
    pub token: TokenId,
    pub amount: u64,
    pub release_epoch: Epoch,
}

/// What the host must do after a successful stake: transfer `liquidity`
/// units of the position token minted under `sft_nonce` to the caller.
#[derive(Clone, Copy, Debug, PartialEq, Eq, Structural)]
pub struct StakeReceipt {
    pub sft_nonce: u64,
    pub liquidity: u64,
}

/// What the host must transfer right after a successful unstake: the reward,
/// in the pool's unit of account. A zero reward means nothing to transfer.
/// The principal is not here — it waits in the pending unbond entry.
#[derive(Clone, Copy, Debug, PartialEq, Eq, Structural)]
pub struct UnstakeReceipt {
    pub reward_to_send: u64,
    pub reward_token_id: TokenId,
}

/// Whether a registration exists for `token`.
pub open spec fn has_lp_pair(s: Seq<LpPairEntry>, token: TokenId) -> bool {
    exists|i: int| 0 <= i < s.len() && s[i].token == token
}

/// The address registered for `token`; meaningful only when `has_lp_pair`
/// holds and the keys are unique.
pub open spec fn lp_pair_address(s: Seq<LpPairEntry>, token: TokenId) -> Address {
    s[choose|i: int| 0 <= i < s.len() && s[i].token == token].address
}

/// No two entries share an asset.
pub open spec fn lp_pairs_unique(s: Seq<LpPairEntry>) -> bool {
    forall|i: int, j: int|
        #![trigger s[i], s[j]]
        0 <= i < j < s.len() ==> s[i].token != s[j].token
}

/// Whether an unbond entry exists for `(account, token)`.
pub open spec fn has_pending(s: Seq<UnbondEntry>, account: Address, token: TokenId) -> bool {
    exists|i: int| 0 <= i < s.len() && s[i].account == account && s[i].token == token
}

/// The unbond entry for `(account, token)`; meaningful only when
/// `has_pending` holds and the keys are unique.
pub open spec fn pending_entry(s: Seq<UnbondEntry>, account: Address, token: TokenId)
    -> UnbondEntry {
    s[choose|i: int| 0 <= i < s.len() && s[i].account == account && s[i].token == token]
}

/// At most one outstanding entry per (account, asset).
pub open spec fn pending_unique(s: Seq<UnbondEntry>) -> bool {
    forall|i: int, j: int|
        #![trigger s[i], s[j]]
        0 <= i < j < s.len() ==> !(s[i].account == s[j].account && s[i].token == s[j].token)
}

/// Every (account, asset) key other than `(account, token)` keeps its
/// pending entry unchanged across a change from `pre` to `post`.
pub open spec fn pending_preserved_except(
    pre: Seq<UnbondEntry>,
    post: Seq<UnbondEntry>,
    account: Address,
    token: TokenId,
) -> bool {
    forall|c: Address, t: TokenId|
        !(c == account && t == token) ==> #[trigger] has_pending(post, c, t) == has_pending(
            pre,
            c,
            t,
        ) && (has_pending(pre, c, t) ==> pending_entry(post, c, t) == pending_entry(pre, c, t))
}

/// In a duplicate-free table, the entry the `choose` behind `pending_entry`
/// picks is the matching entry itself.
proof fn lemma_pending_choose_is(s: Seq<UnbondEntry>, account: Address, token: TokenId, i: int)
    requires
        pending_unique(s),
        0 <= i < s.len(),
        s[i].account == account,
        s[i].token == token,
    ensures
        has_pending(s, account, token),
        pending_entry(s, account, token) == s[i],
{
    assert(has_pending(s, account, token));
    let j = choose|j: int| 0 <= j < s.len() && s[j].account == account && s[j].token == token;
    if j < i {
        assert(!(s[j].account == s[i].account && s[j].token == s[i].token));
    } else if i < j {
        assert(!(s[i].account == s[j].account && s[i].token == s[j].token));
    }
}

/// Replacing the unique entry for a key by another entry under the same key
/// touches no other key.
proof fn lemma_pending_update(s: Seq<UnbondEntry>, i: int, e: UnbondEntry)
    requires
        pending_unique(s),
        0 <= i < s.len(),
        e.account == s[i].account,
        e.token == s[i].token,
    ensures
        pending_unique(s.update(i, e)),
        has_pending(s.update(i, e), e.account, e.token),
        pending_entry(s.update(i, e), e.account, e.token) == e,
        pending_preserved_except(s, s.update(i, e), e.account, e.token),
{
    let r = s.update(i, e);
    assert forall|p: int, q: int| #![trigger r[p], r[q]] 0 <= p < q < r.len() implies !(r[p].account
        == r[q].account && r[p].token == r[q].token) by {
        assert(s[p].account == r[p].account || p == i);
        assert(s[q].account == r[q].account || q == i);
    }
    lemma_pending_choose_is(r, e.account, e.token, i);
    assert forall|c: Address, t: TokenId| !(c == e.account && t == e.token) implies #[trigger]
        has_pending(r, c, t) == has_pending(s, c, t) && (has_pending(s, c, t) ==> pending_entry(
        r,
        c,
        t,
    ) == pending_entry(s, c, t)) by {
        if has_pending(s, c, t) {
            let k = choose|k: int| 0 <= k < s.len() && s[k].account == c && s[k].token == t;
            assert(k != i);
            assert(r[k] == s[k]);
            lemma_pending_choose_is(s, c, t, k);
            lemma_pending_choose_is(r, c, t, k);
        }
        if has_pending(r, c, t) {
            let k = choose|k: int| 0 <= k < r.len() && r[k].account == c && r[k].token == t;
            assert(k != i);
            assert(r[k] == s[k]);
            assert(has_pending(s, c, t));
        }
    }
}

/// Appending an entry for a key with no entry yet touches no other key.
proof fn lemma_pending_push(s: Seq<UnbondEntry>, e: UnbondEntry)
    requires
        pending_unique(s),
        !has_pending(s, e.account, e.token),
    ensures
        pending_unique(s.push(e)),
        has_pending(s.push(e), e.account, e.token),
        pending_entry(s.push(e), e.account, e.token) == e,
        pending_preserved_except(s, s.push(e), e.account, e.token),
{
    let r = s.push(e);
    let n = s.len() as int;
    assert forall|p: int, q: int| #![trigger r[p], r[q]] 0 <= p < q < r.len() implies !(r[p].account
        == r[q].account && r[p].token == r[q].token) by {
        if q < n {
            assert(r[p] == s[p]);
            assert(r[q] == s[q]);
        } else {
            assert(r[p] == s[p]);
        }
    }
    lemma_pending_choose_is(r, e.account, e.token, n);
    assert forall|c: Address, t: TokenId| !(c == e.account && t == e.token) implies #[trigger]
        has_pending(r, c, t) == has_pending(s, c, t) && (has_pending(s, c, t) ==> pending_entry(
        r,
        c,
        t,
    ) == pending_entry(s, c, t)) by {
        if has_pending(s, c, t) {
            let k = choose|k: int| 0 <= k < s.len() && s[k].account == c && s[k].token == t;
            assert(r[k] == s[k]);
            lemma_pending_choose_is(s, c, t, k);
            lemma_pending_choose_is(r, c, t, k);
        }
        if has_pending(r, c, t) {
            let k = choose|k: int| 0 <= k < r.len() && r[k].account == c && r[k].token == t;
            assert(k < n);
            assert(r[k] == s[k]);
            assert(has_pending(s, c, t));
        }
    }
}

/// Removing the unique entry for a key clears that key and touches no other.
proof fn lemma_pending_remove(s: Seq<UnbondEntry>, i: int)
    requires
        pending_unique(s),
        0 <= i < s.len(),
    ensures
        pending_unique(s.remove(i)),
        !has_pending(s.remove(i), s[i].account, s[i].token),
        pending_preserved_except(s, s.remove(i), s[i].account, s[i].token),
{
    let r = s.remove(i);
    assert forall|p: int, q: int| #![trigger r[p], r[q]] 0 <= p < q < r.len() implies !(r[p].account
        == r[q].account && r[p].token == r[q].token) by {
        let p0 = if p < i { p } else { p + 1 };
        let q0 = if q < i { q } else { q + 1 };
        assert(r[p] == s[p0]);
        assert(r[q] == s[q0]);
    }
    assert forall|k: int| 0 <= k < r.len() implies !(r[k].account == s[i].account && r[k].token
        == s[i].token) by {
        let k0 = if k < i { k } else { k + 1 };
        assert(r[k] == s[k0]);
        if k0 < i {
            assert(!(s[k0].account == s[i].account && s[k0].token == s[i].token));
        } else {
            assert(!(s[i].account == s[k0].account && s[i].token == s[k0].token));
        }
    }
    assert forall|c: Address, t: TokenId| !(c == s[i].account && t == s[i].token) implies #[trigger]
        has_pending(r, c, t) == has_pending(s, c, t) && (has_pending(s, c, t) ==> pending_entry(
        r,
        c,
        t,
    ) == pending_entry(s, c, t)) by {
        if has_pending(s, c, t) {
            let k = choose|k: int| 0 <= k < s.len() && s[k].account == c && s[k].token == t;
            let kr = if k < i { k } else { k - 1 };
            assert(r[kr] == s[k]);
            lemma_pending_choose_is(s, c, t, k);
            lemma_pending_choose_is(r, c, t, kr);
        }
        if has_pending(r, c, t) {
            let k = choose|k: int| 0 <= k < r.len() && r[k].account == c && r[k].token == t;
            let k0 = if k < i { k } else { k + 1 };
            assert(r[k] == s[k0]);
            assert(has_pending(s, c, t));
        }
    }
}

/// The whole staking contract state.
pub struct Staking {
    /// The pool's unit of account (the wrapped native asset).
    pub wegld_token_identifier: TokenId,
    /// The deployer; only the owner may request issuance.
    pub owner: Address,
    /// The staking position token class, once the handshake adopted one.
    pub sft_staking_token_identifier: Option<TokenId>,
    /// The shared pool ledger.
    pub pool: LiquidityPool,
    /// Which pair contract can decompose each accepted staking asset.
    pub pair_for_lp_token: Vec<LpPairEntry>,
    /// Minted staking position records; serials start at 1.
    pub positions: Vec<StakeRecord>,
    /// Pending unbonds, at most one per (account, asset).
    pub pending: Vec<UnbondEntry>,
}

impl Staking {
    /// Well-formedness: the pool conserves value against shares, the
    /// registries and the pending table hold no duplicate keys, and every
    /// minted record carries strictly positive value and shares with no more
    /// outstanding than was minted.
    pub open spec fn wf(&self) -> bool {
        &&& self.pool.wf()
        &&& lp_pairs_unique(self.pair_for_lp_token@)
        &&& pending_unique(self.pending@)
        &&& forall|i: int|
            0 <= i < self.positions@.len() ==> {
                let r = #[trigger] self.positions@[i];
                r.attributes.total_amount_liquidity > 0 && r.attributes.total_initial_worth > 0
                    && r.outstanding <= r.attributes.total_amount_liquidity
            }
    }

    /// Deploys the staking contract, owned by the deploying caller, with an
    /// empty pool and no position token class yet.
    pub fn init(wegld_token_identifier: TokenId, caller: Address) -> (r: Staking)
        ensures
            r.wegld_token_identifier == wegld_token_identifier,
            r.owner == caller,
            r.sft_staking_token_identifier is None,
            r.pool.virtual_reserves == 0,
            r.pool.total_supply == 0,
            r.pair_for_lp_token@.len() == 0,
            r.positions@.len() == 0,
            r.pending@.len() == 0,
            r.wf(),
    {
        Staking {
            wegld_token_identifier,
            owner: caller,
            sft_staking_token_identifier: None,
            pool: LiquidityPool::new(),
            pair_for_lp_token: Vec::new(),
            positions: Vec::new(),
            pending: Vec::new(),
        }
    }

    /// The pair contract registered for `lp_token`, or the null address when
    /// none is registered.
    pub fn get_pair_for_lp_token(&self, lp_token: TokenId) -> (r: Address)
        requires
            lp_pairs_unique(self.pair_for_lp_token@),
        ensures
            r == (if has_lp_pair(self.pair_for_lp_token@, lp_token) {
                lp_pair_address(self.pair_for_lp_token@, lp_token)
            } else {
                ZERO_ADDRESS
            }),
    {
        let n = self.pair_for_lp_token.len();
        let mut i: usize = 0;
        while i < n
            invariant
                n == self.pair_for_lp_token@.len(),
                i <= n,
                lp_pairs_unique(self.pair_for_lp_token@),
                forall|k: int| 0 <= k < i ==> self.pair_for_lp_token@[k].token != lp_token,
            decreases n - i,
        {
            if self.pair_for_lp_token[i].token == lp_token {
                proof {
                    let j = choose|j: int|
                        0 <= j < self.pair_for_lp_token@.len()
                            && self.pair_for_lp_token@[j].token == lp_token;
                    assert(self.pair_for_lp_token@[i as int].token == lp_token);
                    assert(j == i as int);
                }
                return self.pair_for_lp_token[i].address;
            }
            i = i + 1;
        }
        ZERO_ADDRESS
    }

    /// Registers (or re-points) the pair contract for `lp_token`. Every
    /// other registration is untouched.
    #[verifier::loop_isolation(false)]
    pub fn set_pair_for_lp_token(&mut self, lp_token: TokenId, pair_address: Address)
        requires
            old(self).wf(),
        ensures
            final(self).wf(),
            has_lp_pair(final(self).pair_for_lp_token@, lp_token),
            lp_pair_address(final(self).pair_for_lp_token@, lp_token) == pair_address,
            lp_pairs_preserved_except(
                old(self).pair_for_lp_token@,
                final(self).pair_for_lp_token@,
                lp_token,
            ),
            *final(self) == (Staking {
                pair_for_lp_token: final(self).pair_for_lp_token,
                ..*old(self)
            }),
    {
        let n = self.pair_for_lp_token.len();
        let mut i: usize = 0;
        while i < n
            invariant
                *self == *old(self),
                n == self.pair_for_lp_token@.len(),
                i <= n,
                lp_pairs_unique(self.pair_for_lp_token@),
                forall|k: int| 0 <= k < i ==> self.pair_for_lp_token@[k].token != lp_token,
            decreases n - i,
        {
            if self.pair_for_lp_token[i].token == lp_token {
                let entry = LpPairEntry { token: lp_token, address: pair_address };
                self.pair_for_lp_token[i] = entry;
                proof {
                    lemma_lp_pair_update(old(self).pair_for_lp_token@, i as int, entry);
                    assert(self.pair_for_lp_token@ == old(self).pair_for_lp_token@.update(
                        i as int,
                        entry,
                    ));
                }
                return ;
            }
            i = i + 1;
        }
        let entry = LpPairEntry { token: lp_token, address: pair_address };
        self.pair_for_lp_token.push(entry);
        proof {
            lemma_lp_pair_push(old(self).pair_for_lp_token@, entry);
            assert(self.pair_for_lp_token@ == old(self).pair_for_lp_token@.push(entry));
        }
    }

    /// Looks up the pending-unbond table for `(account, token)`.
    fn find_pending(&self, account: Address, token: TokenId) -> (r: Option<usize>)
        requires
            pending_unique(self.pending@),
        ensures
            r is Some <==> has_pending(self.pending@, account, token),
            r matches Some(j) ==> j < self.pending@.len() && self.pending@[j as int]
                == pending_entry(self.pending@, account, token) && self.pending@[j as int].account
                == account && self.pending@[j as int].token == token,
    {
        let n = self.pending.len();
        let mut i: usize = 0;
        while i < n
            invariant
                n == self.pending@.len(),
                i <= n,
                pending_unique(self.pending@),
                forall|k: int|
                    0 <= k < i ==> !(self.pending@[k].account == account && self.pending@[k].token
                        == token),
            decreases n - i,
        {
            let e = self.pending[i];
            if e.account == account && e.token == token {
                proof {
                    lemma_pending_choose_is(self.pending@, account, token, i as int);
                }
                return Some(i);
            }
            i = i + 1;
        }
        None
    }

    /// Why a stake would reject, or `None` if it would mint.
    pub open spec fn spec_stake_error(self, lp_token: TokenId, wegld_amount: u64) -> Option<
        FarmError,
    > {
        if !has_lp_pair(self.pair_for_lp_token@, lp_token) || lp_pair_address(
            self.pair_for_lp_token@,
            lp_token,
        ) == ZERO_ADDRESS {
            Some(FarmError::UnknownAsset)
        } else if wegld_amount == 0 || shares_for_value(
            wegld_amount as int,
            self.pool.virtual_reserves as int,
            self.pool.total_supply as int,
        ) == 0 {
            Some(FarmError::ZeroContribution)
        } else {
            None
        }
    }

    /// Stakes a deposit of `amount` of the paired-liquidity asset `lp_token`
    /// whose value in the unit of account resolved to `wegld_amount` (the
    /// host asks the registered pair contract, as the farm's price
    /// resolution does).
    ///
    /// Credits the pool, mints a staking position record, and tells the host
    /// to transfer the minted quantity to the caller. A deposit worth
    /// nothing, or too little to mint a single share, is rejected rather
    /// than recorded. Nothing changes on any rejection.
    pub fn stake(&mut self, lp_token: TokenId, amount: u64, wegld_amount: u64) -> (r: Result<
        StakeReceipt,
        FarmError,
    >)
        requires
            old(self).wf(),
            old(self).pool.virtual_reserves + wegld_amount <= u64::MAX,
            old(self).pool.total_supply + shares_for_value(
                wegld_amount as int,
                old(self).pool.virtual_reserves as int,
                old(self).pool.total_supply as int,
            ) <= u64::MAX,
        ensures
            final(self).wf(),
            r is Err <==> old(self).spec_stake_error(lp_token, wegld_amount) is Some,
            r is Err ==> r == Err::<StakeReceipt, FarmError>(
                old(self).spec_stake_error(lp_token, wegld_amount).unwrap(),
            ) && *final(self) == *old(self),
            r matches Ok(receipt) ==> {
                &&& receipt.liquidity == shares_for_value(
                    wegld_amount as int,
                    old(self).pool.virtual_reserves as int,
                    old(self).pool.total_supply as int,
                )
                &&& receipt.sft_nonce == old(self).positions@.len() + 1
                &&& final(self).pool.virtual_reserves == old(self).pool.virtual_reserves
                    + wegld_amount
                &&& final(self).pool.total_supply == old(self).pool.total_supply
                    + receipt.liquidity
                &&& final(self).positions@ == old(self).positions@.push(
                    (StakeRecord {
                        attributes: SFTAttributes {
                            lp_token_id: lp_token,
                            total_lp_tokens: amount,
                            total_initial_worth: wegld_amount,
                            total_amount_liquidity: receipt.liquidity,
                        },
                        outstanding: receipt.liquidity,
                    }),
                )
                &&& *final(self) == (Staking {
                    pool: final(self).pool,
                    positions: final(self).positions,
                    ..*old(self)
                })
            },
    {
        let pair = self.get_pair_for_lp_token(lp_token);
        if pair == ZERO_ADDRESS {
            return Err(FarmError::UnknownAsset);
        }
        if wegld_amount == 0 {
            return Err(FarmError::ZeroContribution);
        }
        let liquidity = self.pool.shares_for(wegld_amount);
        if liquidity == 0 {
            return Err(FarmError::ZeroContribution);
        }
        let added = self.pool.add_liquidity(wegld_amount);
        if let Err(e) = added {
            return Err(e);
        }
        let attributes = SFTAttributes {
            lp_token_id: lp_token,
            total_lp_tokens: amount,
            total_initial_worth: wegld_amount,
            total_amount_liquidity: liquidity,
        };
        self.positions.push(StakeRecord { attributes, outstanding: liquidity });
        Ok(StakeReceipt { sft_nonce: self.positions.len() as u64, liquidity })
    }

    /// Why an unstake would reject, or `None` if it would burn and accrue.
    pub open spec fn spec_unstake_error(
        self,
        staking_token: TokenId,
        token_nonce: u64,
        liquidity: u64,
        wegld_balance: u64,
    ) -> Option<FarmError> {
        if Some(staking_token) != self.sft_staking_token_identifier {
            Some(FarmError::UnknownToken)
        } else if !(1 <= token_nonce <= self.positions@.len()) {
            Some(FarmError::DecodingError)
        } else {
            let record = self.positions@[token_nonce - 1];
            let a = record.attributes;
            let initial_worth = principal_part(
                a.total_initial_worth as int,
                liquidity as int,
                a.total_amount_liquidity as int,
            );
            if liquidity > record.outstanding {
                Some(FarmError::InsufficientBalance)
            } else if !has_lp_pair(self.pair_for_lp_token@, a.lp_token_id) || lp_pair_address(
                self.pair_for_lp_token@,
                a.lp_token_id,
            ) == ZERO_ADDRESS {
                Some(FarmError::UnknownAsset)
            } else if initial_worth == 0 {
                Some(FarmError::ZeroPrincipal)
            } else if principal_part(
                a.total_lp_tokens as int,
                liquidity as int,
                a.total_amount_liquidity as int,
            ) == 0 {
                Some(FarmError::ZeroOriginAmount)
            } else if liquidity > self.pool.total_supply {
                Some(FarmError::InsufficientShares)
            } else if reward_amount(
                liquidity as int,
                initial_worth,
                self.pool.virtual_reserves as int,
                self.pool.total_supply as int,
            ) != 0 && wegld_balance <= reward_amount(
                liquidity as int,
                initial_worth,
                self.pool.virtual_reserves as int,
                self.pool.total_supply as int,
            ) {
                Some(FarmError::InsufficientBalance)
            } else {
                None
            }
        }
    }

    /// The release epoch an unstake at `current_epoch` leaves behind: the
    /// mandatory delay from now, or the already-pending release epoch if
    /// that lies even later — a repeated unstake never moves a release
    /// backward.
    pub open spec fn spec_next_release(self, caller: Address, token: TokenId, current_epoch: Epoch)
        -> int {
        let base = current_epoch + UNBOND_DELAY_EPOCHS;
        if has_pending(self.pending@, caller, token) && pending_entry(
            self.pending@,
            caller,
            token,
        ).release_epoch > base {
            pending_entry(self.pending@, caller, token).release_epoch as int
        } else {
            base
        }
    }

    /// The pending amount an unstake accumulates into, before the new
    /// entitlement is added.
    pub open spec fn spec_pending_amount(self, caller: Address, token: TokenId) -> int {
        if has_pending(self.pending@, caller, token) {
            pending_entry(self.pending@, caller, token).amount as int
        } else {
            0
        }
    }

    /// Unstakes by presenting `liquidity` units of the staking position
    /// token minted under `token_nonce`.
    ///
    /// The presented quantity is burned and the pool debited exactly as the
    /// farm's exit does; the reward is priced and paid now (the host
    /// transfers it, after checking its unit-of-account balance can cover
    /// it), but the proportional underlying-asset quantity is not
    /// transferred: it accumulates into the caller's pending unbond entry
    /// for that asset, whose release epoch becomes the mandatory delay from
    /// now or the already-pending release, whichever is later. Nothing
    /// changes on any rejection.
    pub fn unstake(
        &mut self,
        caller: Address,
        staking_token: TokenId,
        token_nonce: u64,
        liquidity: u64,
        current_epoch: Epoch,
        wegld_balance: u64,
    ) -> (r: Result<UnstakeReceipt, FarmError>)
        requires
            old(self).wf(),
            current_epoch + UNBOND_DELAY_EPOCHS <= u64::MAX,
            1 <= token_nonce <= old(self).positions@.len() ==> old(self).spec_pending_amount(
                caller,
                old(self).positions@[token_nonce - 1].attributes.lp_token_id,
            ) + principal_part(
                old(self).positions@[token_nonce - 1].attributes.total_lp_tokens as int,
                liquidity as int,
                old(self).positions@[token_nonce - 1].attributes.total_amount_liquidity as int,
            ) <= u64::MAX,
        ensures
            final(self).wf(),
            r is Err <==> old(self).spec_unstake_error(
                staking_token,
                token_nonce,
                liquidity,
                wegld_balance,
            ) is Some,
            r is Err ==> r == Err::<UnstakeReceipt, FarmError>(
                old(self).spec_unstake_error(
                    staking_token,
                    token_nonce,
                    liquidity,
                    wegld_balance,
                ).unwrap(),
            ) && *final(self) == *old(self),
            r matches Ok(receipt) ==> {
                let record = old(self).positions@[token_nonce - 1];
                let a = record.attributes;
                let initial_worth = principal_part(
                    a.total_initial_worth as int,
                    liquidity as int,
                    a.total_amount_liquidity as int,
                );
                let lp_tokens = principal_part(
                    a.total_lp_tokens as int,
                    liquidity as int,
                    a.total_amount_liquidity as int,
                );
                &&& receipt.reward_to_send == reward_amount(
                    liquidity as int,
                    initial_worth,
                    old(self).pool.virtual_reserves as int,
                    old(self).pool.total_supply as int,
                )
                &&& receipt.reward_token_id == old(self).wegld_token_identifier
                &&& final(self).pool.total_supply == old(self).pool.total_supply - liquidity
                &&& final(self).pool.virtual_reserves == old(self).pool.virtual_reserves
                    - value_attributable(
                        liquidity as int,
                        old(self).pool.virtual_reserves as int,
                        old(self).pool.total_supply as int,
                    )
                &&& final(self).positions@ == old(self).positions@.update(
                    token_nonce - 1,
                    (StakeRecord {
                        attributes: a,
                        outstanding: (record.outstanding - liquidity) as u64,
                    }),
                )
                &&& has_pending(final(self).pending@, caller, a.lp_token_id)
                &&& pending_entry(final(self).pending@, caller, a.lp_token_id) == (UnbondEntry {
                    account: caller,
                    token: a.lp_token_id,
                    amount: (old(self).spec_pending_amount(caller, a.lp_token_id) + lp_tokens) as u64,
                    release_epoch: old(self).spec_next_release(
                        caller,
                        a.lp_token_id,
                        current_epoch,
                    ) as u64,
                })
                &&& pending_preserved_except(
                    old(self).pending@,
                    final(self).pending@,
                    caller,
                    a.lp_token_id,
                )
                &&& *final(self) == (Staking {
                    pool: final(self).pool,
                    positions: final(self).positions,
                    pending: final(self).pending,
                    ..*old(self)
                })
            },
    {
        let sft_id = match self.sft_staking_token_identifier {
            Some(id) => id,
            None => {
                return Err(FarmError::UnknownToken);
            },
        };
        if staking_token != sft_id {
            return Err(FarmError::UnknownToken);
        }
        if token_nonce == 0 || token_nonce > self.positions.len() as u64 {
            return Err(FarmError::DecodingError);
        }
        // Binding the length shows the serial fits the machine word.
        let _count: usize = self.positions.len();
        let idx: usize = (token_nonce - 1) as usize;
        let record = self.positions[idx];
        let attributes = record.attributes;
        if liquidity > record.outstanding {
            return Err(FarmError::InsufficientBalance);
        }
        let pair = self.get_pair_for_lp_token(attributes.lp_token_id);
        if pair == ZERO_ADDRESS {
            return Err(FarmError::UnknownAsset);
        }
        proof {
            crate::liquidity_pool::lemma_principal_bounded(
                attributes.total_initial_worth as int,
                liquidity as int,
                attributes.total_amount_liquidity as int,
            );
            crate::liquidity_pool::lemma_principal_bounded(
                attributes.total_lp_tokens as int,
                liquidity as int,
                attributes.total_amount_liquidity as int,
            );
        }
        let initial_worth = mul_div(
            attributes.total_initial_worth,
            liquidity,
            attributes.total_amount_liquidity,
        );
        if initial_worth == 0 {
            return Err(FarmError::ZeroPrincipal);
        }
        let lp_tokens = mul_div(
            attributes.total_lp_tokens,
            liquidity,
            attributes.total_amount_liquidity,
        );
        if lp_tokens == 0 {
            return Err(FarmError::ZeroOriginAmount);
        }
        let reward = match self.pool.calculate_reward(liquidity, initial_worth as u128) {
            Ok(reward) => reward,
            Err(e) => {
                return Err(e);
            },
        };
        if reward != 0 && wegld_balance <= reward {
            return Err(FarmError::InsufficientBalance);
        }
        let pending_idx = self.find_pending(caller, attributes.lp_token_id);
        let removed = self.pool.remove_liquidity(liquidity, initial_worth);
        if let Err(e) = removed {
            return Err(e);
        }
        let mut burned = record;
        burned.outstanding = burned.outstanding - liquidity;
        self.positions[idx] = burned;
        let base_release = current_epoch + UNBOND_DELAY_EPOCHS;
        match pending_idx {
            Some(j) => {
                let existing = self.pending[j];
                let updated = UnbondEntry {
                    account: caller,
                    token: attributes.lp_token_id,
                    amount: existing.amount + lp_tokens,
                    release_epoch: if existing.release_epoch > base_release {
                        existing.release_epoch
                    } else {
                        base_release
                    },
                };
                self.pending[j] = updated;
                proof {
                    lemma_pending_update(old(self).pending@, j as int, updated);
                    assert(self.pending@ == old(self).pending@.update(j as int, updated));
                }
            },
            None => {
                let fresh = UnbondEntry {
                    account: caller,
                    token: attributes.lp_token_id,
                    amount: lp_tokens,
                    release_epoch: base_release,
                };
                self.pending.push(fresh);
                proof {
                    lemma_pending_push(old(self).pending@, fresh);
                    assert(self.pending@ == old(self).pending@.push(fresh));
                }
            },
        }
        Ok(
            UnstakeReceipt {
                reward_to_send: reward,
                reward_token_id: self.wegld_token_identifier,
            },
        )
    }

    /// Why a withdrawal would reject, or `None` if it would pay.
    pub open spec fn spec_unbond_error(
        self,
        caller: Address,
        lp_token: TokenId,
        current_epoch: Epoch,
        lp_token_balance: u64,
    ) -> Option<FarmError> {
        if !has_pending(self.pending@, caller, lp_token) {
            Some(FarmError::NothingToUnbond)
        } else if current_epoch < pending_entry(self.pending@, caller, lp_token).release_epoch {
            Some(FarmError::UnbondTooEarly)
        } else if lp_token_balance <= pending_entry(self.pending@, caller, lp_token).amount {
            Some(FarmError::InsufficientBalance)
        } else {
            None
        }
    }

    /// Withdraws the caller's pending unbond in `lp_token`: rejected before
    /// the release epoch, allowed from the release epoch on. The host must
    /// hold more of the asset than is owed (a consistency check against
    /// ledger drift), transfers the returned amount, and the entry is
    /// cleared. Nothing changes on any rejection.
    pub fn unbond(
        &mut self,
        caller: Address,
        lp_token: TokenId,
        current_epoch: Epoch,
        lp_token_balance: u64,
    ) -> (r: Result<u64, FarmError>)
        requires
            old(self).wf(),
        ensures
            final(self).wf(),
            r is Err <==> old(self).spec_unbond_error(
                caller,
                lp_token,
                current_epoch,
                lp_token_balance,
            ) is Some,
            r is Err ==> r == Err::<u64, FarmError>(
                old(self).spec_unbond_error(
                    caller,
                    lp_token,
                    current_epoch,
                    lp_token_balance,
                ).unwrap(),
            ) && *final(self) == *old(self),
            r matches Ok(amount) ==> {
                &&& amount == pending_entry(old(self).pending@, caller, lp_token).amount
                &&& !has_pending(final(self).pending@, caller, lp_token)
                &&& final(self).pending@.len() == old(self).pending@.len() - 1
                &&& pending_preserved_except(
                    old(self).pending@,
                    final(self).pending@,
                    caller,
                    lp_token,
                )
                &&& *final(self) == (Staking { pending: final(self).pending, ..*old(self) })
            },
    {
        let pending_idx = match self.find_pending(caller, lp_token) {
            Some(j) => j,
            None => {
                return Err(FarmError::NothingToUnbond);
            },
        };
        let entry = self.pending[pending_idx];
        if current_epoch < entry.release_epoch {
            return Err(FarmError::UnbondTooEarly);
        }
        if lp_token_balance <= entry.amount {
            return Err(FarmError::InsufficientBalance);
        }
        let _ = self.pending.remove(pending_idx);
        proof {
            lemma_pending_remove(old(self).pending@, pending_idx as int);
            assert(self.pending@ == old(self).pending@.remove(pending_idx as int));
        }
        Ok(entry.amount)
    }

    /// Why an issuance request would reject, or `None` if it goes out.
    pub open spec fn spec_sft_issue_error(self, caller: Address) -> Option<FarmError> {
        if caller != self.owner {
            Some(FarmError::PermissionDenied)
        } else if self.sft_staking_token_identifier is Some {
            Some(FarmError::AlreadyIssued)
        } else {
            None
        }
    }

    /// First phase of the issuance handshake: only the owner may request the
    /// staking position token class, once. The host forwards the request and
    /// later reports through `sft_issue_callback`.
    pub fn sft_issue(&self, caller: Address, issue_cost: u64) -> (r: Result<
        IssueRequest,
        FarmError,
    >)
        ensures
            r is Err <==> self.spec_sft_issue_error(caller) is Some,
            r is Err ==> r == Err::<IssueRequest, FarmError>(
                self.spec_sft_issue_error(caller).unwrap(),
            ),
            r matches Ok(req) ==> req == (IssueRequest { caller, issue_cost }),
    {
        if caller != self.owner {
            return Err(FarmError::PermissionDenied);
        }
        if self.sft_staking_token_identifier.is_some() {
            return Err(FarmError::AlreadyIssued);
        }
        Ok(IssueRequest { caller, issue_cost })
    }

    /// Second phase of the issuance handshake. On success the returned
    /// identifier is adopted unless a competing request already settled one,
    /// in which case the duplicate is simply dropped, with no refund. Only
    /// the failure callback refunds the issuance fee to the original caller,
    /// and only when the fee came back in the native currency and is
    /// positive; the host performs the returned refund.
    pub fn sft_issue_callback(
        &mut self,
        caller: Address,
        result: IssueResult,
        returned_token: TokenId,
        returned_amount: u64,
    ) -> (refund: Option<Refund>)
        requires
            old(self).wf(),
        ensures
            final(self).wf(),
            final(self).sft_staking_token_identifier == (match result {
                IssueResult::Issued(t) => if old(self).sft_staking_token_identifier is None {
                    Some(t)
                } else {
                    old(self).sft_staking_token_identifier
                },
                IssueResult::Failed => old(self).sft_staking_token_identifier,
            }),
            *final(self) == (Staking {
                sft_staking_token_identifier: final(self).sft_staking_token_identifier,
                ..*old(self)
            }),
            refund == (if result is Failed && returned_token == NATIVE_TOKEN && returned_amount
                > 0 {
                Some(Refund { to: caller, amount: returned_amount })
            } else {
                None::<Refund>
            }),
    {
        match result {
            IssueResult::Issued(token_identifier) => {
                if self.sft_staking_token_identifier.is_none() {
                    self.sft_staking_token_identifier = Some(token_identifier);
                }
                None
            },
            IssueResult::Failed => {
                if returned_token == NATIVE_TOKEN && returned_amount > 0 {
                    Some(Refund { to: caller, amount: returned_amount })
                } else {
                    None
                }
            },
        }
    }
}

/// In a duplicate-free registry, the entry the `choose` behind
/// `lp_pair_address` picks is the matching entry itself.
proof fn lemma_lp_pair_choose_is(s: Seq<LpPairEntry>, token: TokenId, i: int)
    requires
        lp_pairs_unique(s),
        0 <= i < s.len(),
        s[i].token == token,
    ensures
        has_lp_pair(s, token),
        lp_pair_address(s, token) == s[i].address,
{
    assert(has_lp_pair(s, token));
    let j = choose|j: int| 0 <= j < s.len() && s[j].token == token;
    if j < i {
        assert(s[j].token != s[i].token);
    } else if i < j {
        assert(s[i].token != s[j].token);
    }
}

/// Every key other than `token` keeps its registration (and address) across
/// a registry change from `pre` to `post`.
pub open spec fn lp_pairs_preserved_except(
    pre: Seq<LpPairEntry>,
    post: Seq<LpPairEntry>,
    token: TokenId,
) -> bool {
    forall|t: TokenId|
        t != token ==> #[trigger] has_lp_pair(post, t) == has_lp_pair(pre, t) && (has_lp_pair(
            pre,
            t,
        ) ==> lp_pair_address(post, t) == lp_pair_address(pre, t))
}

/// Re-pointing the unique entry for a key touches no other key.
proof fn lemma_lp_pair_update(s: Seq<LpPairEntry>, i: int, e: LpPairEntry)
    requires
        lp_pairs_unique(s),
        0 <= i < s.len(),
        e.token == s[i].token,
    ensures
        lp_pairs_unique(s.update(i, e)),
        has_lp_pair(s.update(i, e), e.token),
        lp_pair_address(s.update(i, e), e.token) == e.address,
        lp_pairs_preserved_except(s, s.update(i, e), e.token),
{
    let r = s.update(i, e);
    assert forall|p: int, q: int| #![trigger r[p], r[q]] 0 <= p < q < r.len() implies r[p].token
        != r[q].token by {
        assert(s[p].token == r[p].token || p == i);
        assert(s[q].token == r[q].token || q == i);
    }
    lemma_lp_pair_choose_is(r, e.token, i);
    assert forall|t: TokenId| t != e.token implies #[trigger] has_lp_pair(r, t) == has_lp_pair(
        s,
        t,
    ) && (has_lp_pair(s, t) ==> lp_pair_address(r, t) == lp_pair_address(s, t)) by {
        if has_lp_pair(s, t) {
            let k = choose|k: int| 0 <= k < s.len() && s[k].token == t;
            assert(k != i);
            assert(r[k] == s[k]);
            lemma_lp_pair_choose_is(s, t, k);
            lemma_lp_pair_choose_is(r, t, k);
        }
        if has_lp_pair(r, t) {
            let k = choose|k: int| 0 <= k < r.len() && r[k].token == t;
            assert(k != i);
            assert(r[k] == s[k]);
            assert(has_lp_pair(s, t));
        }
    }
}

/// Appending an entry for a key with no entry yet touches no other key.
proof fn lemma_lp_pair_push(s: Seq<LpPairEntry>, e: LpPairEntry)
    requires
        lp_pairs_unique(s),
        !has_lp_pair(s, e.token),
    ensures
        lp_pairs_unique(s.push(e)),
        has_lp_pair(s.push(e), e.token),
        lp_pair_address(s.push(e), e.token) == e.address,
        lp_pairs_preserved_except(s, s.push(e), e.token),
{
    let r = s.push(e);
    let n = s.len() as int;
    assert forall|p: int, q: int| #![trigger r[p], r[q]] 0 <= p < q < r.len() implies r[p].token
        != r[q].token by {
        if q < n {
            assert(r[p] == s[p]);
            assert(r[q] == s[q]);
        } else {
            assert(r[p] == s[p]);
        }
    }
    lemma_lp_pair_choose_is(r, e.token, n);
    assert forall|t: TokenId| t != e.token implies #[trigger] has_lp_pair(r, t) == has_lp_pair(
        s,
        t,
    ) && (has_lp_pair(s, t) ==> lp_pair_address(r, t) == lp_pair_address(s, t)) by {
        if has_lp_pair(s, t) {
            let k = choose|k: int| 0 <= k < s.len() && s[k].token == t;
            assert(r[k] == s[k]);
            lemma_lp_pair_choose_is(s, t, k);
            lemma_lp_pair_choose_is(r, t, k);
        }
        if has_lp_pair(r, t) {
            let k = choose|k: int| 0 <= k < r.len() && r[k].token == t;
            assert(k < n);
            assert(r[k] == s[k]);
            assert(has_lp_pair(s, t));
        }
    }
}

} // verus!
