//! Position-accounting and value-resolution engine for a yield-farming pool
//! and its staking variant.
//!
//! The library holds the verified business rules: proportional-share pool
//! arithmetic, price-resolution decisions, the position lifecycle with its
//! early-exit penalty, the unbonding state machine, and the two-phase
//! token-issuance handshake. The host ledger (storage, transfers, epochs,
//! remote contract calls) stays outside: every function here works on plain
//! values the host hands in and returns the values the host must act on.

use vstd::prelude::*;

pub mod liquidity_pool;
pub mod farm;
pub mod staking;
pub mod fee;

verus! {

/// Identifier of an asset on the host ledger. The value `NATIVE_TOKEN`
/// stands for the ledger's native currency; every other value is a
/// ledger-issued (labeled) asset.
pub type TokenId = u64;

/// Identifier of an account or contract on the host ledger. The value
/// `ZERO_ADDRESS` is the reserved null address.
pub type Address = u64;

/// A point on the host ledger's epoch clock.
pub type Epoch = u64;

/// The ledger's native currency, the only asset eligible for an issuance-fee
/// refund.
pub const NATIVE_TOKEN: TokenId = 0;

/// The reserved null address; no real contract lives there.
pub const ZERO_ADDRESS: Address = 0;

/// Why an operation was rejected. Every rejection leaves the state unchanged.
#[derive(Clone, Copy, Debug, PartialEq, Eq, Structural)]
pub enum FarmError {
    /// Caller is neither the owner nor an authorized delegate.
    PermissionDenied,
    /// The pause gate is closed for this entry point.
    NotActive,
    /// A supplied quantity is zero where a positive one is needed.
    InvalidAmount,
    /// The deposit resolves to zero pool value or zero shares.
    ZeroContribution,
    /// The redeemed quantity's principal rounds down to nothing.
    ZeroPrincipal,
    /// The redeemed quantity's origin-asset part rounds down to nothing.
    ZeroOriginAmount,
    /// The asset is not registered for paired-liquidity accounting.
    UnknownAsset,
    /// The presented token is not this pool's position token, or the
    /// referenced position record does not exist.
    UnknownToken,
    /// No oracle route exists for either constituent of the decomposition.
    NoPriceRoute,
    /// More shares presented than the pool has outstanding.
    InsufficientShares,
    /// The on-hand balance cannot cover the amount owed; ledger drift.
    InsufficientBalance,
    /// The position token class has not been issued yet.
    NotIssued,
    /// The position token class has already been issued.
    AlreadyIssued,
    /// Withdrawal requested before the release epoch.
    UnbondTooEarly,
    /// No pending unbond entry exists for this account and asset.
    NothingToUnbond,
    /// A position record's attributes cannot be read back.
    DecodingError,
    /// The pool does not use paired-liquidity accounting, so the operation
    /// has no meaning for it.
    NotPairedPool,
    /// An oracle route already exists for this asset pair (in either
    /// ordering).
    OracleAlreadyRegistered,
    /// No oracle route exists for this asset pair.
    OracleNotRegistered,
    /// The registered oracle for this pair lives at a different address.
    OracleAddressMismatch,
    /// A pair contract is already registered for this asset.
    PairAlreadyRegistered,
    /// No pair contract is registered for this asset.
    PairNotRegistered,
    /// The registered pair contract for this asset lives at a different
    /// address.
    PairAddressMismatch,
    /// The null address was supplied where a real one is needed.
    ZeroAddress,
    /// The native currency was supplied where a ledger-issued asset is
    /// needed.
    NotLabeledAsset,
}

} // verus!
