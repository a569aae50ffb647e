//! Fee module of the paired-exchange contract: the registries naming where
//! collected fees go, which swap pairs are trusted for fee conversion, and
//! which addresses are exempt, with the switch that says whether fees are
//! collected at all.

use vstd::prelude::*;
use crate::{Address, TokenId};

verus! {

/// An ordered pair of assets.
#[derive(Clone, Copy, Debug, PartialEq, Eq, Structural)]
pub struct TokenPair {
    pub first_token: TokenId,
    pub second_token: TokenId,
}

/// A fee destination: the account fees are forwarded to, and the asset they
/// must be converted into first.
#[derive(Clone, Copy, Debug, PartialEq, Eq, Structural)]
pub struct FeeDestination {
    pub address: Address,
    pub token: TokenId,
}

/// A swap pair trusted for converting collected fees, and the contract that
/// serves it.
#[derive(Clone, Copy, Debug, PartialEq, Eq, Structural)]
pub struct TrustedSwapPair {
    pub pair: TokenPair,
    pub address: Address,
}

/// The fee-handling face of an exchange pair: whether fees are collected at
/// all.
pub trait FeeModule {
    /// What "enabled" means for the implementing state.
    spec fn spec_is_enabled(&self) -> bool;

    /// Whether fees are currently collected.
    fn is_enabled(&self) -> (r: bool)
        ensures
            r == self.spec_is_enabled(),
    ;
}

/// The fee-handling state of one exchange pair.
pub struct PairFees {
    /// Where collected fees are sent; fees are collected at all only while
    /// this is non-empty.
    pub destination_map: Vec<FeeDestination>,
    /// Swap pairs trusted for fee conversion.
    pub trusted_swap_pair: Vec<TrustedSwapPair>,
    /// Addresses exempt from fees.
    pub whitelist: Vec<Address>,
}

impl PairFees {
    /// A fee state with nothing registered: fees are off.
    pub fn new() -> (r: PairFees)
        ensures
            r.destination_map@.len() == 0,
            r.trusted_swap_pair@.len() == 0,
            r.whitelist@.len() == 0,
            !r.spec_is_enabled(),
    {
        PairFees { destination_map: Vec::new(), trusted_swap_pair: Vec::new(), whitelist: Vec::new() }
    }
}

impl FeeModule for PairFees {
    /// Fees are collected exactly while at least one destination is
    /// registered.
    open spec fn spec_is_enabled(&self) -> bool {
        self.destination_map@.len() != 0
    }

    fn is_enabled(&self) -> (r: bool) {
        !self.destination_map.is_empty()
    }
}

} // verus!
