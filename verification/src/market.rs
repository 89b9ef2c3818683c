//! The market record and the identity of a market.

use vstd::prelude::*;
use crate::error::MarketError;
use crate::identity::{zero_bytes, Identity};

verus! {

/// The identity of a market: the five terms that define it. Two markets with
/// the same terms are the same market.
#[derive(Clone, Copy, Debug, PartialEq, Eq, Hash)]
pub struct MarketId {
    /// The mint of the asset that is held as collateral.
    pub underlying_asset_mint: Identity,
    /// The mint of the asset in which the strike is paid.
    pub quote_asset_mint: Identity,
    /// The amount of underlying asset behind one contract.
    pub underlying_amount_per_contract: u64,
    /// The amount of quote asset paid to exercise one contract.
    pub quote_amount_per_contract: u64,
    /// The Unix timestamp at which the contracts expire.
    pub expiration_unix_timestamp: i64,
}

impl MarketId {
    /// The identity of the market with the given terms.
    pub fn derive(
        underlying_asset_mint: Identity,
        quote_asset_mint: Identity,
        underlying_amount_per_contract: u64,
        quote_amount_per_contract: u64,
        expiration_unix_timestamp: i64,
    ) -> (id: MarketId)
        ensures
            id == (MarketId {
                underlying_asset_mint,
                quote_asset_mint,
                underlying_amount_per_contract,
                quote_amount_per_contract,
                expiration_unix_timestamp,
            }),
    {
        MarketId {
            underlying_asset_mint,
            quote_asset_mint,
            underlying_amount_per_contract,
            quote_amount_per_contract,
            expiration_unix_timestamp,
        }
    }

    /// Whether `self` and `other` name the same market.
    pub fn same(&self, other: &MarketId) -> (r: bool)
        ensures
            r == (*self == *other),
    {
        self.underlying_asset_mint.same(&other.underlying_asset_mint)
            && self.quote_asset_mint.same(&other.quote_asset_mint)
            && self.underlying_amount_per_contract == other.underlying_amount_per_contract
            && self.quote_amount_per_contract == other.quote_amount_per_contract
            && self.expiration_unix_timestamp == other.expiration_unix_timestamp
    }
}

/// All that is recorded of an option market.
#[derive(Clone, Copy, Debug, PartialEq, Eq)]
pub struct OptionMarket {
    /// The mint of the tokens that denote an option.
    pub option_mint: Identity,
    /// The mint of the tokens that denote a written option.
    pub writer_token_mint: Identity,
    /// The mint of the asset that is held in the pool when an option is
    /// written.
    pub underlying_asset_mint: Identity,
    /// The mint of the asset that denominates the strike price.
    pub quote_asset_mint: Identity,
    /// The amount of the underlying asset that derives a single option.
    pub underlying_amount_per_contract: u64,
    /// The amount of quote asset that must be paid when an option is
    /// exercised.
    pub quote_amount_per_contract: u64,
    /// The Unix timestamp at which the contracts in this market expire.
    pub expiration_unix_timestamp: i64,
    /// The pool that holds the underlying asset.
    pub underlying_asset_pool: Identity,
    /// The pool that holds the quote asset once options are exercised.
    pub quote_asset_pool: Identity,
    /// The account that collects fees on mint.
    pub mint_fee_account: Identity,
    /// The account that collects fees on exercise.
    pub exercise_fee_account: Identity,
    /// The bump seed of the market's derived address.
    pub bump_seed: u8,
    /// Whether the market has been initialized.
    pub initialized: bool,
}

impl Default for OptionMarket {
    /// A record without a market: every identity zero, nothing initialized.
    fn default() -> (market: OptionMarket)
        ensures
            !market.initialized,
            market.underlying_amount_per_contract == 0,
            market.quote_amount_per_contract == 0,
            market.expiration_unix_timestamp == 0,
            market.bump_seed == 0,
            market.option_mint@ == zero_bytes(),
            market.writer_token_mint@ == zero_bytes(),
            market.underlying_asset_mint@ == zero_bytes(),
            market.quote_asset_mint@ == zero_bytes(),
            market.underlying_asset_pool@ == zero_bytes(),
            market.quote_asset_pool@ == zero_bytes(),
            market.mint_fee_account@ == zero_bytes(),
            market.exercise_fee_account@ == zero_bytes(),
    {
        let zero = Identity::default();
        OptionMarket {
            option_mint: zero,
            writer_token_mint: zero,
            underlying_asset_mint: zero,
            quote_asset_mint: zero,
            underlying_amount_per_contract: 0,
            quote_amount_per_contract: 0,
            expiration_unix_timestamp: 0,
            underlying_asset_pool: zero,
            quote_asset_pool: zero,
            mint_fee_account: zero,
            exercise_fee_account: zero,
            bump_seed: 0,
            initialized: false,
        }
    }
}

impl OptionMarket {
    /// The identity of the market: its five defining terms.
    pub open spec fn id(&self) -> MarketId {
        MarketId {
            underlying_asset_mint: self.underlying_asset_mint,
            quote_asset_mint: self.quote_asset_mint,
            underlying_amount_per_contract: self.underlying_amount_per_contract,
            quote_amount_per_contract: self.quote_amount_per_contract,
            expiration_unix_timestamp: self.expiration_unix_timestamp,
        }
    }

    /// The record is that of an initialized market whose per-contract
    /// amounts are not zero.
    pub open spec fn wf(&self) -> bool {
        &&& self.initialized
        &&& self.underlying_amount_per_contract > 0
        &&& self.quote_amount_per_contract > 0
    }

    /// Whether the market counts as expired at time `now`.
    pub open spec fn expired_at(&self, now: i64) -> bool {
        now >= self.expiration_unix_timestamp
    }

    /// The identity of the market.
    pub fn market_id(&self) -> (id: MarketId)
        ensures
            id == self.id(),
    {
        MarketId::derive(
            self.underlying_asset_mint,
            self.quote_asset_mint,
            self.underlying_amount_per_contract,
            self.quote_amount_per_contract,
            self.expiration_unix_timestamp,
        )
    }

    /// Whether the market counts as expired at time `now`.
    pub fn is_expired(&self, now: i64) -> (r: bool)
        ensures
            r == self.expired_at(now),
    {
        now >= self.expiration_unix_timestamp
    }
}

/// Whether a market may be created with these terms at time `now`: both
/// per-contract amounts are positive and the expiration lies strictly in the
/// future.
pub open spec fn terms_valid(
    underlying_amount_per_contract: u64,
    quote_amount_per_contract: u64,
    expiration_unix_timestamp: i64,
    now: i64,
) -> bool {
    &&& underlying_amount_per_contract > 0
    &&& quote_amount_per_contract > 0
    &&& expiration_unix_timestamp > now
}

/// Checks the terms of a market that is about to be created at time `now`.
pub fn check_terms(
    underlying_amount_per_contract: u64,
    quote_amount_per_contract: u64,
    expiration_unix_timestamp: i64,
    now: i64,
) -> (r: Result<(), MarketError>)
    ensures
        r.is_ok() == terms_valid(
            underlying_amount_per_contract,
            quote_amount_per_contract,
            expiration_unix_timestamp,
            now,
        ),
        r.is_err() ==> r == Err::<(), MarketError>(MarketError::InvalidParameters),
{
    if underlying_amount_per_contract == 0 || quote_amount_per_contract == 0
        || expiration_unix_timestamp <= now {
        Err(MarketError::InvalidParameters)
    } else {
        Ok(())
    }
}

} // verus!
