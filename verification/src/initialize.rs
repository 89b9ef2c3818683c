//! The instruction that initializes a market, over the accounts it is handed.

use vstd::prelude::*;
use crate::address::{address_bytes, market_address, market_address_of};
use crate::error::MarketError;
use crate::identity::Identity;
use crate::market::{check_terms, terms_valid, MarketId, OptionMarket};

verus! {

/// The accounts of the instruction that initializes a market: each by its
/// identity, the authority with whether it signed, and the market's own
/// account with what it holds.
#[derive(Clone, Copy, Debug, PartialEq, Eq)]
pub struct InitializeMarket {
    /// The program that runs the instruction, and owns the market's account.
    pub program_id: Identity,
    /// Who asks for the market, and pays for its account.
    pub authority: Identity,
    /// Whether the authority signed.
    pub authority_is_signer: bool,
    /// The mint of the underlying asset.
    pub underlying_asset_mint: Identity,
    /// The mint of the quote asset.
    pub quote_asset_mint: Identity,
    /// The mint of the option tokens.
    pub option_mint: Identity,
    /// The mint of the writer tokens.
    pub writer_token_mint: Identity,
    /// The pool for the quote asset.
    pub quote_asset_pool: Identity,
    /// The pool for the underlying asset.
    pub underlying_asset_pool: Identity,
    /// The address of the market's account.
    pub option_market_key: Identity,
    /// What the market's account holds.
    pub option_market: OptionMarket,
    /// The authority over the pools and the two mints of the market.
    pub market_authority: Identity,
}

impl InitializeMarket {
    /// The identity of the market that the accounts and the given terms
    /// define.
    pub open spec fn market_id(
        &self,
        underlying_amount_per_contract: u64,
        quote_amount_per_contract: u64,
        expiration_unix_timestamp: i64,
    ) -> MarketId {
        MarketId {
            underlying_asset_mint: self.underlying_asset_mint,
            quote_asset_mint: self.quote_asset_mint,
            underlying_amount_per_contract,
            quote_amount_per_contract,
            expiration_unix_timestamp,
        }
    }

    /// What the market's account holds once the market is initialized with
    /// the given terms: the identities of the accounts, the terms and the
    /// bump seed. The fee accounts stay as they were.
    pub open spec fn initialized_record(
        &self,
        underlying_amount_per_contract: u64,
        quote_amount_per_contract: u64,
        expiration_unix_timestamp: i64,
        bump_seed: u8,
    ) -> OptionMarket {
        OptionMarket {
            option_mint: self.option_mint,
            writer_token_mint: self.writer_token_mint,
            underlying_asset_mint: self.underlying_asset_mint,
            quote_asset_mint: self.quote_asset_mint,
            underlying_amount_per_contract,
            quote_amount_per_contract,
            expiration_unix_timestamp,
            underlying_asset_pool: self.underlying_asset_pool,
            quote_asset_pool: self.quote_asset_pool,
            mint_fee_account: self.option_market.mint_fee_account,
            exercise_fee_account: self.option_market.exercise_fee_account,
            bump_seed,
            initialized: true,
        }
    }

    /// Whether the market's account holds an initialized market with the
    /// given terms already.
    pub open spec fn holds_market(
        &self,
        underlying_amount_per_contract: u64,
        quote_amount_per_contract: u64,
        expiration_unix_timestamp: i64,
    ) -> bool {
        self.option_market.initialized && self.option_market.id() == self.market_id(
            underlying_amount_per_contract,
            quote_amount_per_contract,
            expiration_unix_timestamp,
        )
    }

    /// What initializing answers, where `derived` is the address derived for
    /// the market.
    ///
    /// Where the market's account holds an initialized market with the given
    /// terms already, it is `DuplicateMarket`, whoever asks and whatever the
    /// time. Otherwise, without the authority's signature it is
    /// `Unauthorized`. Terms that are not valid at time `now`, or a market
    /// account whose address is not the derived one, give
    /// `InvalidParameters`. An account that holds any other initialized
    /// market gives `DuplicateMarket`.
    pub open spec fn outcome(
        &self,
        underlying_amount_per_contract: u64,
        quote_amount_per_contract: u64,
        expiration_unix_timestamp: i64,
        now: i64,
        derived: Option<Seq<u8>>,
    ) -> Result<(), MarketError> {
        if self.holds_market(
            underlying_amount_per_contract,
            quote_amount_per_contract,
            expiration_unix_timestamp,
        ) {
            Err(MarketError::DuplicateMarket)
        } else if !self.authority_is_signer {
            Err(MarketError::Unauthorized)
        } else if !terms_valid(
            underlying_amount_per_contract,
            quote_amount_per_contract,
            expiration_unix_timestamp,
            now,
        ) || derived != Some(self.option_market_key@) {
            Err(MarketError::InvalidParameters)
        } else if self.option_market.initialized {
            Err(MarketError::DuplicateMarket)
        } else {
            Ok(())
        }
    }
}

/// Initializes the market of `ctx` with the given terms at time `now`, where
/// `derived` is the address derived for the market from its terms, the bump
/// seed and the program. On success the market's account holds the
/// initialized record; an error changes nothing. A market that is
/// initialized already is answered with `DuplicateMarket` before anything
/// else is looked at.
pub fn initialize_market_at(
    ctx: &mut InitializeMarket,
    underlying_amount_per_contract: u64,
    quote_amount_per_contract: u64,
    expiration_unix_timestamp: i64,
    bump_seed: u8,
    now: i64,
    derived: Option<Identity>,
) -> (r: Result<(), MarketError>)
    ensures
        r == old(ctx).outcome(
            underlying_amount_per_contract,
            quote_amount_per_contract,
            expiration_unix_timestamp,
            now,
            address_bytes(derived),
        ),
        r.is_err() ==> *final(ctx) == *old(ctx),
        r.is_ok() ==> *final(ctx) == (InitializeMarket {
            option_market: old(ctx).initialized_record(
                underlying_amount_per_contract,
                quote_amount_per_contract,
                expiration_unix_timestamp,
                bump_seed,
            ),
            ..*old(ctx)
        }),
{
    let id = MarketId::derive(
        ctx.underlying_asset_mint,
        ctx.quote_asset_mint,
        underlying_amount_per_contract,
        quote_amount_per_contract,
        expiration_unix_timestamp,
    );
    if ctx.option_market.initialized && ctx.option_market.market_id().same(&id) {
        return Err(MarketError::DuplicateMarket);
    }
    if !ctx.authority_is_signer {
        return Err(MarketError::Unauthorized);
    }
    if check_terms(
        underlying_amount_per_contract,
        quote_amount_per_contract,
        expiration_unix_timestamp,
        now,
    ).is_err() {
        return Err(MarketError::InvalidParameters);
    }
    let at_derived = match derived {
        Some(address) => {
            proof {
                crate::identity::lemma_identity_by_bytes(address, ctx.option_market_key);
            }
            address.same(&ctx.option_market_key)
        },
        None => false,
    };
    if !at_derived {
        return Err(MarketError::InvalidParameters);
    }
    if ctx.option_market.initialized {
        return Err(MarketError::DuplicateMarket);
    }
    ctx.option_market = OptionMarket {
        option_mint: ctx.option_mint,
        writer_token_mint: ctx.writer_token_mint,
        underlying_asset_mint: ctx.underlying_asset_mint,
        quote_asset_mint: ctx.quote_asset_mint,
        underlying_amount_per_contract,
        quote_amount_per_contract,
        expiration_unix_timestamp,
        underlying_asset_pool: ctx.underlying_asset_pool,
        quote_asset_pool: ctx.quote_asset_pool,
        mint_fee_account: ctx.option_market.mint_fee_account,
        exercise_fee_account: ctx.option_market.exercise_fee_account,
        bump_seed,
        initialized: true,
    };
    Ok(())
}

/// Initializes the market of `ctx` with the given terms at time `now`.
///
/// The address of the market's account must be the one derived from the two
/// mints, the three terms and `bump_seed` under the program of `ctx`. On
/// success the market's account holds the initialized record; an error
/// changes nothing. A market that is initialized already is answered with
/// `DuplicateMarket` before anything else is looked at.
pub fn initialize_market(
    ctx: &mut InitializeMarket,
    underlying_amount_per_contract: u64,
    quote_amount_per_contract: u64,
    expiration_unix_timestamp: i64,
    bump_seed: u8,
    now: i64,
) -> (r: Result<(), MarketError>)
    ensures
        r == old(ctx).outcome(
            underlying_amount_per_contract,
            quote_amount_per_contract,
            expiration_unix_timestamp,
            now,
            market_address_of(
                old(ctx).program_id,
                old(ctx).market_id(
                    underlying_amount_per_contract,
                    quote_amount_per_contract,
                    expiration_unix_timestamp,
                ),
                bump_seed,
            ),
        ),
        r.is_err() ==> *final(ctx) == *old(ctx),
        r.is_ok() ==> *final(ctx) == (InitializeMarket {
            option_market: old(ctx).initialized_record(
                underlying_amount_per_contract,
                quote_amount_per_contract,
                expiration_unix_timestamp,
                bump_seed,
            ),
            ..*old(ctx)
        }),
{
    let id = MarketId::derive(
        ctx.underlying_asset_mint,
        ctx.quote_asset_mint,
        underlying_amount_per_contract,
        quote_amount_per_contract,
        expiration_unix_timestamp,
    );
    let derived = market_address(&ctx.program_id, &id, bump_seed);
    initialize_market_at(
        ctx,
        underlying_amount_per_contract,
        quote_amount_per_contract,
        expiration_unix_timestamp,
        bump_seed,
        now,
        derived,
    )
}

} // verus!
