//! The error taxonomy shared by every operation of the library.

use vstd::prelude::*;

verus! {

/// Why an operation was rejected. A rejected operation changes nothing.
#[derive(Clone, Copy, Debug, PartialEq, Eq, Structural)]
pub enum MarketError {
    /// A per-contract amount is zero, or the expiration is not in the future.
    InvalidParameters,
    /// A market with the same identifying tuple already exists.
    DuplicateMarket,
    /// No initialized market is stored under the given id.
    NotFound,
    /// The market has expired: nothing can be written any more.
    MarketExpired,
    /// The market has expired: nothing can be exercised any more.
    NotYetExercisable,
    /// The market has not expired yet: nothing can be redeemed.
    NotYetExpired,
    /// The payer's balance of the underlying asset is too small.
    InsufficientFunds,
    /// The exerciser holds fewer option tokens than asked for.
    InsufficientOptionTokens,
    /// The exerciser holds too little of the quote asset.
    InsufficientQuoteAsset,
    /// The writer ledger cannot cover the contracts asked for.
    NoEligibleWriters,
    /// The writer has nothing outstanding.
    NoRedeemableBalance,
    /// The signer has no authority over the account or the mint.
    Unauthorized,
}

} // verus!
