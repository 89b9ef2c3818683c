//! The collateral vault of a market: what it holds in escrow.

use vstd::prelude::*;
use crate::error::MarketError;

verus! {

/// The escrow of one market: underlying asset put up by writers, and quote
/// asset paid by exercisers.
#[derive(Clone, Copy, Debug, PartialEq, Eq, Structural)]
pub struct CollateralVault {
    /// The underlying asset in escrow.
    pub underlying_balance: u64,
    /// The quote asset in escrow.
    pub quote_balance: u64,
}

impl CollateralVault {
    /// A vault that holds nothing.
    pub fn new() -> (vault: CollateralVault)
        ensures
            vault.underlying_balance == 0,
            vault.quote_balance == 0,
    {
        CollateralVault { underlying_balance: 0, quote_balance: 0 }
    }

    /// Puts `amount` of underlying asset into escrow. An amount that the
    /// balance cannot take is answered with `InvalidParameters`, and nothing
    /// changes.
    pub fn deposit_underlying(&mut self, amount: u64) -> (r: Result<(), MarketError>)
        ensures
            r.is_ok() == (old(self).underlying_balance + amount <= u64::MAX),
            r.is_ok() ==> final(self).underlying_balance == old(self).underlying_balance + amount,
            r.is_err() ==> r == Err::<(), MarketError>(MarketError::InvalidParameters)
                && final(self).underlying_balance == old(self).underlying_balance,
            final(self).quote_balance == old(self).quote_balance,
    {
        match self.underlying_balance.checked_add(amount) {
            Some(sum) => {
                self.underlying_balance = sum;
                Ok(())
            },
            None => Err(MarketError::InvalidParameters),
        }
    }

    /// Releases `amount` of underlying asset from escrow. An amount beyond
    /// the balance is answered with `InsufficientFunds`, and nothing changes.
    pub fn withdraw_underlying(&mut self, amount: u64) -> (r: Result<(), MarketError>)
        ensures
            r.is_ok() == (amount <= old(self).underlying_balance),
            r.is_ok() ==> final(self).underlying_balance == old(self).underlying_balance - amount,
            r.is_err() ==> r == Err::<(), MarketError>(MarketError::InsufficientFunds)
                && final(self).underlying_balance == old(self).underlying_balance,
            final(self).quote_balance == old(self).quote_balance,
    {
        if amount > self.underlying_balance {
            Err(MarketError::InsufficientFunds)
        } else {
            self.underlying_balance = self.underlying_balance - amount;
            Ok(())
        }
    }

    /// Puts `amount` of quote asset into escrow. An amount that the balance
    /// cannot take is answered with `InvalidParameters`, and nothing changes.
    pub fn deposit_quote(&mut self, amount: u64) -> (r: Result<(), MarketError>)
        ensures
            r.is_ok() == (old(self).quote_balance + amount <= u64::MAX),
            r.is_ok() ==> final(self).quote_balance == old(self).quote_balance + amount,
            r.is_err() ==> r == Err::<(), MarketError>(MarketError::InvalidParameters)
                && final(self).quote_balance == old(self).quote_balance,
            final(self).underlying_balance == old(self).underlying_balance,
    {
        match self.quote_balance.checked_add(amount) {
            Some(sum) => {
                self.quote_balance = sum;
                Ok(())
            },
            None => Err(MarketError::InvalidParameters),
        }
    }

    /// Releases `amount` of quote asset from escrow. An amount beyond the
    /// balance is answered with `InsufficientFunds`, and nothing changes.
    pub fn withdraw_quote(&mut self, amount: u64) -> (r: Result<(), MarketError>)
        ensures
            r.is_ok() == (amount <= old(self).quote_balance),
            r.is_ok() ==> final(self).quote_balance == old(self).quote_balance - amount,
            r.is_err() ==> r == Err::<(), MarketError>(MarketError::InsufficientFunds)
                && final(self).quote_balance == old(self).quote_balance,
            final(self).underlying_balance == old(self).underlying_balance,
    {
        if amount > self.quote_balance {
            Err(MarketError::InsufficientFunds)
        } else {
            self.quote_balance = self.quote_balance - amount;
            Ok(())
        }
    }
}

} // verus!
