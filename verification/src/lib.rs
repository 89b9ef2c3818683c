//! Covered-call option markets.
//!
//! A writer puts up underlying asset as collateral and receives, for every
//! contract written, an option token and a writer token. Until the market
//! expires the holder of an option token can exercise it: pay the strike in
//! quote asset and receive the collateral. From the expiration on a writer
//! redeems the collateral that nobody claimed, and the strike paid for what
//! was exercised.
//!
//! The modules, from the ground up:
//!
//! - `identity`: the 32-byte names of mints, wallets and programs;
//! - `error`: why an operation is rejected;
//! - `market`: the record of a market and its identity;
//! - `address`: the derived address of a market's account;
//! - `initialize`: the instruction that initializes a market's account;
//! - `vault`: the escrow of a market;
//! - `writers`: the ordered ledger of who wrote what;
//! - `ledger`: the token ledger;
//! - `lifecycle`: one market, and what writing, exercising and redeeming
//!   make of it;
//! - `engine`: all markets on one token ledger;
//! - `layout`: the bytes in which a market is kept;
//! - `laws`: what holds of every market, whatever was done to it.

pub mod address;
pub mod engine;
pub mod error;
pub mod identity;
pub mod initialize;
pub mod laws;
pub mod layout;
pub mod ledger;
pub mod lifecycle;
pub mod market;
pub mod vault;
pub mod writers;
