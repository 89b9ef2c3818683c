//! The engine: every market with its vault and writer ledger, and the token
//! ledger they all share.
//!
//! A market comes into the engine from its terms alone, by `create_market`,
//! or from the initialized record of its account, by `open_market`. The same
//! terms are the same market: a second one is refused whatever the time.
//!
//! Each operation is one transaction: it applies in full or not at all. The
//! engine keeps, between operations, the ledger and every market in step:
//! the pools hold what the vaults account for, and of each market as many
//! option tokens exist as contracts are written and not exercised.

use vstd::prelude::*;
use crate::error::MarketError;
use crate::identity::{zero_bytes, Identity};
use crate::layout::{registry_len, state_bytes, MARKET_LEN};
use crate::ledger::{moved, Asset, Holder, TokenLedger};
use crate::lifecycle::{exercise_step, redeem_step, taken_view, write_step, Market, Redemption};
use crate::market::{check_terms, terms_valid, MarketId, OptionMarket};
use crate::vault::CollateralVault;
use crate::writers::{Taken, WriterEntry};

verus! {

/// The markets and the token ledger.
pub struct Engine {
    ledger: TokenLedger,
    markets: Vec<Market>,
}

/// The record of a market newly created with the given terms: initialized,
/// with the two mints and the three terms as given. The identities that only
/// a host gives to the accounts of a market (its two token mints, its two
/// pools, its fee accounts) are zero, and so is the bump seed: in the engine
/// the tokens and the pools of a market are named by the market's identity.
pub open spec fn is_new_record(
    info: OptionMarket,
    underlying_asset_mint: Identity,
    quote_asset_mint: Identity,
    underlying_amount_per_contract: u64,
    quote_amount_per_contract: u64,
    expiration_unix_timestamp: i64,
) -> bool {
    &&& info.initialized
    &&& info.underlying_asset_mint == underlying_asset_mint
    &&& info.quote_asset_mint == quote_asset_mint
    &&& info.underlying_amount_per_contract == underlying_amount_per_contract
    &&& info.quote_amount_per_contract == quote_amount_per_contract
    &&& info.expiration_unix_timestamp == expiration_unix_timestamp
    &&& info.option_mint@ == zero_bytes()
    &&& info.writer_token_mint@ == zero_bytes()
    &&& info.underlying_asset_pool@ == zero_bytes()
    &&& info.quote_asset_pool@ == zero_bytes()
    &&& info.mint_fee_account@ == zero_bytes()
    &&& info.exercise_fee_account@ == zero_bytes()
    &&& info.bump_seed == 0
}

/// A market in which nothing has been written yet.
pub open spec fn is_untraded(market: Market) -> bool {
    &&& market.vault() == (CollateralVault { underlying_balance: 0, quote_balance: 0 })
    &&& market.writers() == Seq::<WriterEntry>::empty()
    &&& market.claims() == Seq::<WriterEntry>::empty()
    &&& market.unexercised() == 0
    &&& market.written() == 0
    &&& market.exercised() == 0
}

impl Engine {
    /// The token ledger.
    pub closed spec fn ledger(&self) -> TokenLedger {
        self.ledger
    }

    /// The markets, in the order of their creation.
    pub closed spec fn markets(&self) -> Seq<Market> {
        self.markets@
    }

    /// Whether a market with identity `id` exists.
    pub open spec fn has_market(&self, id: MarketId) -> bool {
        exists|i: int| 0 <= i < self.markets().len() && (#[trigger] self.markets()[i]).id() == id
    }

    /// The position of the market with identity `id`.
    pub open spec fn index_of(&self, id: MarketId) -> int {
        choose|i: int| 0 <= i < self.markets().len() && (#[trigger] self.markets()[i]).id() == id
    }

    /// The market with identity `id`.
    pub open spec fn market(&self, id: MarketId) -> Market {
        self.markets()[self.index_of(id)]
    }

    /// The ledger holds nothing that belongs to a market with identity `id`:
    /// it does not know the tokens of such a market, and its pools are empty.
    pub open spec fn untouched(&self, id: MarketId) -> bool {
        &&& !self.ledger().knows(Asset::OptionToken(id))
        &&& !self.ledger().knows(Asset::WriterToken(id))
        &&& forall|a: Asset| #[trigger] self.ledger().balance(a, Holder::UnderlyingPool(id)) == 0
        &&& forall|a: Asset| #[trigger] self.ledger().balance(a, Holder::QuotePool(id)) == 0
    }

    /// The ledger balances, every market is in order and backed by the
    /// ledger, no two markets have the same identity, and the ledger holds
    /// nothing for a market that does not exist.
    pub open spec fn wf(&self) -> bool {
        &&& self.ledger().wf()
        &&& forall|i: int|
            0 <= i < self.markets().len() ==> (#[trigger] self.markets()[i]).wf()
                && self.markets()[i].backed_by(self.ledger())
        &&& forall|i: int, j: int|
            0 <= i < j < self.markets().len() ==> (#[trigger] self.markets()[i]).id()
                != (#[trigger] self.markets()[j]).id()
        &&& forall|id: MarketId| #[trigger] self.has_market(id) || self.untouched(id)
    }

    /// Every market but the one with identity `id` is what it was in `pre`,
    /// and no market has come or gone.
    pub open spec fn others_as_in(&self, pre: Engine, id: MarketId) -> bool {
        &&& self.markets().len() == pre.markets().len()
        &&& forall|i: int|
            0 <= i < self.markets().len() && (#[trigger] pre.markets()[i]).id() != id
                ==> self.markets()[i] == pre.markets()[i]
        &&& forall|other: MarketId| self.has_market(other) == pre.has_market(other)
        &&& forall|other: MarketId|
            other != id && pre.has_market(other) ==> #[trigger] self.market(other) == pre.market(
                other,
            )
    }

    /// An engine without markets, on a ledger that knows no asset.
    pub fn new() -> (engine: Engine)
        ensures
            engine.wf(),
            engine.markets() == Seq::<Market>::empty(),
            forall|a: Asset, h: Holder| engine.ledger().balance(a, h) == 0,
            forall|a: Asset| engine.ledger().supply(a) == 0,
            forall|a: Asset| !engine.ledger().knows(a),
    {
        let engine = Engine { ledger: TokenLedger::new(), markets: Vec::new() };
        proof {
            assert forall|id: MarketId| #[trigger] engine.has_market(id) || engine.untouched(id) by {
                assert(engine.untouched(id));
            }
        }
        engine
    }

    /// The position of the market with identity `id`, if there is one.
    fn find(&self, id: &MarketId) -> (r: Option<usize>)
        requires
            self.wf(),
        ensures
            r.is_some() == self.has_market(*id),
            r matches Some(i) ==> i < self.markets().len() && self.markets()[i as int].id() == *id
                && self.index_of(*id) == i,
    {
        let mut i: usize = 0;
        while i < self.markets.len()
            invariant
                i <= self.markets@.len(),
                self.wf(),
                forall|j: int| 0 <= j < i ==> (#[trigger] self.markets@[j]).id() != *id,
            decreases self.markets@.len() - i,
        {
            if self.markets[i].record().market_id().same(id) {
                assert(self.markets()[i as int].id() == *id);
                return Some(i);
            }
            i += 1;
        }
        None
    }

    /// The record of the market with identity `id`; `NotFound` if there is
    /// none.
    pub fn get_market(&self, id: &MarketId) -> (r: Result<OptionMarket, MarketError>)
        requires
            self.wf(),
        ensures
            r.is_ok() == self.has_market(*id),
            r matches Ok(info) ==> info == self.market(*id).info() && info.id() == *id && info.wf(),
            r matches Err(e) ==> e == MarketError::NotFound,
    {
        match self.find(id) {
            Some(i) => Ok(self.markets[i].record()),
            None => Err(MarketError::NotFound),
        }
    }

    /// The ledger holds nothing yet for the market with identity `id`: none
    /// of its option or writer tokens exist, and its pools are empty.
    pub open spec fn starts_empty(&self, id: MarketId) -> bool {
        &&& self.ledger().supply(Asset::OptionToken(id)) == 0
        &&& self.ledger().supply(Asset::WriterToken(id)) == 0
        &&& forall|a: Asset| #[trigger] self.ledger().balance(a, Holder::UnderlyingPool(id)) == 0
        &&& forall|a: Asset| #[trigger] self.ledger().balance(a, Holder::QuotePool(id)) == 0
    }

    /// What `open_market` answers: the identity of the market taken in, or
    /// why none was.
    ///
    /// Where a market with the terms of the record exists already, it is
    /// `DuplicateMarket`, whatever the time. Otherwise a record that is not
    /// initialized, a per-contract amount of zero or an expiration that is
    /// not strictly after `now` gives `InvalidParameters`.
    pub open spec fn open_outcome(&self, record: OptionMarket, now: i64) -> Result<
        MarketId,
        MarketError,
    > {
        if self.has_market(record.id()) {
            Err(MarketError::DuplicateMarket)
        } else if !record.initialized || !terms_valid(
            record.underlying_amount_per_contract,
            record.quote_amount_per_contract,
            record.expiration_unix_timestamp,
            now,
        ) {
            Err(MarketError::InvalidParameters)
        } else {
            Ok(record.id())
        }
    }

    /// What `create_market` answers: the identity `id` of the new market, or
    /// why none was created.
    ///
    /// Where a market with these terms exists already, it is
    /// `DuplicateMarket`, whatever the time. Otherwise a per-contract amount
    /// of zero or an expiration that is not strictly after `now` gives
    /// `InvalidParameters`.
    pub open spec fn create_outcome(&self, id: MarketId, now: i64) -> Result<MarketId, MarketError> {
        if self.has_market(id) {
            Err(MarketError::DuplicateMarket)
        } else if !terms_valid(
            id.underlying_amount_per_contract,
            id.quote_amount_per_contract,
            id.expiration_unix_timestamp,
            now,
        ) {
            Err(MarketError::InvalidParameters)
        } else {
            Ok(id)
        }
    }

    /// Takes the market of the initialized record `record` into the engine,
    /// at time `now`, and returns its identity. The record is kept as it is
    /// given, with the identities that the accounts of the market have.
    ///
    /// Terms under which a market exists already are answered with
    /// `DuplicateMarket`, whatever the time. Otherwise a record that is not
    /// initialized, a per-contract amount of zero, or an expiration that is
    /// not strictly after `now`, is answered with `InvalidParameters`. The
    /// new market has empty pools and an empty writer ledger, and can be
    /// written, exercised and redeemed. An error changes nothing.
    pub fn open_market(&mut self, record: OptionMarket, now: i64) -> (r: Result<
        MarketId,
        MarketError,
    >)
        requires
            old(self).wf(),
        ensures
            final(self).wf(),
            r == old(self).open_outcome(record, now),
            final(self).ledger().balances() == old(self).ledger().balances(),
            final(self).ledger().supplies() == old(self).ledger().supplies(),
            r.is_err() ==> final(self).markets() == old(self).markets(),
            r.is_err() ==> final(self).ledger().authorities() == old(self).ledger().authorities(),
            r matches Ok(id) ==> {
                &&& id == record.id()
                &&& final(self).markets().len() == old(self).markets().len() + 1
                &&& final(self).markets().drop_last() == old(self).markets()
                &&& final(self).markets().last() == final(self).market(id)
                &&& final(self).has_market(id)
                &&& final(self).market(id).info() == record
                &&& is_untraded(final(self).market(id))
                &&& final(self).starts_empty(id)
                &&& final(self).ledger().authorities() == old(self).ledger().authorities().insert(
                    Asset::OptionToken(id),
                    None,
                ).insert(Asset::WriterToken(id), None)
            },
    {
        let id = record.market_id();
        if self.find(&id).is_some() {
            return Err(MarketError::DuplicateMarket);
        }
        if !record.initialized || check_terms(
            record.underlying_amount_per_contract,
            record.quote_amount_per_contract,
            record.expiration_unix_timestamp,
            now,
        ).is_err() {
            return Err(MarketError::InvalidParameters);
        }
        proof {
            assert(self.has_market(id) || self.untouched(id));
            self.ledger.lemma_bounds(
                Asset::OptionToken(id),
                Holder::UnderlyingPool(id),
                Holder::QuotePool(id),
            );
            self.ledger.lemma_bounds(
                Asset::WriterToken(id),
                Holder::UnderlyingPool(id),
                Holder::QuotePool(id),
            );
        }
        let market = Market::open(record, &mut self.ledger);
        self.markets.push(market);
        proof {
            let pre = *old(self);
            let n = pre.markets().len() as int;
            assert(self.markets()[n].id() == id);
            assert(self.markets().drop_last() =~= pre.markets());
            assert forall|i: int| 0 <= i < self.markets().len() implies (#[trigger] self.markets()[i]).wf()
                && self.markets()[i].backed_by(self.ledger()) by {
                if i < n {
                    assert(self.markets()[i] == pre.markets()[i]);
                    assert(pre.markets()[i].backed_by(pre.ledger()));
                    assert(pre.markets()[i].id() != id);
                }
            }
            assert forall|i: int, j: int| 0 <= i < j < self.markets().len() implies (#[trigger] self.markets()[i]).id()
                != (#[trigger] self.markets()[j]).id() by {
                assert(self.markets()[i] == pre.markets()[i]);
                if j < n {
                    assert(self.markets()[j] == pre.markets()[j]);
                }
            }
            assert forall|other: MarketId| #[trigger]
                self.has_market(other) || self.untouched(other) by {
                if other != id {
                    if pre.has_market(other) {
                        let k = pre.index_of(other);
                        assert(self.markets()[k] == pre.markets()[k]);
                    } else {
                        self.lemma_stays_untouched(pre, other);
                    }
                }
            }
        }
        Ok(id)
    }

    /// Creates the market with the given terms, at time `now`, and returns
    /// its identity.
    ///
    /// Terms under which a market exists already are answered with
    /// `DuplicateMarket`, whatever the time. Otherwise a per-contract amount
    /// of zero, or an expiration that is not strictly after `now`, is
    /// answered with `InvalidParameters`. The new market is initialized, with
    /// empty pools and an empty writer ledger. An error changes nothing.
    pub fn create_market(
        &mut self,
        underlying_asset_mint: Identity,
        quote_asset_mint: Identity,
        underlying_amount_per_contract: u64,
        quote_amount_per_contract: u64,
        expiration_unix_timestamp: i64,
        now: i64,
    ) -> (r: Result<MarketId, MarketError>)
        requires
            old(self).wf(),
        ensures
            final(self).wf(),
            r == old(self).create_outcome(
                MarketId {
                    underlying_asset_mint,
                    quote_asset_mint,
                    underlying_amount_per_contract,
                    quote_amount_per_contract,
                    expiration_unix_timestamp,
                },
                now,
            ),
            final(self).ledger().balances() == old(self).ledger().balances(),
            final(self).ledger().supplies() == old(self).ledger().supplies(),
            r.is_err() ==> final(self).markets() == old(self).markets(),
            r.is_err() ==> final(self).ledger().authorities() == old(self).ledger().authorities(),
            r matches Ok(id) ==> {
                &&& final(self).markets().len() == old(self).markets().len() + 1
                &&& final(self).markets().drop_last() == old(self).markets()
                &&& final(self).markets().last() == final(self).market(id)
                &&& final(self).has_market(id)
                &&& is_new_record(
                    final(self).market(id).info(),
                    underlying_asset_mint,
                    quote_asset_mint,
                    underlying_amount_per_contract,
                    quote_amount_per_contract,
                    expiration_unix_timestamp,
                )
                &&& is_untraded(final(self).market(id))
                &&& final(self).starts_empty(id)
                &&& final(self).ledger().authorities() == old(self).ledger().authorities().insert(
                    Asset::OptionToken(id),
                    None,
                ).insert(Asset::WriterToken(id), None)
            },
    {
        let blank = OptionMarket::default();
        let record = OptionMarket {
            option_mint: blank.option_mint,
            writer_token_mint: blank.writer_token_mint,
            underlying_asset_mint,
            quote_asset_mint,
            underlying_amount_per_contract,
            quote_amount_per_contract,
            expiration_unix_timestamp,
            underlying_asset_pool: blank.underlying_asset_pool,
            quote_asset_pool: blank.quote_asset_pool,
            mint_fee_account: blank.mint_fee_account,
            exercise_fee_account: blank.exercise_fee_account,
            bump_seed: 0,
            initialized: true,
        };
        self.open_market(record, now)
    }

    /// The markets and the ledger are what they were in `pre`.
    pub open spec fn same_as(&self, pre: Engine) -> bool {
        &&& self.markets() == pre.markets()
        &&& self.ledger().balances() == pre.ledger().balances()
        &&& self.ledger().supplies() == pre.ledger().supplies()
        &&& self.ledger().authorities() == pre.ledger().authorities()
    }

    /// Writes contracts in the market `id` against `amount` of underlying
    /// asset from the wallet of `writer`, at time `now`, and returns the
    /// number of contracts written.
    ///
    /// Without such a market the answer is `NotFound`. After the expiration
    /// it is `MarketExpired`; for an amount that is not a positive whole
    /// multiple of the underlying amount per contract, or that would take
    /// the supply of the market's tokens beyond a `u64`, `InvalidParameters`;
    /// for a wallet that holds less than `amount`, `InsufficientFunds`. An
    /// error changes nothing.
    pub fn write(&mut self, id: &MarketId, writer: &Identity, amount: u64, now: i64) -> (r: Result<
        u64,
        MarketError,
    >)
        requires
            old(self).wf(),
        ensures
            final(self).wf(),
            !old(self).has_market(*id) ==> r == Err::<u64, MarketError>(MarketError::NotFound)
                && final(self).same_as(*old(self)),
            old(self).has_market(*id) ==> final(self).others_as_in(*old(self), *id) && write_step(
                old(self).market(*id),
                old(self).ledger(),
                final(self).market(*id),
                final(self).ledger(),
                *writer,
                amount,
                now,
                r,
            ),
    {
        let i = match self.find(id) {
            Some(i) => i,
            None => {
                return Err(MarketError::NotFound);
            },
        };
        let r = self.markets[i].write(&mut self.ledger, writer, amount, now);
        proof {
            self.lemma_step_keeps_order(*old(self), i as int);
        }
        r
    }

    /// Exercises `contracts` contracts of the market `id` for `exerciser`, at
    /// time `now`, and returns what was taken from which writer's entry,
    /// oldest entry first.
    ///
    /// Without such a market the answer is `NotFound`. From the expiration on
    /// it is `NotYetExercisable`; for a wallet with fewer option tokens than
    /// `contracts`, `InsufficientOptionTokens`; for a wallet with less quote
    /// asset than the strike of `contracts` contracts,
    /// `InsufficientQuoteAsset`; for a writer ledger that counts fewer
    /// contracts, `NoEligibleWriters`. An error changes nothing.
    pub fn exercise(
        &mut self,
        id: &MarketId,
        exerciser: &Identity,
        contracts: u64,
        now: i64,
    ) -> (r: Result<Vec<Taken>, MarketError>)
        requires
            old(self).wf(),
        ensures
            final(self).wf(),
            !old(self).has_market(*id) ==> taken_view(r) == Err::<Seq<Taken>, MarketError>(
                MarketError::NotFound,
            ) && final(self).same_as(*old(self)),
            old(self).has_market(*id) ==> final(self).others_as_in(*old(self), *id)
                && exercise_step(
                old(self).market(*id),
                old(self).ledger(),
                final(self).market(*id),
                final(self).ledger(),
                *exerciser,
                contracts,
                now,
                taken_view(r),
            ),
    {
        let i = match self.find(id) {
            Some(i) => i,
            None => {
                return Err(MarketError::NotFound);
            },
        };
        let r = self.markets[i].exercise(&mut self.ledger, exerciser, contracts, now);
        proof {
            self.lemma_step_keeps_order(*old(self), i as int);
        }
        r
    }

    /// Redeems what `writer` has outstanding in the market `id`, at time
    /// `now`, and returns what the writer got back.
    ///
    /// Without such a market the answer is `NotFound`. Before the expiration
    /// it is `NotYetExpired`; for a writer without an entry in either writer
    /// ledger, `NoRedeemableBalance`. An error changes nothing.
    pub fn redeem(&mut self, id: &MarketId, writer: &Identity, now: i64) -> (r: Result<
        Redemption,
        MarketError,
    >)
        requires
            old(self).wf(),
        ensures
            final(self).wf(),
            !old(self).has_market(*id) ==> r == Err::<Redemption, MarketError>(
                MarketError::NotFound,
            ) && final(self).same_as(*old(self)),
            old(self).has_market(*id) ==> final(self).others_as_in(*old(self), *id) && redeem_step(
                old(self).market(*id),
                old(self).ledger(),
                final(self).market(*id),
                final(self).ledger(),
                *writer,
                now,
                r,
            ),
    {
        let i = match self.find(id) {
            Some(i) => i,
            None => {
                return Err(MarketError::NotFound);
            },
        };
        let r = self.markets[i].redeem(&mut self.ledger, writer, now);
        proof {
            self.lemma_step_keeps_order(*old(self), i as int);
        }
        r
    }

    /// The vault of the market `id`; `NotFound` if there is no such market.
    pub fn vault_of(&self, id: &MarketId) -> (r: Result<CollateralVault, MarketError>)
        requires
            self.wf(),
        ensures
            r.is_ok() == self.has_market(*id),
            r matches Ok(vault) ==> vault == self.market(*id).vault(),
            r matches Err(e) ==> e == MarketError::NotFound,
    {
        match self.find(id) {
            Some(i) => Ok(self.markets[i].vault_state()),
            None => Err(MarketError::NotFound),
        }
    }

    /// The number of entries in the writer ledger of the market `id`;
    /// `NotFound` if there is no such market.
    pub fn registry_length(&self, id: &MarketId) -> (r: Result<usize, MarketError>)
        requires
            self.wf(),
        ensures
            r.is_ok() == self.has_market(*id),
            r matches Ok(n) ==> n == self.market(*id).writers().len(),
            r matches Err(e) ==> e == MarketError::NotFound,
    {
        match self.find(id) {
            Some(i) => Ok(self.markets[i].registry_length()),
            None => Err(MarketError::NotFound),
        }
    }

    /// The entry at position `index` of the writer ledger of the market `id`,
    /// counted from the oldest: `None` if the ledger has no such position,
    /// `NotFound` if there is no such market.
    pub fn writer_at(&self, id: &MarketId, index: usize) -> (r: Result<
        Option<WriterEntry>,
        MarketError,
    >)
        requires
            self.wf(),
        ensures
            r.is_ok() == self.has_market(*id),
            r matches Ok(entry) ==> entry == (if index < self.market(*id).writers().len() {
                Some(self.market(*id).writers()[index as int])
            } else {
                None
            }),
            r matches Err(e) ==> e == MarketError::NotFound,
    {
        match self.find(id) {
            Some(i) => Ok(self.markets[i].writer_at(index)),
            None => Err(MarketError::NotFound),
        }
    }

    /// The entries of the writer ledger of the market `id`, oldest first;
    /// `NotFound` if there is no such market.
    pub fn writers_of(&self, id: &MarketId) -> (r: Result<Vec<WriterEntry>, MarketError>)
        requires
            self.wf(),
        ensures
            r.is_ok() == self.has_market(*id),
            r matches Ok(entries) ==> entries@ == self.market(*id).writers(),
            r matches Err(e) ==> e == MarketError::NotFound,
    {
        match self.find(id) {
            Some(i) => Ok(self.markets[i].writer_entries()),
            None => Err(MarketError::NotFound),
        }
    }

    /// The entries of the claim ledger of the market `id`, oldest first;
    /// `NotFound` if there is no such market.
    pub fn claims_of(&self, id: &MarketId) -> (r: Result<Vec<WriterEntry>, MarketError>)
        requires
            self.wf(),
        ensures
            r.is_ok() == self.has_market(*id),
            r matches Ok(entries) ==> entries@ == self.market(*id).claims(),
            r matches Err(e) ==> e == MarketError::NotFound,
    {
        match self.find(id) {
            Some(i) => Ok(self.markets[i].claim_entries()),
            None => Err(MarketError::NotFound),
        }
    }

    /// The number of contracts of the market `id` that are written and not
    /// exercised; `NotFound` if there is no such market.
    pub fn unexercised_of(&self, id: &MarketId) -> (r: Result<u64, MarketError>)
        requires
            self.wf(),
        ensures
            r.is_ok() == self.has_market(*id),
            r matches Ok(n) ==> n == self.market(*id).unexercised(),
            r matches Err(e) ==> e == MarketError::NotFound,
    {
        match self.find(id) {
            Some(i) => Ok(self.markets[i].contracts_unexercised()),
            None => Err(MarketError::NotFound),
        }
    }

    /// What `persist` answers.
    pub open spec fn persist_outcome(&self, id: MarketId, capacity: usize) -> Result<
        Seq<u8>,
        MarketError,
    > {
        if !self.has_market(id) {
            Err(MarketError::NotFound)
        } else if self.market(id).entries().len() > capacity || MARKET_LEN + registry_len(
            capacity as nat,
        ) > usize::MAX {
            Err(MarketError::InvalidParameters)
        } else {
            Ok(state_bytes(self.market(id).info(), self.market(id).entries(), capacity as nat))
        }
    }

    /// The bytes in which the market `id` is kept, with room for `capacity`
    /// entries: the record, then the entries of the writer ledger and of the
    /// claim ledger. Without such a market the answer is `NotFound`; for a
    /// capacity that the two ledgers exceed, or that takes more bytes than
    /// can be counted, `InvalidParameters`.
    pub fn persist(&self, id: &MarketId, capacity: usize) -> (r: Result<Vec<u8>, MarketError>)
        requires
            self.wf(),
        ensures
            match r {
                Ok(bytes) => self.persist_outcome(*id, capacity) == Ok::<Seq<u8>, MarketError>(
                    bytes@,
                ),
                Err(e) => self.persist_outcome(*id, capacity) == Err::<Seq<u8>, MarketError>(e),
            },
    {
        match self.find(id) {
            Some(i) => match self.markets[i].persist(capacity) {
                Some(bytes) => Ok(bytes),
                None => Err(MarketError::InvalidParameters),
            },
            None => Err(MarketError::NotFound),
        }
    }

    /// What the wallet of `account` holds of `asset`.
    pub fn balance_of(&self, asset: &Asset, account: &Identity) -> (amount: u64)
        requires
            self.wf(),
        ensures
            amount == self.ledger().balance(*asset, Holder::Wallet(*account)),
    {
        self.ledger.balance_of(asset, account)
    }

    /// What `holder` holds of `asset`.
    pub fn balance_of_holder(&self, asset: &Asset, holder: &Holder) -> (amount: u64)
        requires
            self.wf(),
        ensures
            amount == self.ledger().balance(*asset, *holder),
    {
        self.ledger.balance_of_holder(asset, holder)
    }

    /// How much of `asset` exists.
    pub fn supply_of(&self, asset: &Asset) -> (amount: u64)
        requires
            self.wf(),
        ensures
            amount == self.ledger().supply(*asset),
    {
        self.ledger.supply_of(asset)
    }

    /// Makes the mint `mint` known to the ledger, with `authority` as the one
    /// who may mint it. Returns `false`, and changes nothing, if the ledger
    /// knows the mint already.
    pub fn create_mint(&mut self, mint: Identity, authority: Identity) -> (created: bool)
        requires
            old(self).wf(),
        ensures
            final(self).wf(),
            final(self).markets() == old(self).markets(),
            created == !old(self).ledger().knows(Asset::Mint(mint)),
            final(self).ledger().balances() == old(self).ledger().balances(),
            final(self).ledger().supplies() == old(self).ledger().supplies(),
            created ==> final(self).ledger().authorities() == old(
                self,
            ).ledger().authorities().insert(Asset::Mint(mint), Some(authority)),
            !created ==> final(self).ledger().authorities() == old(self).ledger().authorities(),
    {
        let created = self.ledger.create_mint(mint, authority);
        proof {
            self.lemma_wallets_keep_order(*old(self));
        }
        created
    }

    /// Brings `amount` of `asset` into existence in the wallet of `to`, as
    /// `TokenLedger::mint` does. The tokens of a market have no authority
    /// that could sign: for them the answer is always `Unauthorized`.
    pub fn mint(&mut self, asset: &Asset, to: &Identity, amount: u64, signer: &Identity) -> (r:
        Result<(), MarketError>)
        requires
            old(self).wf(),
        ensures
            final(self).wf(),
            final(self).markets() == old(self).markets(),
            r == old(self).ledger().mint_outcome(*asset, amount, *signer),
            asset.market_issued() ==> r.is_err(),
            final(self).ledger().authorities() == old(self).ledger().authorities(),
            r.is_ok() ==> final(self).ledger().balances() == old(self).ledger().balances().insert(
                (*asset, Holder::Wallet(*to)),
                old(self).ledger().balance(*asset, Holder::Wallet(*to)) + amount as nat,
            ) && final(self).ledger().supplies() == old(self).ledger().supplies().insert(
                *asset,
                old(self).ledger().supply(*asset) + amount as nat,
            ),
            r.is_err() ==> final(self).same_as(*old(self)),
    {
        proof {
            self.lemma_market_tokens_unsigned(*asset);
        }
        let r = self.ledger.mint(asset, to, amount, signer);
        proof {
            self.lemma_wallets_keep_order(*old(self));
        }
        r
    }

    /// Takes `amount` of `asset` out of existence, from the wallet of `from`,
    /// as `TokenLedger::burn` does.
    pub fn burn(&mut self, asset: &Asset, from: &Identity, amount: u64, signer: &Identity) -> (r:
        Result<(), MarketError>)
        requires
            old(self).wf(),
        ensures
            final(self).wf(),
            final(self).markets() == old(self).markets(),
            r == old(self).ledger().burn_outcome(*asset, *from, amount, *signer),
            final(self).ledger().authorities() == old(self).ledger().authorities(),
            r.is_ok() ==> final(self).ledger().balances() == old(self).ledger().balances().insert(
                (*asset, Holder::Wallet(*from)),
                (old(self).ledger().balance(*asset, Holder::Wallet(*from)) - amount) as nat,
            ) && final(self).ledger().supplies() == old(self).ledger().supplies().insert(
                *asset,
                (old(self).ledger().supply(*asset) - amount) as nat,
            ),
            r.is_err() ==> final(self).same_as(*old(self)),
    {
        let r = self.ledger.burn(asset, from, amount, signer);
        proof {
            self.lemma_wallets_keep_order(*old(self));
        }
        r
    }

    /// Moves `amount` of `asset` from the wallet of `from` to the wallet of
    /// `to`, as `TokenLedger::transfer` does.
    pub fn transfer(
        &mut self,
        asset: &Asset,
        from: &Identity,
        to: &Identity,
        amount: u64,
        signer: &Identity,
    ) -> (r: Result<(), MarketError>)
        requires
            old(self).wf(),
        ensures
            final(self).wf(),
            final(self).markets() == old(self).markets(),
            r == old(self).ledger().transfer_outcome(*asset, *from, amount, *signer),
            final(self).ledger().authorities() == old(self).ledger().authorities(),
            final(self).ledger().supplies() == old(self).ledger().supplies(),
            r.is_ok() ==> final(self).ledger().balances() == moved(
                old(self).ledger().balances(),
                *asset,
                Holder::Wallet(*from),
                Holder::Wallet(*to),
                amount as nat,
            ),
            r.is_err() ==> final(self).same_as(*old(self)),
    {
        let r = self.ledger.transfer(asset, from, to, amount, signer);
        proof {
            self.lemma_wallets_keep_order(*old(self));
        }
        r
    }

    /// Nobody can sign for the tokens of a market.
    proof fn lemma_market_tokens_unsigned(&self, asset: Asset)
        requires
            self.wf(),
        ensures
            asset.market_issued() ==> forall|signer: Identity|
                !self.ledger().may_mint(asset, signer),
    {
        match asset {
            Asset::Mint(_) => {},
            Asset::OptionToken(id) => {
                assert(self.has_market(id) || self.untouched(id));
                if self.has_market(id) {
                    let k = self.index_of(id);
                    assert(self.markets()[k].backed_by(self.ledger()));
                }
            },
            Asset::WriterToken(id) => {
                assert(self.has_market(id) || self.untouched(id));
                if self.has_market(id) {
                    let k = self.index_of(id);
                    assert(self.markets()[k].backed_by(self.ledger()));
                }
            },
        }
    }

    /// Where the ledger held nothing for a market with identity `id`, and
    /// holds for it what it held, it still holds nothing for it.
    proof fn lemma_stays_untouched(&self, pre: Engine, id: MarketId)
        requires
            pre.has_market(id) || pre.untouched(id),
            !pre.has_market(id),
            self.ledger().knows(Asset::OptionToken(id)) == pre.ledger().knows(
                Asset::OptionToken(id),
            ),
            self.ledger().knows(Asset::WriterToken(id)) == pre.ledger().knows(
                Asset::WriterToken(id),
            ),
            forall|a: Asset| #[trigger]
                self.ledger().balance(a, Holder::UnderlyingPool(id)) == pre.ledger().balance(
                    a,
                    Holder::UnderlyingPool(id),
                ),
            forall|a: Asset| #[trigger]
                self.ledger().balance(a, Holder::QuotePool(id)) == pre.ledger().balance(
                    a,
                    Holder::QuotePool(id),
                ),
        ensures
            self.untouched(id),
    {
        assert forall|a: Asset| #[trigger]
            self.ledger().balance(a, Holder::UnderlyingPool(id)) == 0 by {
            assert(pre.ledger().balance(a, Holder::UnderlyingPool(id)) == 0);
        }
        assert forall|a: Asset| #[trigger] self.ledger().balance(a, Holder::QuotePool(id)) == 0 by {
            assert(pre.ledger().balance(a, Holder::QuotePool(id)) == 0);
        }
    }

    /// After the ledger has moved nothing but wallets and mints, the engine
    /// is in order again.
    proof fn lemma_wallets_keep_order(&self, pre: Engine)
        requires
            pre.wf(),
            self.markets() == pre.markets(),
            self.ledger().wf(),
            wallets_only(pre.ledger(), self.ledger()),
        ensures
            self.wf(),
    {
        assert forall|j: int| 0 <= j < self.markets().len() implies (#[trigger] self.markets()[j]).wf()
            && self.markets()[j].backed_by(self.ledger()) by {
            assert(pre.markets()[j].backed_by(pre.ledger()));
        }
        assert forall|other: MarketId| #[trigger]
            self.has_market(other) || self.untouched(other) by {
            if !self.has_market(other) {
                assert(pre.has_market(other) || pre.untouched(other));
                self.lemma_stays_untouched(pre, other);
            }
        }
    }

    /// After one market has taken a step of its own, the engine is in order
    /// again.
    proof fn lemma_step_keeps_order(&self, pre: Engine, i: int)
        requires
            pre.wf(),
            0 <= i < pre.markets().len(),
            self.markets() == pre.markets().update(i, self.markets()[i]),
            self.markets()[i].wf(),
            self.markets()[i].backed_by(self.ledger()),
            self.markets()[i].info() == pre.markets()[i].info(),
            self.ledger().authorities() == pre.ledger().authorities(),
            touches_only(pre.ledger(), self.ledger(), pre.markets()[i].id()),
        ensures
            self.wf(),
            self.others_as_in(pre, pre.markets()[i].id()),
            self.index_of(pre.markets()[i].id()) == i,
            pre.index_of(pre.markets()[i].id()) == i,
    {
        let id = pre.markets()[i].id();
        assert forall|j: int| 0 <= j < self.markets().len() implies (#[trigger] self.markets()[j]).wf()
            && self.markets()[j].backed_by(self.ledger()) by {
            if j != i {
                assert(self.markets()[j] == pre.markets()[j]);
                assert(pre.markets()[j].backed_by(pre.ledger()));
                assert(pre.markets()[j].id() != id);
            }
        }
        assert forall|j: int| 0 <= j < self.markets().len() implies (#[trigger] self.markets()[j]).id()
            == pre.markets()[j].id() by {
            if j != i {
                assert(self.markets()[j] == pre.markets()[j]);
            }
        }
        assert forall|other: MarketId| self.has_market(other) == pre.has_market(other) by {
            if pre.has_market(other) {
                let k = pre.index_of(other);
                assert(self.markets()[k].id() == other);
            }
            if self.has_market(other) {
                let k = self.index_of(other);
                assert(pre.markets()[k].id() == other);
            }
        }
        assert forall|other: MarketId| #[trigger]
            self.has_market(other) || self.untouched(other) by {
            if !self.has_market(other) {
                assert(pre.has_market(other) || pre.untouched(other));
                assert(other != id);
                self.lemma_stays_untouched(pre, other);
            }
        }
        assert(self.markets()[i].id() == id);
        assert forall|other: MarketId| other != id && pre.has_market(other) implies #[trigger]
            self.market(other) == pre.market(other) by {
            let k = pre.index_of(other);
            let k2 = self.index_of(other);
            assert(self.markets()[k].id() == other);
            assert(self.markets()[k2].id() == other);
            assert(pre.markets()[k2].id() == other);
        }
    }
}

/// Between `pre` and `post`, no balance has changed but in wallets, and
/// nothing has changed for the tokens of any market.
pub open spec fn wallets_only(pre: TokenLedger, post: TokenLedger) -> bool {
    &&& forall|a: Asset, id: MarketId| #[trigger]
        post.balances()[(a, Holder::UnderlyingPool(id))] == pre.balances()[(
            a,
            Holder::UnderlyingPool(id),
        )]
    &&& forall|a: Asset, id: MarketId| #[trigger]
        post.balances()[(a, Holder::QuotePool(id))] == pre.balances()[(a, Holder::QuotePool(id))]
    &&& forall|id: MarketId| #[trigger]
        post.supplies()[Asset::OptionToken(id)] == pre.supplies()[Asset::OptionToken(id)]
    &&& forall|id: MarketId|
        #![trigger post.authorities().dom().contains(Asset::OptionToken(id))]
        #![trigger post.authorities()[Asset::OptionToken(id)]]
        post.authorities().dom().contains(Asset::OptionToken(id))
            == pre.authorities().dom().contains(Asset::OptionToken(id))
            && post.authorities()[Asset::OptionToken(id)] == pre.authorities()[Asset::OptionToken(
            id,
        )]
    &&& forall|id: MarketId|
        #![trigger post.authorities().dom().contains(Asset::WriterToken(id))]
        #![trigger post.authorities()[Asset::WriterToken(id)]]
        post.authorities().dom().contains(Asset::WriterToken(id))
            == pre.authorities().dom().contains(Asset::WriterToken(id))
            && post.authorities()[Asset::WriterToken(id)] == pre.authorities()[Asset::WriterToken(
            id,
        )]
}

/// Between `pre` and `post`, no balance has changed but in wallets and in the
/// pools of the market `id`, and no supply but that of the tokens of the
/// market `id`.
pub open spec fn touches_only(pre: TokenLedger, post: TokenLedger, id: MarketId) -> bool {
    &&& forall|a: Asset, other: MarketId|
        other != id ==> #[trigger] post.balances()[(a, Holder::UnderlyingPool(other))]
            == pre.balances()[(a, Holder::UnderlyingPool(other))]
    &&& forall|a: Asset, other: MarketId|
        other != id ==> #[trigger] post.balances()[(a, Holder::QuotePool(other))]
            == pre.balances()[(a, Holder::QuotePool(other))]
    &&& forall|other: MarketId|
        other != id ==> #[trigger] post.supplies()[Asset::OptionToken(other)]
            == pre.supplies()[Asset::OptionToken(other)]
}

} // verus!
