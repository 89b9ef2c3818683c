//! The lifecycle of the contracts of one market: written, then exercised or
//! expired.
//!
//! A `Market` is the record of a market together with its vault and its two
//! writer ledgers. The three operations `write`, `exercise` and `redeem`
//! change the market and the token ledger together, or neither.

use vstd::prelude::*;
use crate::error::MarketError;
use crate::identity::Identity;
use crate::layout::{pack_state, registry_len, state_bytes, MARKET_LEN};
use crate::ledger::{moved, Asset, Holder, TokenLedger};
use crate::market::{MarketId, OptionMarket};
use crate::vault::CollateralVault;
use crate::writers::{
    all_flagged, all_taken_positive, contracts_of, left_after_front,
    lemma_contracts_of_bounded, lemma_front_conserves, lemma_front_parts, lemma_total_taken_prefix,
    lemma_without_conserves, lemma_without_flags, taken_from_front, total_contracts, total_taken,
    without_writer, Taken, WriterEntry, WriterLedger,
};

verus! {

/// What a writer gets back when redeeming after expiry.
#[derive(Clone, Copy, Debug, PartialEq, Eq, Structural)]
pub struct Redemption {
    /// The contracts of the writer that nobody exercised.
    pub contracts: u64,
    /// The underlying asset released for them.
    pub underlying: u64,
    /// The contracts of the writer that were exercised.
    pub exercised: u64,
    /// The quote asset released for them.
    pub quote: u64,
    /// The writer tokens burned.
    pub writer_tokens_burned: u64,
}

/// The state of one market.
pub struct Market {
    info: OptionMarket,
    vault: CollateralVault,
    writers: WriterLedger,
    claims: WriterLedger,
    unexercised: u64,
    written: Ghost<nat>,
    exercised: Ghost<nat>,
}

/// The entries that record, for each part of `t`, the claim of its writer to
/// the quote asset paid for it.
pub open spec fn as_claims(t: Seq<Taken>) -> Seq<WriterEntry> {
    Seq::new(
        t.len(),
        |i: int| WriterEntry { writer: t[i].writer, contracts: t[i].contracts, claim_enabled: true },
    )
}

/// The asset that a market holds as collateral.
pub open spec fn underlying_of(info: OptionMarket) -> Asset {
    Asset::Mint(info.underlying_asset_mint)
}

/// The asset in which the strike of a market is paid.
pub open spec fn quote_of(info: OptionMarket) -> Asset {
    Asset::Mint(info.quote_asset_mint)
}

/// The balances `b` after `writer` wrote `contracts` contracts in the market
/// `info`: the collateral has gone from the writer's wallet to the pool, and
/// the wallet has received as many option tokens and writer tokens as
/// contracts were written.
pub open spec fn balances_after_write(
    b: Map<(Asset, Holder), nat>,
    info: OptionMarket,
    writer: Identity,
    contracts: nat,
) -> Map<(Asset, Holder), nat> {
    let id = info.id();
    let wallet = Holder::Wallet(writer);
    moved(
        b,
        underlying_of(info),
        wallet,
        Holder::UnderlyingPool(id),
        contracts * info.underlying_amount_per_contract as nat,
    ).insert((Asset::OptionToken(id), wallet), b[(Asset::OptionToken(id), wallet)] + contracts).insert(
        (Asset::WriterToken(id), wallet),
        b[(Asset::WriterToken(id), wallet)] + contracts,
    )
}

/// The balances `b` after `exerciser` exercised `contracts` contracts in the
/// market `info`: the option tokens are gone from the exerciser's wallet, the
/// strike has gone from the wallet to the quote pool, and the collateral from
/// the underlying pool to the wallet.
pub open spec fn balances_after_exercise(
    b: Map<(Asset, Holder), nat>,
    info: OptionMarket,
    exerciser: Identity,
    contracts: nat,
) -> Map<(Asset, Holder), nat> {
    let id = info.id();
    let wallet = Holder::Wallet(exerciser);
    let burned = b.insert(
        (Asset::OptionToken(id), wallet),
        (b[(Asset::OptionToken(id), wallet)] - contracts) as nat,
    );
    let paid = moved(
        burned,
        quote_of(info),
        wallet,
        Holder::QuotePool(id),
        contracts * info.quote_amount_per_contract as nat,
    );
    moved(
        paid,
        underlying_of(info),
        Holder::UnderlyingPool(id),
        wallet,
        contracts * info.underlying_amount_per_contract as nat,
    )
}

/// The balances `b` after `writer` redeemed in the market `info`: the
/// collateral of `open` contracts has gone from the underlying pool to the
/// writer's wallet, the strike paid for `exercised` contracts from the quote
/// pool to the wallet, and `burned` writer tokens are gone from the wallet.
pub open spec fn balances_after_redeem(
    b: Map<(Asset, Holder), nat>,
    info: OptionMarket,
    writer: Identity,
    open: nat,
    exercised: nat,
    burned: nat,
) -> Map<(Asset, Holder), nat> {
    let id = info.id();
    let wallet = Holder::Wallet(writer);
    let released = moved(
        b,
        underlying_of(info),
        Holder::UnderlyingPool(id),
        wallet,
        open * info.underlying_amount_per_contract as nat,
    );
    let paid = moved(
        released,
        quote_of(info),
        Holder::QuotePool(id),
        wallet,
        exercised * info.quote_amount_per_contract as nat,
    );
    paid.insert(
        (Asset::WriterToken(id), wallet),
        (paid[(Asset::WriterToken(id), wallet)] - burned) as nat,
    )
}

/// The smaller of two numbers.
pub open spec fn smaller(a: nat, b: nat) -> nat {
    if a <= b {
        a
    } else {
        b
    }
}

/// The claims recorded for the parts of `t`, put behind the entries `c`,
/// count as many contracts as `c` and `t` together.
proof fn lemma_claims_total(c: Seq<WriterEntry>, t: Seq<Taken>)
    ensures
        total_contracts(c + as_claims(t)) == total_contracts(c) + total_taken(t),
    decreases t.len(),
{
    if t.len() == 0 {
        assert(c + as_claims(t) =~= c);
    } else {
        lemma_claims_total(c, t.drop_last());
        assert((c + as_claims(t)).drop_last() =~= c + as_claims(t.drop_last()));
        assert((c + as_claims(t)).last() == as_claims(t)[t.len() - 1]);
    }
}

impl Market {
    /// The record of the market.
    pub closed spec fn info(&self) -> OptionMarket {
        self.info
    }

    /// The vault of the market.
    pub closed spec fn vault(&self) -> CollateralVault {
        self.vault
    }

    /// The ledger of the contracts written and neither exercised nor
    /// redeemed.
    pub closed spec fn writer_ledger(&self) -> WriterLedger {
        self.writers
    }

    /// The ledger of the contracts exercised and not yet redeemed.
    pub closed spec fn claim_ledger(&self) -> WriterLedger {
        self.claims
    }

    /// The contracts written and neither exercised nor redeemed, by write
    /// event, oldest first.
    pub open spec fn writers(&self) -> Seq<WriterEntry> {
        self.writer_ledger()@
    }

    /// The contracts exercised and not yet redeemed, by the writer whose
    /// collateral was released.
    pub open spec fn claims(&self) -> Seq<WriterEntry> {
        self.claim_ledger()@
    }

    /// The number of contracts written and not exercised.
    pub closed spec fn unexercised(&self) -> nat {
        self.unexercised as nat
    }

    /// The number of contracts ever written.
    pub closed spec fn written(&self) -> nat {
        self.written@
    }

    /// The number of contracts ever exercised.
    pub closed spec fn exercised(&self) -> nat {
        self.exercised@
    }

    /// The identity of the market.
    pub open spec fn id(&self) -> MarketId {
        self.info().id()
    }

    /// The vault holds the collateral of exactly the contracts that the
    /// writer ledger counts, and the strike of exactly the contracts whose
    /// exercise is not yet redeemed. The writer ledger counts no contract
    /// that was exercised, and the count of the contracts written and not
    /// exercised is that of all ever written less that of all ever
    /// exercised.
    pub open spec fn wf(&self) -> bool {
        &&& self.info().wf()
        &&& self.writer_ledger().wf()
        &&& self.claim_ledger().wf()
        &&& self.vault().underlying_balance == self.info().underlying_amount_per_contract
            * total_contracts(self.writers())
        &&& self.vault().quote_balance == self.info().quote_amount_per_contract * total_contracts(
            self.claims(),
        )
        &&& all_flagged(self.writers(), false)
        &&& all_flagged(self.claims(), true)
        &&& total_contracts(self.writers()) <= self.unexercised()
        &&& self.unexercised() + self.exercised() == self.written()
    }

    /// The ledger holds what the market accounts for: the pools hold what the
    /// vault says, and as many option tokens exist as contracts are written
    /// and not exercised.
    pub open spec fn backed_by(&self, ledger: TokenLedger) -> bool {
        &&& ledger.wf()
        &&& ledger.knows(Asset::OptionToken(self.id()))
        &&& ledger.knows(Asset::WriterToken(self.id()))
        &&& ledger.balance(underlying_of(self.info()), Holder::UnderlyingPool(self.id()))
            == self.vault().underlying_balance
        &&& ledger.balance(quote_of(self.info()), Holder::QuotePool(self.id()))
            == self.vault().quote_balance
        &&& ledger.supply(Asset::OptionToken(self.id())) == self.unexercised()
        &&& ledger.authorities()[Asset::OptionToken(self.id())].is_none()
        &&& ledger.authorities()[Asset::WriterToken(self.id())].is_none()
    }

    /// The record of the market.
    pub fn record(&self) -> (info: OptionMarket)
        ensures
            info == self.info(),
    {
        self.info
    }

    /// The vault of the market.
    pub fn vault_state(&self) -> (vault: CollateralVault)
        ensures
            vault == self.vault(),
    {
        self.vault
    }

    /// The number of entries in the writer ledger.
    pub fn registry_length(&self) -> (n: usize)
        ensures
            n == self.writers().len(),
    {
        self.writers.len()
    }

    /// The entry at position `index` of the writer ledger, counted from the
    /// oldest, if there is one.
    pub fn writer_at(&self, index: usize) -> (entry: Option<WriterEntry>)
        ensures
            index < self.writers().len() ==> entry == Some(self.writers()[index as int]),
            index >= self.writers().len() ==> entry.is_none(),
    {
        self.writers.get(index)
    }

    /// The entries of the writer ledger, oldest first.
    pub fn writer_entries(&self) -> (entries: Vec<WriterEntry>)
        ensures
            entries@ == self.writers(),
    {
        self.writers.entries()
    }

    /// The entries of the claim ledger, oldest first.
    pub fn claim_entries(&self) -> (entries: Vec<WriterEntry>)
        ensures
            entries@ == self.claims(),
    {
        self.claims.entries()
    }

    /// The entries that are kept with the market: those of the writer
    /// ledger, then those of the claim ledger. The claim flag tells them
    /// apart.
    pub open spec fn entries(&self) -> Seq<WriterEntry> {
        self.writers() + self.claims()
    }

    /// The bytes in which the market is kept, with room for `capacity`
    /// entries: the record, then the entries of the writer ledger and of the
    /// claim ledger. `None` where the two ledgers have more entries, or the
    /// state would have more bytes than can be counted.
    pub fn persist(&self, capacity: usize) -> (r: Option<Vec<u8>>)
        ensures
            r.is_some() == (self.entries().len() <= capacity && MARKET_LEN + registry_len(
                capacity as nat,
            ) <= usize::MAX),
            r matches Some(bytes) ==> bytes@ == state_bytes(
                self.info(),
                self.entries(),
                capacity as nat,
            ),
    {
        let mut entries = self.writers.entries();
        let mut claims = self.claims.entries();
        entries.append(&mut claims);
        pack_state(&self.info, &entries, capacity)
    }

    /// The number of contracts written and not exercised.
    pub fn contracts_unexercised(&self) -> (n: u64)
        ensures
            n == self.unexercised(),
    {
        self.unexercised
    }

    /// Starts the market `info` with an empty vault and empty writer ledgers,
    /// and makes its option and writer tokens known to `ledger`.
    pub(crate) fn open(info: OptionMarket, ledger: &mut TokenLedger) -> (market: Market)
        requires
            info.wf(),
            old(ledger).wf(),
            !old(ledger).knows(Asset::OptionToken(info.id())),
            !old(ledger).knows(Asset::WriterToken(info.id())),
            old(ledger).balance(underlying_of(info), Holder::UnderlyingPool(info.id())) == 0,
            old(ledger).balance(quote_of(info), Holder::QuotePool(info.id())) == 0,
        ensures
            market.wf(),
            market.backed_by(*final(ledger)),
            market.info() == info,
            market.vault() == (CollateralVault { underlying_balance: 0, quote_balance: 0 }),
            market.writers() == Seq::<WriterEntry>::empty(),
            market.claims() == Seq::<WriterEntry>::empty(),
            market.unexercised() == 0,
            market.written() == 0,
            market.exercised() == 0,
            final(ledger).balances() == old(ledger).balances(),
            final(ledger).supplies() == old(ledger).supplies(),
            final(ledger).authorities() == old(ledger).authorities().insert(
                Asset::OptionToken(info.id()),
                None,
            ).insert(Asset::WriterToken(info.id()), None),
    {
        let id = info.market_id();
        proof {
            ledger.lemma_bounds(Asset::OptionToken(id), Holder::QuotePool(id), Holder::QuotePool(id));
        }
        let option_created = ledger.register(Asset::OptionToken(id), None);
        let writer_created = ledger.register(Asset::WriterToken(id), None);
        assert(option_created && writer_created);
        let market = Market {
            info,
            vault: CollateralVault::new(),
            writers: WriterLedger::new(),
            claims: WriterLedger::new(),
            unexercised: 0,
            written: Ghost(0),
            exercised: Ghost(0),
        };
        assert(total_contracts(market.writers()) == 0 && total_contracts(market.claims()) == 0);
        market
    }

    /// What `write` answers: the number of contracts written, or why none
    /// was.
    pub open spec fn write_outcome(
        &self,
        ledger: TokenLedger,
        writer: Identity,
        amount: u64,
        now: i64,
    ) -> Result<u64, MarketError> {
        let info = self.info();
        let contracts = amount as nat / info.underlying_amount_per_contract as nat;
        if info.expired_at(now) {
            Err(MarketError::MarketExpired)
        } else if amount == 0 || amount as nat % info.underlying_amount_per_contract as nat != 0 {
            Err(MarketError::InvalidParameters)
        } else if ledger.balance(underlying_of(info), Holder::Wallet(writer)) < amount {
            Err(MarketError::InsufficientFunds)
        } else if ledger.supply(Asset::OptionToken(self.id())) + contracts > u64::MAX
            || ledger.supply(Asset::WriterToken(self.id())) + contracts > u64::MAX {
            Err(MarketError::InvalidParameters)
        } else {
            Ok(contracts as u64)
        }
    }

    /// Writes contracts against `amount` of underlying asset from the wallet
    /// of `writer`, at time `now`.
    ///
    /// The amount must be a positive whole multiple of the market's
    /// underlying amount per contract. The collateral moves to the pool, the
    /// writer receives one option token and one writer token per contract,
    /// and the writer ledger gets a new last entry. An error changes
    /// nothing.
    pub(crate) fn write(
        &mut self,
        ledger: &mut TokenLedger,
        writer: &Identity,
        amount: u64,
        now: i64,
    ) -> (r: Result<u64, MarketError>)
        requires
            old(self).wf(),
            old(self).backed_by(*old(ledger)),
        ensures
            final(self).wf(),
            final(self).backed_by(*final(ledger)),
            write_step(*old(self), *old(ledger), *final(self), *final(ledger), *writer, amount, now, r),
    {
        let info = self.info;
        let id = info.market_id();
        if info.is_expired(now) {
            return Err(MarketError::MarketExpired);
        }
        let per_contract = info.underlying_amount_per_contract;
        if amount == 0 || amount % per_contract != 0 {
            return Err(MarketError::InvalidParameters);
        }
        let underlying = Asset::Mint(info.underlying_asset_mint);
        let option = Asset::OptionToken(id);
        let writer_token = Asset::WriterToken(id);
        let wallet = Holder::Wallet(*writer);
        let pool = Holder::UnderlyingPool(id);
        if ledger.balance_of_holder(&underlying, &wallet) < amount {
            return Err(MarketError::InsufficientFunds);
        }
        let contracts = amount / per_contract;
        if contracts > u64::MAX - ledger.supply_of(&option) || contracts > u64::MAX
            - ledger.supply_of(&writer_token) {
            return Err(MarketError::InvalidParameters);
        }
        let ghost total = total_contracts(self.writers@);
        proof {
            self.writers.lemma_in_order();
            ledger.lemma_bounds(underlying, wallet, pool);
            assert(contracts * per_contract == amount && contracts > 0) by (nonlinear_arith)
                requires
                    contracts == amount / per_contract,
                    amount % per_contract == 0,
                    per_contract > 0,
                    amount > 0,
            ;
            assert(per_contract * (total + contracts) == per_contract * total + amount
                && total + contracts <= per_contract * (total + contracts)) by (nonlinear_arith)
                requires
                    contracts * per_contract == amount,
                    per_contract > 0,
            ;
        }
        ledger.shift(&underlying, &wallet, &pool, amount);
        ledger.issue(&option, &wallet, contracts);
        ledger.issue(&writer_token, &wallet, contracts);
        let deposited = self.vault.deposit_underlying(amount);
        assert(deposited.is_ok());
        let appended = self.writers.append(*writer, contracts, false);
        assert(appended.is_ok());
        self.unexercised = self.unexercised + contracts;
        self.written = Ghost(self.written@ + contracts as nat);
        proof {
            assert(final(ledger).balances() =~= balances_after_write(
                old(ledger).balances(),
                old(self).info(),
                *writer,
                contracts as nat,
            ));
        }
        Ok(contracts)
    }

    /// What `exercise` answers: what was taken from which writer's entry,
    /// oldest entry first, or why nothing was.
    pub open spec fn exercise_outcome(
        &self,
        ledger: TokenLedger,
        exerciser: Identity,
        contracts: u64,
        now: i64,
    ) -> Result<Seq<Taken>, MarketError> {
        let info = self.info();
        let wallet = Holder::Wallet(exerciser);
        if info.expired_at(now) {
            Err(MarketError::NotYetExercisable)
        } else if ledger.balance(Asset::OptionToken(self.id()), wallet) < contracts {
            Err(MarketError::InsufficientOptionTokens)
        } else if ledger.balance(quote_of(info), wallet) < contracts
            * info.quote_amount_per_contract {
            Err(MarketError::InsufficientQuoteAsset)
        } else if total_contracts(self.writers()) < contracts {
            Err(MarketError::NoEligibleWriters)
        } else {
            Ok(taken_from_front(self.writers(), contracts as nat))
        }
    }

    /// Exercises `contracts` contracts for `exerciser`, at time `now`.
    ///
    /// The option tokens are burned, the strike moves from the exerciser's
    /// wallet to the quote pool and the collateral from the underlying pool to
    /// the wallet. The contracts are taken from the front of the writer
    /// ledger, and each writer so closed gets a claim to the strike paid. An
    /// error changes nothing.
    pub(crate) fn exercise(
        &mut self,
        ledger: &mut TokenLedger,
        exerciser: &Identity,
        contracts: u64,
        now: i64,
    ) -> (r: Result<Vec<Taken>, MarketError>)
        requires
            old(self).wf(),
            old(self).backed_by(*old(ledger)),
        ensures
            final(self).wf(),
            final(self).backed_by(*final(ledger)),
            exercise_step(
                *old(self),
                *old(ledger),
                *final(self),
                *final(ledger),
                *exerciser,
                contracts,
                now,
                taken_view(r),
            ),
    {
        let info = self.info;
        let id = info.market_id();
        if info.is_expired(now) {
            return Err(MarketError::NotYetExercisable);
        }
        let underlying = Asset::Mint(info.underlying_asset_mint);
        let quote = Asset::Mint(info.quote_asset_mint);
        let option = Asset::OptionToken(id);
        let wallet = Holder::Wallet(*exerciser);
        let underlying_pool = Holder::UnderlyingPool(id);
        let quote_pool = Holder::QuotePool(id);
        if ledger.balance_of_holder(&option, &wallet) < contracts {
            return Err(MarketError::InsufficientOptionTokens);
        }
        let strike = match contracts.checked_mul(info.quote_amount_per_contract) {
            Some(strike) => strike,
            None => {
                proof {
                    ledger.lemma_bounds(quote, wallet, wallet);
                }
                return Err(MarketError::InsufficientQuoteAsset);
            },
        };
        if ledger.balance_of_holder(&quote, &wallet) < strike {
            return Err(MarketError::InsufficientQuoteAsset);
        }
        if self.writers.total() < contracts {
            return Err(MarketError::NoEligibleWriters);
        }
        let ghost open = total_contracts(self.writers@);
        let ghost claimed = total_contracts(self.claims@);
        let per_contract = info.underlying_amount_per_contract;
        let per_strike = info.quote_amount_per_contract;
        proof {
            self.writers.lemma_in_order();
            self.claims.lemma_in_order();
            ledger.lemma_bounds(quote, wallet, quote_pool);
            ledger.lemma_bounds(option, wallet, wallet);
            assert(contracts * per_contract <= per_contract * open && per_contract * (open
                - contracts) == per_contract * open - contracts * per_contract)
                by (nonlinear_arith)
                requires
                    contracts <= open,
                    per_contract > 0,
            ;
            assert(per_strike * (claimed + contracts) == per_strike * claimed + contracts
                * per_strike && claimed + contracts <= per_strike * (claimed + contracts))
                by (nonlinear_arith)
                requires
                    per_strike > 0,
            ;
            lemma_front_conserves(self.writers@, contracts as nat);
            lemma_front_parts(self.writers@, contracts as nat, false);
        }
        let collateral = contracts * per_contract;
        ledger.retire(&option, &wallet, contracts);
        ledger.shift(&quote, &wallet, &quote_pool, strike);
        ledger.shift(&underlying, &underlying_pool, &wallet, collateral);
        let paid = self.vault.deposit_quote(strike);
        let released = self.vault.withdraw_underlying(collateral);
        assert(paid.is_ok() && released.is_ok());
        let consumed = self.writers.consume_front(contracts);
        let taken = consumed.taken;
        let ghost claims_before = self.claims@;
        let mut i: usize = 0;
        while i < taken.len()
            invariant
                i <= taken@.len(),
                self.claims.wf(),
                self.writers.wf(),
                self.claims@ == claims_before + as_claims(taken@.subrange(0, i as int)),
                all_taken_positive(taken@),
                total_taken(taken@) == contracts,
                total_contracts(claims_before) + contracts <= u64::MAX,
                self.info == old(self).info,
                self.vault == (CollateralVault {
                    underlying_balance: (old(self).vault.underlying_balance - collateral) as u64,
                    quote_balance: (old(self).vault.quote_balance + strike) as u64,
                }),
                self.writers@ == left_after_front(old(self).writers@, contracts as nat),
                self.unexercised == old(self).unexercised,
                self.written == old(self).written,
                self.exercised == old(self).exercised,
            decreases taken@.len() - i,
        {
            proof {
                lemma_claims_total(claims_before, taken@.subrange(0, i as int));
                lemma_total_taken_prefix(taken@, i as int);
                lemma_total_taken_prefix(taken@, i + 1);
                assert(as_claims(taken@.subrange(0, i + 1)) =~= as_claims(
                    taken@.subrange(0, i as int),
                ).push(
                    WriterEntry {
                        writer: taken@[i as int].writer,
                        contracts: taken@[i as int].contracts,
                        claim_enabled: true,
                    },
                ));
            }
            let part = taken[i];
            let appended = self.claims.append(part.writer, part.contracts, true);
            assert(appended.is_ok());
            proof {
                assert(self.claims@ =~= claims_before + as_claims(taken@.subrange(0, i + 1)));
            }
            i += 1;
        }
        self.unexercised = self.unexercised - contracts;
        self.exercised = Ghost(self.exercised@ + contracts as nat);
        proof {
            assert(taken@.subrange(0, i as int) =~= taken@);
            lemma_claims_total(claims_before, taken@);
            let claims = self.claims@;
            assert forall|j: int| 0 <= j < claims.len() implies (#[trigger] claims[j]).claim_enabled by {
                if j < claims_before.len() {
                    assert(claims[j] == claims_before[j]);
                } else {
                    assert(claims[j] == as_claims(taken@)[j - claims_before.len()]);
                }
            }
            assert(final(ledger).balances() =~= balances_after_exercise(
                old(ledger).balances(),
                old(self).info(),
                *exerciser,
                contracts as nat,
            ));
        }
        Ok(taken)
    }

    /// What `redeem` answers: what the writer gets back, or why nothing.
    pub open spec fn redeem_outcome(&self, ledger: TokenLedger, writer: Identity, now: i64) -> Result<
        Redemption,
        MarketError,
    > {
        let info = self.info();
        let open = contracts_of(self.writers(), writer);
        let exercised = contracts_of(self.claims(), writer);
        let held = ledger.balance(Asset::WriterToken(self.id()), Holder::Wallet(writer));
        if !info.expired_at(now) {
            Err(MarketError::NotYetExpired)
        } else if open == 0 && exercised == 0 {
            Err(MarketError::NoRedeemableBalance)
        } else {
            Ok(
                Redemption {
                    contracts: open as u64,
                    underlying: (open * info.underlying_amount_per_contract) as u64,
                    exercised: exercised as u64,
                    quote: (exercised * info.quote_amount_per_contract) as u64,
                    writer_tokens_burned: smaller(held, open) as u64,
                },
            )
        }
    }

    /// Redeems what `writer` has outstanding, at time `now`, which must not
    /// be before the expiration.
    ///
    /// The writer gets back the collateral of the contracts that nobody
    /// exercised, and the strike paid for those that were exercised. All
    /// entries of the writer leave both writer ledgers. Of the writer tokens
    /// in the wallet, as many are burned as contracts were left unexercised,
    /// or all if the wallet holds fewer. An error changes nothing.
    pub(crate) fn redeem(&mut self, ledger: &mut TokenLedger, writer: &Identity, now: i64) -> (r:
        Result<Redemption, MarketError>)
        requires
            old(self).wf(),
            old(self).backed_by(*old(ledger)),
        ensures
            final(self).wf(),
            final(self).backed_by(*final(ledger)),
            redeem_step(*old(self), *old(ledger), *final(self), *final(ledger), *writer, now, r),
    {
        let info = self.info;
        let id = info.market_id();
        if !info.is_expired(now) {
            return Err(MarketError::NotYetExpired);
        }
        let open = self.writers.total_for(writer);
        let exercised = self.claims.total_for(writer);
        if open == 0 && exercised == 0 {
            return Err(MarketError::NoRedeemableBalance);
        }
        let underlying = Asset::Mint(info.underlying_asset_mint);
        let quote = Asset::Mint(info.quote_asset_mint);
        let writer_token = Asset::WriterToken(id);
        let wallet = Holder::Wallet(*writer);
        let underlying_pool = Holder::UnderlyingPool(id);
        let quote_pool = Holder::QuotePool(id);
        let per_contract = info.underlying_amount_per_contract;
        let per_strike = info.quote_amount_per_contract;
        let ghost all_open = total_contracts(self.writers@);
        let ghost all_claimed = total_contracts(self.claims@);
        proof {
            self.writers.lemma_in_order();
            self.claims.lemma_in_order();
            lemma_contracts_of_bounded(self.writers@, *writer);
            lemma_contracts_of_bounded(self.claims@, *writer);
            lemma_without_conserves(self.writers@, *writer);
            lemma_without_conserves(self.claims@, *writer);
            lemma_without_flags(self.writers@, *writer, false);
            lemma_without_flags(self.claims@, *writer, true);
            assert(open * per_contract <= per_contract * all_open && per_contract * (all_open
                - open) == per_contract * all_open - open * per_contract) by (nonlinear_arith)
                requires
                    open <= all_open,
                    per_contract > 0,
            ;
            assert(exercised * per_strike <= per_strike * all_claimed && per_strike * (all_claimed
                - exercised) == per_strike * all_claimed - exercised * per_strike)
                by (nonlinear_arith)
                requires
                    exercised <= all_claimed,
                    per_strike > 0,
            ;
        }
        let underlying_out = open * per_contract;
        let quote_out = exercised * per_strike;
        let held = ledger.balance_of_holder(&writer_token, &wallet);
        let burned = if held <= open {
            held
        } else {
            open
        };
        ledger.shift(&underlying, &underlying_pool, &wallet, underlying_out);
        ledger.shift(&quote, &quote_pool, &wallet, quote_out);
        ledger.retire(&writer_token, &wallet, burned);
        let released = self.vault.withdraw_underlying(underlying_out);
        let paid = self.vault.withdraw_quote(quote_out);
        assert(released.is_ok() && paid.is_ok());
        self.writers.remove_all_for(writer);
        self.claims.remove_all_for(writer);
        proof {
            assert(final(ledger).balances() =~= balances_after_redeem(
                old(ledger).balances(),
                old(self).info(),
                *writer,
                open as nat,
                exercised as nat,
                burned as nat,
            ));
        }
        Ok(
            Redemption {
                contracts: open,
                underlying: underlying_out,
                exercised,
                quote: quote_out,
                writer_tokens_burned: burned,
            },
        )
    }
}

/// Nothing has changed between `pre` and `post`, nor between the two ledgers.
pub open spec fn nothing_changed(
    pre: Market,
    pre_ledger: TokenLedger,
    post: Market,
    post_ledger: TokenLedger,
) -> bool {
    &&& post.info() == pre.info()
    &&& post.vault() == pre.vault()
    &&& post.writers() == pre.writers()
    &&& post.claims() == pre.claims()
    &&& post.unexercised() == pre.unexercised()
    &&& post.written() == pre.written()
    &&& post.exercised() == pre.exercised()
    &&& post_ledger.balances() == pre_ledger.balances()
    &&& post_ledger.supplies() == pre_ledger.supplies()
    &&& post_ledger.authorities() == pre_ledger.authorities()
}

/// What one call of `write` does: `r` is what it answers, and `post` and
/// `post_ledger` are what it makes of `pre` and `pre_ledger`.
pub open spec fn write_step(
    pre: Market,
    pre_ledger: TokenLedger,
    post: Market,
    post_ledger: TokenLedger,
    writer: Identity,
    amount: u64,
    now: i64,
    r: Result<u64, MarketError>,
) -> bool {
    &&& r == pre.write_outcome(pre_ledger, writer, amount, now)
    &&& r.is_err() ==> nothing_changed(pre, pre_ledger, post, post_ledger)
    &&& r matches Ok(contracts) ==> {
        &&& contracts > 0
        &&& contracts * pre.info().underlying_amount_per_contract == amount
        &&& post.info() == pre.info()
        &&& post.claims() == pre.claims()
        &&& post.writers() == pre.writers().push(
            WriterEntry { writer, contracts, claim_enabled: false },
        )
        &&& pre.vault().underlying_balance + amount <= u64::MAX
        &&& post.vault() == (CollateralVault {
            underlying_balance: (pre.vault().underlying_balance + amount) as u64,
            quote_balance: pre.vault().quote_balance,
        })
        &&& post.unexercised() == pre.unexercised() + contracts
        &&& post.written() == pre.written() + contracts
        &&& post.exercised() == pre.exercised()
        &&& post_ledger.authorities() == pre_ledger.authorities()
        &&& post_ledger.balances() == balances_after_write(
            pre_ledger.balances(),
            pre.info(),
            writer,
            contracts as nat,
        )
        &&& post_ledger.supplies() == pre_ledger.supplies().insert(
            Asset::OptionToken(pre.id()),
            pre_ledger.supply(Asset::OptionToken(pre.id())) + contracts as nat,
        ).insert(
            Asset::WriterToken(pre.id()),
            pre_ledger.supply(Asset::WriterToken(pre.id())) + contracts as nat,
        )
    }
}

/// What one call of `exercise` does: `r` is what it answers, and `post` and
/// `post_ledger` are what it makes of `pre` and `pre_ledger`.
pub open spec fn exercise_step(
    pre: Market,
    pre_ledger: TokenLedger,
    post: Market,
    post_ledger: TokenLedger,
    exerciser: Identity,
    contracts: u64,
    now: i64,
    r: Result<Seq<Taken>, MarketError>,
) -> bool {
    &&& r == pre.exercise_outcome(pre_ledger, exerciser, contracts, now)
    &&& r.is_err() ==> nothing_changed(pre, pre_ledger, post, post_ledger)
    &&& r matches Ok(taken) ==> {
        &&& total_taken(taken) == contracts
        &&& post.info() == pre.info()
        &&& post.writers() == left_after_front(pre.writers(), contracts as nat)
        &&& post.claims() == pre.claims() + as_claims(taken)
        &&& post.vault() == (CollateralVault {
            underlying_balance: (pre.vault().underlying_balance - contracts
                * pre.info().underlying_amount_per_contract) as u64,
            quote_balance: (pre.vault().quote_balance + contracts
                * pre.info().quote_amount_per_contract) as u64,
        })
        &&& contracts * pre.info().underlying_amount_per_contract <= pre.vault().underlying_balance
        &&& pre.vault().quote_balance + contracts * pre.info().quote_amount_per_contract
            <= u64::MAX
        &&& contracts <= pre.unexercised()
        &&& post.unexercised() == pre.unexercised() - contracts
        &&& post.written() == pre.written()
        &&& post.exercised() == pre.exercised() + contracts
        &&& post_ledger.authorities() == pre_ledger.authorities()
        &&& post_ledger.balances() == balances_after_exercise(
            pre_ledger.balances(),
            pre.info(),
            exerciser,
            contracts as nat,
        )
        &&& post_ledger.supplies() == pre_ledger.supplies().insert(
            Asset::OptionToken(pre.id()),
            (pre_ledger.supply(Asset::OptionToken(pre.id())) - contracts) as nat,
        )
    }
}

/// What one call of `redeem` does: `r` is what it answers, and `post` and
/// `post_ledger` are what it makes of `pre` and `pre_ledger`.
pub open spec fn redeem_step(
    pre: Market,
    pre_ledger: TokenLedger,
    post: Market,
    post_ledger: TokenLedger,
    writer: Identity,
    now: i64,
    r: Result<Redemption, MarketError>,
) -> bool {
    &&& r == pre.redeem_outcome(pre_ledger, writer, now)
    &&& r.is_err() ==> nothing_changed(pre, pre_ledger, post, post_ledger)
    &&& r matches Ok(out) ==> {
        &&& post.info() == pre.info()
        &&& post.unexercised() == pre.unexercised()
        &&& post.written() == pre.written()
        &&& post.exercised() == pre.exercised()
        &&& post.writers() == without_writer(pre.writers(), writer)
        &&& post.claims() == without_writer(pre.claims(), writer)
        &&& out.underlying <= pre.vault().underlying_balance
        &&& out.quote <= pre.vault().quote_balance
        &&& post.vault() == (CollateralVault {
            underlying_balance: (pre.vault().underlying_balance - out.underlying) as u64,
            quote_balance: (pre.vault().quote_balance - out.quote) as u64,
        })
        &&& post_ledger.authorities() == pre_ledger.authorities()
        &&& post_ledger.balances() == balances_after_redeem(
            pre_ledger.balances(),
            pre.info(),
            writer,
            out.contracts as nat,
            out.exercised as nat,
            out.writer_tokens_burned as nat,
        )
        &&& post_ledger.supplies() == pre_ledger.supplies().insert(
            Asset::WriterToken(pre.id()),
            (pre_ledger.supply(Asset::WriterToken(pre.id())) - out.writer_tokens_burned) as nat,
        )
    }
}

/// The answer of `exercise` with the parts taken as a sequence.
pub open spec fn taken_view(r: Result<Vec<Taken>, MarketError>) -> Result<Seq<Taken>, MarketError> {
    match r {
        Ok(taken) => Ok(taken@),
        Err(e) => Err(e),
    }
}

} // verus!
