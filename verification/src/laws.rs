//! What holds of every market, whatever was done to it.

use vstd::prelude::*;
use crate::engine::Engine;
use crate::error::MarketError;
use crate::identity::Identity;
use crate::initialize::InitializeMarket;
use crate::ledger::{Asset, Holder, TokenLedger};
use crate::lifecycle::{
    exercise_step, nothing_changed, quote_of, redeem_step, underlying_of, write_step, Market,
    Redemption,
};
use crate::market::{MarketId, OptionMarket};
use crate::writers::{
    contracts_of, left_after_front, lemma_contracts_of_bounded, lemma_front_conserves,
    taken_from_front, total_contracts, Taken, WriterEntry,
};

verus! {

/// The contracts that the writer ledger of a market counts are exactly those
/// whose collateral the vault holds: their number is the vault's underlying
/// balance divided by the underlying amount per contract, and nothing is left
/// over. In the same way the exercised contracts that await redemption are
/// the vault's quote balance divided by the quote amount per contract.
pub proof fn law_vault_backs_writers(market: Market)
    requires
        market.wf(),
    ensures
        total_contracts(market.writers()) == market.vault().underlying_balance as int
            / market.info().underlying_amount_per_contract as int,
        market.vault().underlying_balance as int % market.info().underlying_amount_per_contract as int
            == 0,
        total_contracts(market.claims()) == market.vault().quote_balance as int
            / market.info().quote_amount_per_contract as int,
        market.vault().quote_balance as int % market.info().quote_amount_per_contract as int == 0,
{
    let per_contract = market.info().underlying_amount_per_contract as int;
    let per_strike = market.info().quote_amount_per_contract as int;
    let open = total_contracts(market.writers()) as int;
    let claimed = total_contracts(market.claims()) as int;
    assert((per_contract * open) / per_contract == open && (per_contract * open) % per_contract == 0)
        by (nonlinear_arith)
        requires
            per_contract > 0,
            open >= 0,
    ;
    assert((per_strike * claimed) / per_strike == claimed && (per_strike * claimed) % per_strike == 0)
        by (nonlinear_arith)
        requires
            per_strike > 0,
            claimed >= 0,
    ;
}

/// In an engine that is in order, every market's writer ledger counts what
/// its vault holds, and the market's pools in the token ledger hold what the
/// vault says.
pub proof fn law_pools_hold_the_vault(engine: Engine, id: MarketId)
    requires
        engine.wf(),
        engine.has_market(id),
    ensures
        engine.market(id).id() == id,
        engine.market(id).wf(),
        total_contracts(engine.market(id).writers()) == engine.market(id).vault().underlying_balance as int
            / id.underlying_amount_per_contract as int,
        engine.ledger().balance(
            Asset::Mint(id.underlying_asset_mint),
            Holder::UnderlyingPool(id),
        ) == engine.market(id).vault().underlying_balance,
        engine.ledger().balance(Asset::Mint(id.quote_asset_mint), Holder::QuotePool(id))
            == engine.market(id).vault().quote_balance,
{
    let i = engine.index_of(id);
    assert(engine.markets()[i].wf() && engine.markets()[i].backed_by(engine.ledger()));
    law_vault_backs_writers(engine.market(id));
}

/// In an engine that is in order, as many option tokens of a market exist as
/// contracts of it are written and not exercised: as many as were ever
/// written, less as many as were ever exercised. The writer ledger counts no
/// more contracts than that: a contract leaves it when it is exercised or
/// redeemed.
pub proof fn law_option_supply(engine: Engine, id: MarketId)
    requires
        engine.wf(),
        engine.has_market(id),
    ensures
        engine.ledger().supply(Asset::OptionToken(id)) == engine.market(id).written()
            - engine.market(id).exercised(),
        engine.ledger().supply(Asset::OptionToken(id)) == engine.market(id).unexercised(),
        total_contracts(engine.market(id).writers()) <= engine.ledger().supply(
            Asset::OptionToken(id),
        ),
{
    let i = engine.index_of(id);
    assert(engine.markets()[i].wf() && engine.markets()[i].backed_by(engine.ledger()));
}

/// A write counts its contracts as written, and leaves the count of the
/// contracts exercised as it was. A write that fails counts nothing.
pub proof fn law_write_counts(
    pre: Market,
    pre_ledger: TokenLedger,
    post: Market,
    post_ledger: TokenLedger,
    writer: Identity,
    amount: u64,
    now: i64,
    r: Result<u64, MarketError>,
)
    requires
        write_step(pre, pre_ledger, post, post_ledger, writer, amount, now, r),
    ensures
        post.exercised() == pre.exercised(),
        r matches Ok(contracts) ==> post.written() == pre.written() + contracts
            && post.unexercised() == pre.unexercised() + contracts,
        r.is_err() ==> post.written() == pre.written() && post.unexercised() == pre.unexercised(),
{
}

/// An exercise counts its contracts as exercised, and leaves the count of
/// the contracts written as it was. An exercise that fails counts nothing.
pub proof fn law_exercise_counts(
    pre: Market,
    pre_ledger: TokenLedger,
    post: Market,
    post_ledger: TokenLedger,
    exerciser: Identity,
    contracts: u64,
    now: i64,
    r: Result<Seq<Taken>, MarketError>,
)
    requires
        exercise_step(pre, pre_ledger, post, post_ledger, exerciser, contracts, now, r),
    ensures
        post.written() == pre.written(),
        r.is_ok() ==> post.exercised() == pre.exercised() + contracts && post.unexercised()
            == pre.unexercised() - contracts,
        r.is_err() ==> post.exercised() == pre.exercised() && post.unexercised()
            == pre.unexercised(),
{
}

/// A redemption leaves the counts of the contracts written and exercised as
/// they were.
pub proof fn law_redeem_counts(
    pre: Market,
    pre_ledger: TokenLedger,
    post: Market,
    post_ledger: TokenLedger,
    writer: Identity,
    now: i64,
    r: Result<Redemption, MarketError>,
)
    requires
        redeem_step(pre, pre_ledger, post, post_ledger, writer, now, r),
    ensures
        post.written() == pre.written(),
        post.exercised() == pre.exercised(),
        post.unexercised() == pre.unexercised(),
{
}

/// Contracts are taken from the oldest entry first. The first part taken is
/// from the first entry: all that the entry counts, or all that was asked for
/// if that is less. If the first entry counts fewer contracts than were asked
/// for, the next part is from the second entry, in the same way.
pub proof fn law_oldest_first(s: Seq<WriterEntry>, k: nat)
    requires
        s.len() > 0,
        k > 0,
    ensures
        taken_from_front(s, k).len() > 0,
        taken_from_front(s, k)[0].writer == s[0].writer,
        taken_from_front(s, k)[0].contracts == if k <= s[0].contracts {
            k
        } else {
            s[0].contracts as nat
        },
        s[0].contracts < k && s.len() > 1 ==> {
            &&& taken_from_front(s, k).len() > 1
            &&& taken_from_front(s, k)[1].writer == s[1].writer
            &&& taken_from_front(s, k)[1].contracts == if k - s[0].contracts <= s[1].contracts {
                (k - s[0].contracts) as nat
            } else {
                s[1].contracts as nat
            }
        },
{
    if (s[0].contracts as nat) < k && s.len() > 1 {
        let rest = s.drop_first();
        let k2 = (k - s[0].contracts) as nat;
        assert(rest[0] == s[1]);
        assert(taken_from_front(rest, k2).len() > 0);
        assert(taken_from_front(s, k)[1] == taken_from_front(rest, k2)[0]);
    }
}

/// An exercise takes from the oldest entry of the writer ledger first, and
/// from the next entry what the oldest could not give.
pub proof fn law_exercise_takes_oldest(
    pre: Market,
    pre_ledger: TokenLedger,
    post: Market,
    post_ledger: TokenLedger,
    exerciser: Identity,
    contracts: u64,
    now: i64,
    taken: Seq<Taken>,
)
    requires
        exercise_step(pre, pre_ledger, post, post_ledger, exerciser, contracts, now, Ok(taken)),
        contracts > 0,
    ensures
        pre.writers().len() > 0,
        taken.len() > 0,
        taken[0].writer == pre.writers()[0].writer,
        taken[0].contracts == if contracts <= pre.writers()[0].contracts {
            contracts
        } else {
            pre.writers()[0].contracts
        },
        pre.writers()[0].contracts < contracts ==> {
            &&& pre.writers().len() > 1
            &&& taken.len() > 1
            &&& taken[1].writer == pre.writers()[1].writer
        },
        post.writers() == left_after_front(pre.writers(), contracts as nat),
{
    let s = pre.writers();
    if s.len() > 0 {
        law_oldest_first(s, contracts as nat);
        if s[0].contracts < contracts && s.len() == 1 {
            assert(s.drop_last() =~= Seq::<WriterEntry>::empty());
            assert(total_contracts(s.drop_last()) == 0);
        }
    }
}

/// The parts taken follow the entries in order: part `i` is from entry `i`,
/// it is never more than the entry counts, and every part but the last is
/// all that its entry counts. What is left are the entries behind those, with
/// the last entry touched in front if it was not used up.
pub proof fn law_insertion_order(s: Seq<WriterEntry>, k: nat)
    ensures
        taken_from_front(s, k).len() <= s.len(),
        forall|i: int|
            0 <= i < taken_from_front(s, k).len() ==> {
                &&& (#[trigger] taken_from_front(s, k)[i]).writer == s[i].writer
                &&& taken_from_front(s, k)[i].contracts <= s[i].contracts
                &&& i + 1 < taken_from_front(s, k).len() ==> taken_from_front(s, k)[i].contracts
                    == s[i].contracts
            },
        left_after_front(s, k).len() <= s.len(),
        forall|i: int|
            1 <= i < left_after_front(s, k).len() ==> #[trigger] left_after_front(s, k)[i] == s[s.len()
                - left_after_front(s, k).len() + i],
        left_after_front(s, k).len() > 0 ==> left_after_front(s, k)[0].writer == s[s.len()
            - left_after_front(s, k).len()].writer,
    decreases s.len(),
{
    if k == 0 || s.len() == 0 {
    } else if s[0].contracts as nat <= k {
        let rest = s.drop_first();
        let k2 = (k - s[0].contracts) as nat;
        law_insertion_order(rest, k2);
        let t = taken_from_front(s, k);
        let t2 = taken_from_front(rest, k2);
        assert forall|i: int| 0 <= i < t.len() implies {
            &&& (#[trigger] t[i]).writer == s[i].writer
            &&& t[i].contracts <= s[i].contracts
            &&& i + 1 < t.len() ==> t[i].contracts == s[i].contracts
        } by {
            if i > 0 {
                assert(t[i] == t2[i - 1]);
                assert(rest[i - 1] == s[i]);
            }
        }
        let left = left_after_front(s, k);
        assert forall|i: int| 1 <= i < left.len() implies #[trigger] left[i] == s[s.len() - left.len()
            + i] by {
            assert(left[i] == rest[rest.len() - left.len() + i]);
        }
        if left.len() > 0 {
            assert(rest[rest.len() - left.len()] == s[s.len() - left.len()]);
        }
    } else {
    }
}

/// From the expiration on, nothing can be exercised: the answer is
/// `NotYetExercisable`, and nothing changes.
pub proof fn law_no_exercise_from_expiry(
    pre: Market,
    pre_ledger: TokenLedger,
    post: Market,
    post_ledger: TokenLedger,
    exerciser: Identity,
    contracts: u64,
    now: i64,
    r: Result<Seq<Taken>, MarketError>,
)
    requires
        exercise_step(pre, pre_ledger, post, post_ledger, exerciser, contracts, now, r),
        now >= pre.info().expiration_unix_timestamp,
    ensures
        r == Err::<Seq<Taken>, MarketError>(MarketError::NotYetExercisable),
        nothing_changed(pre, pre_ledger, post, post_ledger),
{
}

/// Before the expiration, nothing can be redeemed: the answer is
/// `NotYetExpired`, and nothing changes.
pub proof fn law_no_redeem_before_expiry(
    pre: Market,
    pre_ledger: TokenLedger,
    post: Market,
    post_ledger: TokenLedger,
    writer: Identity,
    now: i64,
    r: Result<Redemption, MarketError>,
)
    requires
        redeem_step(pre, pre_ledger, post, post_ledger, writer, now, r),
        now < pre.info().expiration_unix_timestamp,
    ensures
        r == Err::<Redemption, MarketError>(MarketError::NotYetExpired),
        nothing_changed(pre, pre_ledger, post, post_ledger),
{
}

/// What a writer gets back is the writer's share of what the vault holds: of
/// the underlying asset, as the writer's unexercised contracts are to all
/// unexercised contracts; of the quote asset, as the writer's exercised
/// contracts are to all exercised contracts that await redemption.
pub proof fn law_redeem_pro_rata(
    pre: Market,
    pre_ledger: TokenLedger,
    post: Market,
    post_ledger: TokenLedger,
    writer: Identity,
    now: i64,
    out: Redemption,
)
    requires
        pre.wf(),
        redeem_step(pre, pre_ledger, post, post_ledger, writer, now, Ok(out)),
    ensures
        out.contracts == contracts_of(pre.writers(), writer),
        out.exercised == contracts_of(pre.claims(), writer),
        out.underlying == out.contracts * pre.info().underlying_amount_per_contract,
        out.quote == out.exercised * pre.info().quote_amount_per_contract,
        out.underlying * total_contracts(pre.writers()) == pre.vault().underlying_balance
            * out.contracts,
        out.quote * total_contracts(pre.claims()) == pre.vault().quote_balance * out.exercised,
{
    let per_contract = pre.info().underlying_amount_per_contract as int;
    let per_strike = pre.info().quote_amount_per_contract as int;
    let open = contracts_of(pre.writers(), writer) as int;
    let exercised = contracts_of(pre.claims(), writer) as int;
    let all_open = total_contracts(pre.writers()) as int;
    let all_claimed = total_contracts(pre.claims()) as int;
    pre.writer_ledger().lemma_in_order();
    pre.claim_ledger().lemma_in_order();
    lemma_contracts_of_bounded(pre.writers(), writer);
    lemma_contracts_of_bounded(pre.claims(), writer);
    assert(open * per_contract <= per_contract * all_open && (open * per_contract) * all_open == (
    per_contract * all_open) * open) by (nonlinear_arith)
        requires
            0 <= open <= all_open,
            per_contract > 0,
    ;
    assert(exercised * per_strike <= per_strike * all_claimed && (exercised * per_strike)
        * all_claimed == (per_strike * all_claimed) * exercised) by (nonlinear_arith)
        requires
            0 <= exercised <= all_claimed,
            per_strike > 0,
    ;
}

/// The same terms are the same market, whoever asks and whenever: where a
/// market with the terms of `id` exists, creating it again, or taking in a
/// record with these terms, is answered with `DuplicateMarket`.
pub proof fn law_same_terms_same_market(
    engine: Engine,
    id: MarketId,
    record: OptionMarket,
    now: i64,
)
    requires
        engine.has_market(id),
        record.id() == id,
    ensures
        engine.create_outcome(id, now) == Err::<MarketId, MarketError>(
            MarketError::DuplicateMarket,
        ),
        engine.open_outcome(record, now) == Err::<MarketId, MarketError>(
            MarketError::DuplicateMarket,
        ),
{
}

/// A market's account that holds an initialized market with the given terms
/// answers a second initialization with `DuplicateMarket`: whoever the
/// authority is, signed or not, whatever the time and whatever address is
/// derived.
pub proof fn law_initialized_once(
    ctx: InitializeMarket,
    underlying_amount_per_contract: u64,
    quote_amount_per_contract: u64,
    expiration_unix_timestamp: i64,
    now: i64,
    derived: Option<Seq<u8>>,
)
    requires
        ctx.holds_market(
            underlying_amount_per_contract,
            quote_amount_per_contract,
            expiration_unix_timestamp,
        ),
    ensures
        ctx.outcome(
            underlying_amount_per_contract,
            quote_amount_per_contract,
            expiration_unix_timestamp,
            now,
            derived,
        ) == Err::<(), MarketError>(MarketError::DuplicateMarket),
{
}

/// Once a market's account is initialized, it holds the market of the terms
/// it was initialized with, and the engine takes that record in at the same
/// time unless it has a market with these terms already.
pub proof fn law_initialized_market_opens(
    ctx: InitializeMarket,
    engine: Engine,
    underlying_amount_per_contract: u64,
    quote_amount_per_contract: u64,
    expiration_unix_timestamp: i64,
    bump_seed: u8,
    now: i64,
    derived: Option<Seq<u8>>,
)
    requires
        ctx.outcome(
            underlying_amount_per_contract,
            quote_amount_per_contract,
            expiration_unix_timestamp,
            now,
            derived,
        ).is_ok(),
    ensures
        ({
            let record = ctx.initialized_record(
                underlying_amount_per_contract,
                quote_amount_per_contract,
                expiration_unix_timestamp,
                bump_seed,
            );
            let id = ctx.market_id(
                underlying_amount_per_contract,
                quote_amount_per_contract,
                expiration_unix_timestamp,
            );
            &&& record.id() == id
            &&& record.wf()
            &&& (InitializeMarket { option_market: record, ..ctx }).holds_market(
                underlying_amount_per_contract,
                quote_amount_per_contract,
                expiration_unix_timestamp,
            )
            &&& engine.open_outcome(record, now) == if engine.has_market(id) {
                Err::<MarketId, MarketError>(MarketError::DuplicateMarket)
            } else {
                Ok::<MarketId, MarketError>(id)
            }
        }),
{
}

/// From the expiration on, nothing can be written: the answer is
/// `MarketExpired`, and nothing changes.
pub proof fn law_no_write_from_expiry(
    pre: Market,
    pre_ledger: TokenLedger,
    post: Market,
    post_ledger: TokenLedger,
    writer: Identity,
    amount: u64,
    now: i64,
    r: Result<u64, MarketError>,
)
    requires
        write_step(pre, pre_ledger, post, post_ledger, writer, amount, now, r),
        now >= pre.info().expiration_unix_timestamp,
    ensures
        r == Err::<u64, MarketError>(MarketError::MarketExpired),
        nothing_changed(pre, pre_ledger, post, post_ledger),
{
}

/// Writing `n` contracts and then exercising `n` contracts brings the vault
/// and the pool back to what they held of the underlying asset before the
/// write, the writer ledger to the number of contracts it counted, and the
/// supply of option tokens to what it was. The exerciser's wallet holds `n`
/// option tokens fewer than before the exercise. The writer keeps the `n`
/// writer tokens of the write: they are not touched by an exercise.
pub proof fn law_write_then_exercise(
    start: Market,
    start_ledger: TokenLedger,
    written: Market,
    written_ledger: TokenLedger,
    end: Market,
    end_ledger: TokenLedger,
    writer: Identity,
    exerciser: Identity,
    amount: u64,
    n: u64,
    written_at: i64,
    exercised_at: i64,
    taken: Seq<Taken>,
)
    requires
        start.wf(),
        start.backed_by(start_ledger),
        written.wf(),
        written.backed_by(written_ledger),
        write_step(
            start,
            start_ledger,
            written,
            written_ledger,
            writer,
            amount,
            written_at,
            Ok(n),
        ),
        exercise_step(
            written,
            written_ledger,
            end,
            end_ledger,
            exerciser,
            n,
            exercised_at,
            Ok(taken),
        ),
    ensures
        end.vault().underlying_balance == start.vault().underlying_balance,
        end_ledger.balance(underlying_of(start.info()), Holder::UnderlyingPool(start.id()))
            == start_ledger.balance(underlying_of(start.info()), Holder::UnderlyingPool(start.id())),
        start.vault().underlying_balance == 0 ==> end.vault().underlying_balance == 0,
        total_contracts(end.writers()) == total_contracts(start.writers()),
        end.unexercised() == start.unexercised(),
        end_ledger.supply(Asset::OptionToken(start.id())) == start_ledger.supply(
            Asset::OptionToken(start.id()),
        ),
        end_ledger.balance(Asset::OptionToken(start.id()), Holder::Wallet(exerciser))
            == written_ledger.balance(Asset::OptionToken(start.id()), Holder::Wallet(exerciser)) - n,
        exerciser == writer ==> end_ledger.balance(
            Asset::OptionToken(start.id()),
            Holder::Wallet(writer),
        ) == start_ledger.balance(Asset::OptionToken(start.id()), Holder::Wallet(writer)),
        end_ledger.balance(Asset::WriterToken(start.id()), Holder::Wallet(writer))
            == start_ledger.balance(Asset::WriterToken(start.id()), Holder::Wallet(writer)) + n,
        end_ledger.balance(quote_of(start.info()), Holder::QuotePool(start.id()))
            == start_ledger.balance(quote_of(start.info()), Holder::QuotePool(start.id())) + n
            * start.info().quote_amount_per_contract,
{
    let info = start.info();
    let entry = WriterEntry { writer, contracts: n, claim_enabled: false };
    assert(written.writers().drop_last() =~= start.writers());
    lemma_front_conserves(written.writers(), n as nat);
    start_ledger.lemma_bounds(
        Asset::OptionToken(start.id()),
        Holder::Wallet(writer),
        Holder::Wallet(exerciser),
    );
    assert(n * info.underlying_amount_per_contract == amount);
}

} // verus!
