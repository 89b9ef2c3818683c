use psy_american::engine::Engine;
use psy_american::error::MarketError;
use psy_american::identity::Identity;
use psy_american::ledger::{Asset, Holder};
use psy_american::lifecycle::Redemption;
use psy_american::market::MarketId;
use psy_american::vault::CollateralVault;
use psy_american::writers::{Taken, WriterEntry};

const EXPIRY: i64 = 1_000;
const NOW: i64 = 10;
const AUTHORITY: u8 = 9;
const ALICE: u8 = 11;
const BOB: u8 = 12;
const CAROL: u8 = 13;

fn id(byte: u8) -> Identity {
    Identity::new([byte; 32])
}

fn underlying() -> Asset {
    Asset::Mint(id(1))
}

fn quote() -> Asset {
    Asset::Mint(id(2))
}

fn market_with(per_contract: u64, per_strike: u64) -> (Engine, MarketId) {
    let mut engine = Engine::new();
    assert!(engine.create_mint(id(1), id(AUTHORITY)));
    assert!(engine.create_mint(id(2), id(AUTHORITY)));
    let market = engine.create_market(id(1), id(2), per_contract, per_strike, EXPIRY, NOW).unwrap();
    (engine, market)
}

fn fund(engine: &mut Engine, asset: &Asset, who: u8, amount: u64) {
    engine.mint(asset, &id(who), amount, &id(AUTHORITY)).unwrap();
}

fn writers(engine: &Engine, market: &MarketId) -> Vec<(Identity, u64)> {
    let n = engine.registry_length(market).unwrap();
    (0..n)
        .map(|i| {
            let entry = engine.writer_at(market, i).unwrap().unwrap();
            assert!(!entry.claim_enabled);
            (entry.writer, entry.contracts)
        })
        .collect()
}

fn pool(engine: &Engine, market: &MarketId) -> u64 {
    engine.balance_of_holder(&underlying(), &Holder::UnderlyingPool(*market))
}

fn quote_pool(engine: &Engine, market: &MarketId) -> u64 {
    engine.balance_of_holder(&quote(), &Holder::QuotePool(*market))
}

fn check_books(engine: &Engine, market: &MarketId) {
    let record = engine.get_market(market).unwrap();
    let vault = engine.vault_of(market).unwrap();
    let open: u64 = writers(engine, market).iter().map(|(_, contracts)| contracts).sum();
    assert_eq!(open, vault.underlying_balance / record.underlying_amount_per_contract);
    assert_eq!(vault.underlying_balance % record.underlying_amount_per_contract, 0);
    assert_eq!(vault.quote_balance % record.quote_amount_per_contract, 0);
    assert_eq!(pool(engine, market), vault.underlying_balance);
    assert_eq!(quote_pool(engine, market), vault.quote_balance);
}

#[test]
fn write_moves_the_collateral_and_issues_the_tokens() {
    let (mut engine, market) = market_with(100, 500);
    fund(&mut engine, &underlying(), ALICE, 1_000);
    assert_eq!(engine.write(&market, &id(ALICE), 300, NOW), Ok(3));
    assert_eq!(engine.balance_of(&underlying(), &id(ALICE)), 700);
    assert_eq!(pool(&engine, &market), 300);
    assert_eq!(engine.balance_of(&Asset::OptionToken(market), &id(ALICE)), 3);
    assert_eq!(engine.balance_of(&Asset::WriterToken(market), &id(ALICE)), 3);
    assert_eq!(engine.supply_of(&Asset::OptionToken(market)), 3);
    assert_eq!(engine.supply_of(&Asset::WriterToken(market)), 3);
    assert_eq!(
        engine.vault_of(&market),
        Ok(CollateralVault { underlying_balance: 300, quote_balance: 0 })
    );
    assert_eq!(
        engine.writer_at(&market, 0),
        Ok(Some(WriterEntry { writer: id(ALICE), contracts: 3, claim_enabled: false }))
    );
    check_books(&engine, &market);
}

#[test]
fn every_write_is_an_entry_of_its_own() {
    let (mut engine, market) = market_with(100, 500);
    fund(&mut engine, &underlying(), ALICE, 1_000);
    fund(&mut engine, &underlying(), BOB, 1_000);
    assert_eq!(engine.write(&market, &id(ALICE), 100, NOW), Ok(1));
    assert_eq!(engine.write(&market, &id(BOB), 200, NOW + 1), Ok(2));
    assert_eq!(engine.write(&market, &id(ALICE), 300, NOW + 2), Ok(3));
    assert_eq!(writers(&engine, &market), vec![(id(ALICE), 1), (id(BOB), 2), (id(ALICE), 3)]);
    assert_eq!(engine.supply_of(&Asset::OptionToken(market)), 6);
    check_books(&engine, &market);
}

#[test]
fn write_rejects_an_amount_that_is_no_positive_multiple() {
    let (mut engine, market) = market_with(100, 500);
    fund(&mut engine, &underlying(), ALICE, 1_000);
    for amount in [0, 1, 99, 101, 250] {
        assert_eq!(
            engine.write(&market, &id(ALICE), amount, NOW),
            Err(MarketError::InvalidParameters)
        );
    }
    assert_eq!(engine.balance_of(&underlying(), &id(ALICE)), 1_000);
    assert_eq!(engine.registry_length(&market), Ok(0));
    assert_eq!(engine.supply_of(&Asset::OptionToken(market)), 0);
}

#[test]
fn write_rejects_a_writer_without_the_funds() {
    let (mut engine, market) = market_with(100, 500);
    fund(&mut engine, &underlying(), ALICE, 199);
    assert_eq!(
        engine.write(&market, &id(ALICE), 200, NOW),
        Err(MarketError::InsufficientFunds)
    );
    assert_eq!(engine.write(&market, &id(BOB), 100, NOW), Err(MarketError::InsufficientFunds));
    assert_eq!(engine.balance_of(&underlying(), &id(ALICE)), 199);
    assert_eq!(pool(&engine, &market), 0);
    assert_eq!(engine.write(&market, &id(ALICE), 100, NOW), Ok(1));
}

#[test]
fn write_rejects_contracts_beyond_the_token_supply() {
    let (mut engine, market) = market_with(1, 1);
    fund(&mut engine, &underlying(), ALICE, u64::MAX);
    assert_eq!(engine.write(&market, &id(ALICE), u64::MAX, NOW), Ok(u64::MAX));
    engine.redeem(&market, &id(ALICE), EXPIRY).unwrap();
    assert_eq!(engine.supply_of(&Asset::OptionToken(market)), u64::MAX);
    assert_eq!(engine.supply_of(&Asset::WriterToken(market)), 0);
    assert_eq!(engine.write(&market, &id(ALICE), 1, NOW), Err(MarketError::InvalidParameters));
    assert_eq!(engine.balance_of(&underlying(), &id(ALICE)), u64::MAX);
    assert_eq!(engine.registry_length(&market), Ok(0));
    check_books(&engine, &market);
}

#[test]
fn write_is_refused_from_the_expiration_on() {
    let (mut engine, market) = market_with(100, 500);
    fund(&mut engine, &underlying(), ALICE, 1_000);
    assert_eq!(engine.write(&market, &id(ALICE), 100, EXPIRY - 1), Ok(1));
    assert_eq!(engine.write(&market, &id(ALICE), 100, EXPIRY), Err(MarketError::MarketExpired));
    assert_eq!(
        engine.write(&market, &id(ALICE), 100, EXPIRY + 1),
        Err(MarketError::MarketExpired)
    );
    assert_eq!(
        engine.write(&market, &id(ALICE), 0, EXPIRY),
        Err(MarketError::MarketExpired)
    );
    assert_eq!(engine.registry_length(&market), Ok(1));
    assert_eq!(engine.balance_of(&underlying(), &id(ALICE)), 900);
}

#[test]
fn exercise_takes_the_oldest_entry_first_and_then_the_next() {
    let (mut engine, market) = market_with(100, 500);
    fund(&mut engine, &underlying(), ALICE, 300);
    fund(&mut engine, &underlying(), BOB, 400);
    fund(&mut engine, &underlying(), CAROL, 500);
    engine.write(&market, &id(ALICE), 300, NOW).unwrap();
    engine.write(&market, &id(BOB), 400, NOW).unwrap();
    engine.write(&market, &id(CAROL), 500, NOW).unwrap();
    fund(&mut engine, &quote(), CAROL, 2_500);
    assert_eq!(
        engine.exercise(&market, &id(CAROL), 5, NOW),
        Ok(vec![
            Taken { writer: id(ALICE), contracts: 3 },
            Taken { writer: id(BOB), contracts: 2 },
        ])
    );
    assert_eq!(writers(&engine, &market), vec![(id(BOB), 2), (id(CAROL), 5)]);
    assert_eq!(engine.balance_of(&Asset::OptionToken(market), &id(CAROL)), 0);
    assert_eq!(engine.supply_of(&Asset::OptionToken(market)), 7);
    assert_eq!(engine.supply_of(&Asset::WriterToken(market)), 12);
    assert_eq!(engine.balance_of(&quote(), &id(CAROL)), 0);
    assert_eq!(engine.balance_of(&underlying(), &id(CAROL)), 500);
    assert_eq!(
        engine.vault_of(&market),
        Ok(CollateralVault { underlying_balance: 700, quote_balance: 2_500 })
    );
    check_books(&engine, &market);
}

#[test]
fn exercise_of_no_contracts_changes_nothing() {
    let (mut engine, market) = market_with(100, 500);
    fund(&mut engine, &underlying(), ALICE, 100);
    engine.write(&market, &id(ALICE), 100, NOW).unwrap();
    assert_eq!(engine.exercise(&market, &id(BOB), 0, NOW), Ok(vec![]));
    assert_eq!(writers(&engine, &market), vec![(id(ALICE), 1)]);
    assert_eq!(engine.supply_of(&Asset::OptionToken(market)), 1);
    check_books(&engine, &market);
}

#[test]
fn exercise_needs_the_option_tokens() {
    let (mut engine, market) = market_with(100, 500);
    fund(&mut engine, &underlying(), ALICE, 200);
    engine.write(&market, &id(ALICE), 200, NOW).unwrap();
    fund(&mut engine, &quote(), BOB, 5_000);
    assert_eq!(
        engine.exercise(&market, &id(BOB), 1, NOW),
        Err(MarketError::InsufficientOptionTokens)
    );
    assert_eq!(
        engine.exercise(&market, &id(ALICE), 3, NOW),
        Err(MarketError::InsufficientOptionTokens)
    );
    assert_eq!(engine.balance_of(&quote(), &id(BOB)), 5_000);
    assert_eq!(writers(&engine, &market), vec![(id(ALICE), 2)]);
}

#[test]
fn exercise_needs_the_strike() {
    let (mut engine, market) = market_with(100, 500);
    fund(&mut engine, &underlying(), ALICE, 200);
    engine.write(&market, &id(ALICE), 200, NOW).unwrap();
    fund(&mut engine, &quote(), ALICE, 999);
    assert_eq!(
        engine.exercise(&market, &id(ALICE), 2, NOW),
        Err(MarketError::InsufficientQuoteAsset)
    );
    assert_eq!(engine.balance_of(&quote(), &id(ALICE)), 999);
    assert_eq!(engine.balance_of(&Asset::OptionToken(market), &id(ALICE)), 2);
    assert_eq!(pool(&engine, &market), 200);
    assert_eq!(
        engine.exercise(&market, &id(ALICE), 1, NOW),
        Ok(vec![Taken { writer: id(ALICE), contracts: 1 }])
    );
    assert_eq!(engine.balance_of(&quote(), &id(ALICE)), 499);
}

#[test]
fn a_strike_beyond_u64_cannot_be_paid() {
    let (mut engine, market) = market_with(1, u64::MAX);
    fund(&mut engine, &underlying(), ALICE, 2);
    engine.write(&market, &id(ALICE), 2, NOW).unwrap();
    fund(&mut engine, &quote(), ALICE, u64::MAX);
    assert_eq!(
        engine.exercise(&market, &id(ALICE), 2, NOW),
        Err(MarketError::InsufficientQuoteAsset)
    );
    assert_eq!(
        engine.exercise(&market, &id(ALICE), 1, NOW),
        Ok(vec![Taken { writer: id(ALICE), contracts: 1 }])
    );
    assert_eq!(quote_pool(&engine, &market), u64::MAX);
}

#[test]
fn exercise_without_a_writer_left_is_a_fault() {
    let (mut engine, market) = market_with(100, 500);
    fund(&mut engine, &underlying(), ALICE, 100);
    fund(&mut engine, &quote(), ALICE, 500);
    engine.write(&market, &id(ALICE), 100, NOW).unwrap();
    engine.redeem(&market, &id(ALICE), EXPIRY).unwrap();
    assert_eq!(engine.balance_of(&Asset::OptionToken(market), &id(ALICE)), 1);
    assert_eq!(
        engine.exercise(&market, &id(ALICE), 1, NOW),
        Err(MarketError::NoEligibleWriters)
    );
    assert_eq!(engine.balance_of(&quote(), &id(ALICE)), 500);
    assert_eq!(engine.balance_of(&Asset::OptionToken(market), &id(ALICE)), 1);
}

#[test]
fn exercise_is_refused_from_the_expiration_on() {
    let (mut engine, market) = market_with(100, 500);
    fund(&mut engine, &underlying(), ALICE, 200);
    fund(&mut engine, &quote(), ALICE, 1_000);
    engine.write(&market, &id(ALICE), 200, NOW).unwrap();
    assert_eq!(
        engine.exercise(&market, &id(ALICE), 1, EXPIRY),
        Err(MarketError::NotYetExercisable)
    );
    assert_eq!(
        engine.exercise(&market, &id(BOB), 7, EXPIRY + 20),
        Err(MarketError::NotYetExercisable)
    );
    assert_eq!(engine.balance_of(&quote(), &id(ALICE)), 1_000);
    assert_eq!(engine.balance_of(&underlying(), &id(ALICE)), 0);
    assert_eq!(engine.supply_of(&Asset::OptionToken(market)), 2);
    assert_eq!(writers(&engine, &market), vec![(id(ALICE), 2)]);
    assert_eq!(
        engine.exercise(&market, &id(ALICE), 1, EXPIRY - 1),
        Ok(vec![Taken { writer: id(ALICE), contracts: 1 }])
    );
}

#[test]
fn redeem_is_refused_before_the_expiration() {
    let (mut engine, market) = market_with(100, 500);
    fund(&mut engine, &underlying(), ALICE, 200);
    engine.write(&market, &id(ALICE), 200, NOW).unwrap();
    assert_eq!(engine.redeem(&market, &id(ALICE), NOW), Err(MarketError::NotYetExpired));
    assert_eq!(engine.redeem(&market, &id(ALICE), EXPIRY - 1), Err(MarketError::NotYetExpired));
    assert_eq!(engine.redeem(&market, &id(BOB), EXPIRY - 1), Err(MarketError::NotYetExpired));
    assert_eq!(engine.balance_of(&underlying(), &id(ALICE)), 0);
    assert_eq!(writers(&engine, &market), vec![(id(ALICE), 2)]);
    assert_eq!(pool(&engine, &market), 200);
}

#[test]
fn redeem_gives_back_what_nobody_exercised() {
    let (mut engine, market) = market_with(100, 500);
    fund(&mut engine, &underlying(), ALICE, 300);
    fund(&mut engine, &underlying(), BOB, 200);
    engine.write(&market, &id(ALICE), 300, NOW).unwrap();
    engine.write(&market, &id(BOB), 200, NOW).unwrap();
    assert_eq!(
        engine.redeem(&market, &id(ALICE), EXPIRY),
        Ok(Redemption {
            contracts: 3,
            underlying: 300,
            exercised: 0,
            quote: 0,
            writer_tokens_burned: 3,
        })
    );
    assert_eq!(engine.balance_of(&underlying(), &id(ALICE)), 300);
    assert_eq!(engine.balance_of(&Asset::WriterToken(market), &id(ALICE)), 0);
    assert_eq!(engine.supply_of(&Asset::WriterToken(market)), 2);
    assert_eq!(engine.supply_of(&Asset::OptionToken(market)), 5);
    assert_eq!(writers(&engine, &market), vec![(id(BOB), 2)]);
    assert_eq!(
        engine.vault_of(&market),
        Ok(CollateralVault { underlying_balance: 200, quote_balance: 0 })
    );
    check_books(&engine, &market);
}

#[test]
fn redeem_pays_the_strike_of_what_was_exercised() {
    let (mut engine, market) = market_with(100, 500);
    fund(&mut engine, &underlying(), ALICE, 300);
    fund(&mut engine, &underlying(), BOB, 200);
    engine.write(&market, &id(ALICE), 300, NOW).unwrap();
    engine.write(&market, &id(BOB), 200, NOW).unwrap();
    fund(&mut engine, &quote(), BOB, 1_000);
    engine
        .transfer(&Asset::OptionToken(market), &id(ALICE), &id(BOB), 2, &id(ALICE))
        .unwrap();
    assert_eq!(
        engine.exercise(&market, &id(BOB), 2, NOW + 1),
        Ok(vec![Taken { writer: id(ALICE), contracts: 2 }])
    );
    assert_eq!(
        engine.redeem(&market, &id(ALICE), EXPIRY + 5),
        Ok(Redemption {
            contracts: 1,
            underlying: 100,
            exercised: 2,
            quote: 1_000,
            writer_tokens_burned: 1,
        })
    );
    assert_eq!(engine.balance_of(&underlying(), &id(ALICE)), 100);
    assert_eq!(engine.balance_of(&quote(), &id(ALICE)), 1_000);
    assert_eq!(engine.balance_of(&Asset::WriterToken(market), &id(ALICE)), 2);
    assert_eq!(
        engine.vault_of(&market),
        Ok(CollateralVault { underlying_balance: 200, quote_balance: 0 })
    );
    assert_eq!(writers(&engine, &market), vec![(id(BOB), 2)]);
    check_books(&engine, &market);
    assert_eq!(
        engine.redeem(&market, &id(ALICE), EXPIRY + 6),
        Err(MarketError::NoRedeemableBalance)
    );
}

#[test]
fn redeem_burns_no_more_writer_tokens_than_the_wallet_holds() {
    let (mut engine, market) = market_with(100, 500);
    fund(&mut engine, &underlying(), ALICE, 300);
    engine.write(&market, &id(ALICE), 300, NOW).unwrap();
    engine
        .transfer(&Asset::WriterToken(market), &id(ALICE), &id(BOB), 2, &id(ALICE))
        .unwrap();
    assert_eq!(
        engine.redeem(&market, &id(ALICE), EXPIRY),
        Ok(Redemption {
            contracts: 3,
            underlying: 300,
            exercised: 0,
            quote: 0,
            writer_tokens_burned: 1,
        })
    );
    assert_eq!(engine.supply_of(&Asset::WriterToken(market)), 2);
    assert_eq!(engine.balance_of(&Asset::WriterToken(market), &id(BOB)), 2);
    assert_eq!(engine.redeem(&market, &id(BOB), EXPIRY), Err(MarketError::NoRedeemableBalance));
}

#[test]
fn redeem_without_anything_outstanding_fails() {
    let (mut engine, market) = market_with(100, 500);
    fund(&mut engine, &underlying(), ALICE, 300);
    engine.write(&market, &id(ALICE), 300, NOW).unwrap();
    assert_eq!(engine.redeem(&market, &id(BOB), EXPIRY), Err(MarketError::NoRedeemableBalance));
    assert_eq!(pool(&engine, &market), 300);
    assert_eq!(writers(&engine, &market), vec![(id(ALICE), 3)]);
}

#[test]
fn write_then_exercise_all_brings_the_vault_back() {
    let n = 4;
    let (mut engine, market) = market_with(100, 500);
    fund(&mut engine, &underlying(), BOB, 200);
    engine.write(&market, &id(BOB), 200, NOW).unwrap();
    fund(&mut engine, &underlying(), ALICE, 100 * n);
    fund(&mut engine, &quote(), ALICE, 500 * n);
    let vault_before = engine.vault_of(&market).unwrap().underlying_balance;
    let options_before = engine.balance_of(&Asset::OptionToken(market), &id(ALICE));
    let writer_tokens_before = engine.balance_of(&Asset::WriterToken(market), &id(ALICE));
    let supply_before = engine.supply_of(&Asset::OptionToken(market));

    assert_eq!(engine.write(&market, &id(ALICE), 100 * n, NOW), Ok(n));
    assert_eq!(engine.balance_of(&Asset::OptionToken(market), &id(ALICE)), options_before + n);
    let taken = engine.exercise(&market, &id(ALICE), n, NOW + 1).unwrap();
    assert_eq!(
        taken,
        vec![Taken { writer: id(BOB), contracts: 2 }, Taken { writer: id(ALICE), contracts: 2 }]
    );

    assert_eq!(engine.vault_of(&market).unwrap().underlying_balance, vault_before);
    assert_eq!(pool(&engine, &market), vault_before);
    assert_eq!(engine.balance_of(&Asset::OptionToken(market), &id(ALICE)), options_before);
    assert_eq!(engine.supply_of(&Asset::OptionToken(market)), supply_before);
    assert_eq!(
        engine.balance_of(&Asset::WriterToken(market), &id(ALICE)),
        writer_tokens_before + n
    );
    assert_eq!(engine.balance_of(&underlying(), &id(ALICE)), 100 * n);
    check_books(&engine, &market);
}

#[test]
fn write_then_exercise_all_empties_an_empty_vault() {
    let n = 3;
    let (mut engine, market) = market_with(100, 500);
    fund(&mut engine, &underlying(), ALICE, 100 * n);
    fund(&mut engine, &quote(), ALICE, 500 * n);
    assert_eq!(engine.write(&market, &id(ALICE), 100 * n, NOW), Ok(n));
    assert_eq!(
        engine.exercise(&market, &id(ALICE), n, NOW),
        Ok(vec![Taken { writer: id(ALICE), contracts: n }])
    );
    assert_eq!(engine.vault_of(&market).unwrap().underlying_balance, 0);
    assert_eq!(pool(&engine, &market), 0);
    assert_eq!(engine.registry_length(&market), Ok(0));
    assert_eq!(engine.balance_of(&Asset::OptionToken(market), &id(ALICE)), 0);
    assert_eq!(engine.supply_of(&Asset::OptionToken(market)), 0);
}

#[test]
fn option_supply_is_what_is_written_and_not_exercised() {
    let (mut engine, market) = market_with(10, 7);
    fund(&mut engine, &underlying(), ALICE, 1_000);
    fund(&mut engine, &quote(), ALICE, 1_000);
    let option = Asset::OptionToken(market);
    let mut written = 0;
    let mut exercised = 0;
    for (write, exercise) in [(50, 2), (30, 3), (20, 0), (10, 6)] {
        written += engine.write(&market, &id(ALICE), write, NOW).unwrap();
        assert_eq!(engine.supply_of(&option), written - exercised);
        engine.exercise(&market, &id(ALICE), exercise, NOW).unwrap();
        exercised += exercise;
        assert_eq!(engine.supply_of(&option), written - exercised);
        check_books(&engine, &market);
    }
    engine.redeem(&market, &id(ALICE), EXPIRY).unwrap();
    assert_eq!(engine.supply_of(&option), written - exercised);
    check_books(&engine, &market);
}

#[test]
fn markets_do_not_touch_each_other() {
    let mut engine = Engine::new();
    engine.create_mint(id(1), id(AUTHORITY));
    engine.create_mint(id(2), id(AUTHORITY));
    let first = engine.create_market(id(1), id(2), 100, 500, EXPIRY, NOW).unwrap();
    let second = engine.create_market(id(1), id(2), 10, 50, EXPIRY, NOW).unwrap();
    fund(&mut engine, &underlying(), ALICE, 1_000);
    fund(&mut engine, &quote(), ALICE, 1_000);
    assert_eq!(engine.write(&first, &id(ALICE), 200, NOW), Ok(2));
    assert_eq!(engine.write(&second, &id(ALICE), 200, NOW), Ok(20));
    engine.exercise(&second, &id(ALICE), 5, NOW).unwrap();
    assert_eq!(
        engine.vault_of(&first),
        Ok(CollateralVault { underlying_balance: 200, quote_balance: 0 })
    );
    assert_eq!(
        engine.vault_of(&second),
        Ok(CollateralVault { underlying_balance: 150, quote_balance: 250 })
    );
    assert_eq!(engine.supply_of(&Asset::OptionToken(first)), 2);
    assert_eq!(engine.supply_of(&Asset::OptionToken(second)), 15);
    assert_eq!(
        engine.exercise(&first, &id(ALICE), 3, NOW),
        Err(MarketError::InsufficientOptionTokens)
    );
    check_books(&engine, &first);
    check_books(&engine, &second);
}

#[test]
fn a_market_on_one_asset_for_both_sides_keeps_its_pools_apart() {
    let mut engine = Engine::new();
    engine.create_mint(id(1), id(AUTHORITY));
    let market = engine.create_market(id(1), id(1), 10, 3, EXPIRY, NOW).unwrap();
    fund(&mut engine, &underlying(), ALICE, 100);
    assert_eq!(engine.write(&market, &id(ALICE), 50, NOW), Ok(5));
    engine.exercise(&market, &id(ALICE), 2, NOW).unwrap();
    assert_eq!(engine.balance_of(&underlying(), &id(ALICE)), 100 - 50 - 6 + 20);
    assert_eq!(
        engine.balance_of_holder(&underlying(), &Holder::UnderlyingPool(market)),
        30
    );
    assert_eq!(engine.balance_of_holder(&underlying(), &Holder::QuotePool(market)), 6);
    assert_eq!(engine.supply_of(&underlying()), 100);
}
