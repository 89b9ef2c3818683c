use psy_american::address::{market_address, seeds_for};
use psy_american::engine::Engine;
use psy_american::error::MarketError;
use psy_american::identity::Identity;
use psy_american::initialize::{initialize_market, initialize_market_at, InitializeMarket};
use psy_american::ledger::Asset;
use psy_american::lifecycle::Redemption;
use psy_american::market::{MarketId, OptionMarket};
use psy_american::writers::Taken;

const EXPIRY: i64 = 999_999_999_999_999_999;
const NOW: i64 = 1_700_000_000;
const BUMP: u8 = 254;
const ADDRESS: [u8; 32] = [
    172, 34, 126, 188, 88, 28, 244, 134, 146, 206, 88, 124, 165, 140, 20, 153, 169, 83, 123, 223,
    192, 183, 164, 178, 54, 167, 62, 37, 98, 108, 251, 151,
];

fn id(byte: u8) -> Identity {
    Identity::new([byte; 32])
}

fn market_id() -> MarketId {
    MarketId::derive(id(1), id(2), 100, 500, EXPIRY)
}

fn accounts() -> InitializeMarket {
    InitializeMarket {
        program_id: id(7),
        authority: id(20),
        authority_is_signer: true,
        underlying_asset_mint: id(1),
        quote_asset_mint: id(2),
        option_mint: id(3),
        writer_token_mint: id(4),
        quote_asset_pool: id(5),
        underlying_asset_pool: id(6),
        option_market_key: Identity::new(ADDRESS),
        option_market: OptionMarket::default(),
        market_authority: id(8),
    }
}

fn initialized(bump_seed: u8) -> OptionMarket {
    OptionMarket {
        option_mint: id(3),
        writer_token_mint: id(4),
        underlying_asset_mint: id(1),
        quote_asset_mint: id(2),
        underlying_amount_per_contract: 100,
        quote_amount_per_contract: 500,
        expiration_unix_timestamp: EXPIRY,
        underlying_asset_pool: id(6),
        quote_asset_pool: id(5),
        mint_fee_account: Identity::default(),
        exercise_fee_account: Identity::default(),
        bump_seed,
        initialized: true,
    }
}

#[test]
fn seeds_are_the_mints_the_terms_and_the_bump() {
    let seeds = seeds_for(&MarketId::derive(id(1), id(2), 100, 0x0102030405060708, -2), 9);
    assert_eq!(
        seeds,
        vec![
            vec![1u8; 32],
            vec![2u8; 32],
            vec![100, 0, 0, 0, 0, 0, 0, 0],
            vec![8, 7, 6, 5, 4, 3, 2, 1],
            vec![0xfe, 0xff, 0xff, 0xff, 0xff, 0xff, 0xff, 0xff],
            vec![9],
        ]
    );
}

#[test]
fn market_address_is_derived_from_the_seeds_and_the_program() {
    assert_eq!(market_address(&id(7), &market_id(), BUMP), Some(Identity::new(ADDRESS)));
}

#[test]
fn market_address_depends_on_every_input() {
    let address = market_address(&id(7), &market_id(), BUMP);
    assert_ne!(address, Some(id(7)));
    assert_ne!(market_address(&id(8), &market_id(), BUMP), address);
    assert_ne!(market_address(&id(7), &market_id(), BUMP - 1), address);
    let other = MarketId { quote_amount_per_contract: 501, ..market_id() };
    assert_ne!(market_address(&id(7), &other, BUMP), address);
    assert_eq!(market_address(&id(7), &market_id(), BUMP), address);
}

#[test]
fn a_bump_seed_that_lands_on_the_curve_derives_nothing() {
    assert_eq!(market_address(&id(7), &market_id(), 255), None);
}

#[test]
fn initialize_market_fills_the_record() {
    let mut ctx = accounts();
    assert_eq!(initialize_market(&mut ctx, 100, 500, EXPIRY, BUMP, NOW), Ok(()));
    assert_eq!(ctx.option_market, initialized(BUMP));
    assert_eq!(ctx, InitializeMarket { option_market: initialized(BUMP), ..accounts() });
    assert_eq!(ctx.option_market.market_id(), market_id());
}

#[test]
fn initialize_market_rejects_an_account_at_another_address() {
    let mut ctx = InitializeMarket { option_market_key: id(7), ..accounts() };
    assert_eq!(
        initialize_market(&mut ctx, 100, 500, EXPIRY, BUMP, NOW),
        Err(MarketError::InvalidParameters)
    );
    assert_eq!(ctx, InitializeMarket { option_market_key: id(7), ..accounts() });
}

#[test]
fn initialize_market_rejects_another_bump_seed() {
    let mut ctx = accounts();
    assert_eq!(
        initialize_market(&mut ctx, 100, 500, EXPIRY, BUMP - 1, NOW),
        Err(MarketError::InvalidParameters)
    );
    assert_eq!(
        initialize_market(&mut ctx, 100, 500, EXPIRY, 255, NOW),
        Err(MarketError::InvalidParameters)
    );
    assert_eq!(ctx, accounts());
}

#[test]
fn initialize_market_rejects_other_terms_at_the_same_address() {
    let mut ctx = accounts();
    assert_eq!(
        initialize_market(&mut ctx, 100, 501, EXPIRY, BUMP, NOW),
        Err(MarketError::InvalidParameters)
    );
    assert_eq!(ctx, accounts());
}

#[test]
fn initialize_market_needs_the_signature_of_the_authority() {
    let mut ctx = InitializeMarket { authority_is_signer: false, ..accounts() };
    assert_eq!(
        initialize_market(&mut ctx, 100, 500, EXPIRY, BUMP, NOW),
        Err(MarketError::Unauthorized)
    );
    assert!(!ctx.option_market.initialized);
}

#[test]
fn initialize_market_twice_is_a_duplicate() {
    let mut ctx = accounts();
    assert_eq!(initialize_market(&mut ctx, 100, 500, EXPIRY, BUMP, NOW), Ok(()));
    assert_eq!(
        initialize_market(&mut ctx, 100, 500, EXPIRY, BUMP, NOW + 1),
        Err(MarketError::DuplicateMarket)
    );
    assert_eq!(ctx.option_market, initialized(BUMP));
}

#[test]
fn a_second_initialization_is_a_duplicate_whoever_asks_and_whenever() {
    let mut ctx = accounts();
    assert_eq!(initialize_market(&mut ctx, 100, 500, EXPIRY, BUMP, NOW), Ok(()));
    let first = ctx;
    for now in [NOW, EXPIRY - 1, EXPIRY, EXPIRY + 1, i64::MAX] {
        for (payer, signed) in [(id(20), true), (id(21), true), (id(22), false)] {
            for bump in [BUMP, BUMP - 1, 255] {
                ctx.authority = payer;
                ctx.authority_is_signer = signed;
                let asked = ctx;
                assert_eq!(
                    initialize_market(&mut ctx, 100, 500, EXPIRY, bump, now),
                    Err(MarketError::DuplicateMarket)
                );
                assert_eq!(ctx, asked);
                assert_eq!(ctx.option_market, first.option_market);
            }
        }
    }
    assert_eq!(
        initialize_market_at(&mut ctx, 100, 500, EXPIRY, BUMP, EXPIRY + 1, None),
        Err(MarketError::DuplicateMarket)
    );
}

#[test]
fn other_terms_on_an_initialized_account_are_not_that_market() {
    let mut ctx = accounts();
    assert_eq!(initialize_market(&mut ctx, 100, 500, EXPIRY, BUMP, NOW), Ok(()));
    assert_eq!(
        initialize_market(&mut ctx, 100, 501, EXPIRY, BUMP, NOW),
        Err(MarketError::InvalidParameters)
    );
    ctx.authority_is_signer = false;
    assert_eq!(
        initialize_market(&mut ctx, 100, 501, EXPIRY, BUMP, NOW),
        Err(MarketError::Unauthorized)
    );
    assert_eq!(ctx.option_market, initialized(BUMP));
}

#[test]
fn an_initialized_market_is_written_exercised_and_redeemed() {
    let expiry = NOW + 30;
    let terms = MarketId::derive(id(1), id(2), 100, 500, expiry);
    let (bump, address) = (0..=255u8)
        .rev()
        .find_map(|bump| market_address(&id(7), &terms, bump).map(|address| (bump, address)))
        .unwrap();
    let mut ctx = InitializeMarket { option_market_key: address, ..accounts() };
    assert_eq!(initialize_market(&mut ctx, 100, 500, expiry, bump, NOW), Ok(()));
    let record = ctx.option_market;
    assert!(record.initialized);
    assert_eq!(record.option_mint, id(3));
    assert_eq!(record.underlying_asset_pool, id(6));

    let mut engine = Engine::new();
    let underlying = Asset::Mint(id(1));
    let quote = Asset::Mint(id(2));
    engine.create_mint(id(1), id(9));
    engine.create_mint(id(2), id(9));
    let market = engine.open_market(record, NOW).unwrap();
    assert_eq!(market, record.market_id());
    assert_eq!(engine.get_market(&market), Ok(record));
    engine.mint(&underlying, &id(11), 300, &id(9)).unwrap();
    engine.mint(&quote, &id(11), 500, &id(9)).unwrap();
    assert_eq!(engine.write(&market, &id(11), 300, NOW), Ok(3));
    assert_eq!(
        engine.exercise(&market, &id(11), 1, NOW + 1),
        Ok(vec![Taken { writer: id(11), contracts: 1 }])
    );
    assert_eq!(
        engine.redeem(&market, &id(11), expiry),
        Ok(Redemption {
            contracts: 2,
            underlying: 200,
            exercised: 1,
            quote: 500,
            writer_tokens_burned: 2,
        })
    );
    assert_eq!(engine.balance_of(&underlying, &id(11)), 300);
    assert_eq!(engine.balance_of(&quote, &id(11)), 500);
    assert_eq!(engine.get_market(&market), Ok(record));
    assert_eq!(engine.open_market(record, expiry + 1), Err(MarketError::DuplicateMarket));
}

#[test]
fn initialize_market_at_accepts_the_derived_address_only() {
    let derived = Some(id(42));
    let mut ctx = InitializeMarket { option_market_key: id(42), ..accounts() };
    assert_eq!(initialize_market_at(&mut ctx, 100, 500, EXPIRY, 3, NOW, derived), Ok(()));
    assert_eq!(ctx.option_market, initialized(3));

    let mut ctx = InitializeMarket { option_market_key: id(43), ..accounts() };
    assert_eq!(
        initialize_market_at(&mut ctx, 100, 500, EXPIRY, 3, NOW, derived),
        Err(MarketError::InvalidParameters)
    );
    assert_eq!(
        initialize_market_at(&mut ctx, 100, 500, EXPIRY, 3, NOW, None),
        Err(MarketError::InvalidParameters)
    );
    assert_eq!(ctx, InitializeMarket { option_market_key: id(43), ..accounts() });
}

#[test]
fn initialize_market_at_checks_the_terms() {
    let derived = Some(id(42));
    let mut ctx = InitializeMarket { option_market_key: id(42), ..accounts() };
    for (per_contract, per_strike, expiry) in [(0, 500, EXPIRY), (100, 0, EXPIRY), (100, 500, NOW)]
    {
        assert_eq!(
            initialize_market_at(&mut ctx, per_contract, per_strike, expiry, 3, NOW, derived),
            Err(MarketError::InvalidParameters)
        );
    }
    assert!(!ctx.option_market.initialized);
}

#[test]
fn initialize_market_at_reports_in_order() {
    let derived = Some(id(42));
    let taken = OptionMarket { initialized: true, ..OptionMarket::default() };
    let mut ctx = InitializeMarket {
        option_market_key: id(42),
        option_market: taken,
        authority_is_signer: false,
        ..accounts()
    };
    assert_eq!(
        initialize_market_at(&mut ctx, 0, 500, EXPIRY, 3, NOW, derived),
        Err(MarketError::Unauthorized)
    );
    ctx.authority_is_signer = true;
    assert_eq!(
        initialize_market_at(&mut ctx, 0, 500, EXPIRY, 3, NOW, derived),
        Err(MarketError::InvalidParameters)
    );
    assert_eq!(
        initialize_market_at(&mut ctx, 100, 500, EXPIRY, 3, NOW, derived),
        Err(MarketError::DuplicateMarket)
    );
    assert_eq!(ctx.option_market, taken);
}

#[test]
fn initialize_market_keeps_the_fee_accounts() {
    let derived = Some(id(42));
    let blank = OptionMarket {
        mint_fee_account: id(30),
        exercise_fee_account: id(31),
        ..OptionMarket::default()
    };
    let mut ctx = InitializeMarket { option_market_key: id(42), option_market: blank, ..accounts() };
    assert_eq!(initialize_market_at(&mut ctx, 100, 500, EXPIRY, 3, NOW, derived), Ok(()));
    assert_eq!(ctx.option_market.mint_fee_account, id(30));
    assert_eq!(ctx.option_market.exercise_fee_account, id(31));
}
