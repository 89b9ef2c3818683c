use psy_american::identity::Identity;
use psy_american::ledger::{Asset, Holder};
use psy_american::market::{MarketId, OptionMarket};

#[test]
fn identities_compare_by_their_bytes() {
    let mut bytes = [3u8; 32];
    let a = Identity::new(bytes);
    assert!(a.same(&Identity::new([3u8; 32])));
    bytes[31] = 4;
    let b = Identity::new(bytes);
    assert!(!a.same(&b));
    assert!(!b.same(&a));
    assert_eq!(b.to_bytes(), bytes);
    assert_eq!(b.to_vec(), bytes.to_vec());
}

#[test]
fn default_identity_is_zero() {
    assert_eq!(Identity::default().to_bytes(), [0u8; 32]);
}

#[test]
fn market_ids_compare_by_their_terms() {
    let a = MarketId::derive(Identity::new([1; 32]), Identity::new([2; 32]), 100, 500, 1_000);
    assert!(a.same(&a));
    assert!(!a.same(&MarketId { underlying_asset_mint: Identity::new([3; 32]), ..a }));
    assert!(!a.same(&MarketId { quote_asset_mint: Identity::new([3; 32]), ..a }));
    assert!(!a.same(&MarketId { underlying_amount_per_contract: 101, ..a }));
    assert!(!a.same(&MarketId { quote_amount_per_contract: 501, ..a }));
    assert!(!a.same(&MarketId { expiration_unix_timestamp: 1_001, ..a }));
}

#[test]
fn assets_and_holders_compare_by_kind_and_name() {
    let m = MarketId::derive(Identity::new([1; 32]), Identity::new([2; 32]), 100, 500, 1_000);
    let other = MarketId { expiration_unix_timestamp: 2_000, ..m };
    assert!(Asset::OptionToken(m).same(&Asset::OptionToken(m)));
    assert!(!Asset::OptionToken(m).same(&Asset::WriterToken(m)));
    assert!(!Asset::OptionToken(m).same(&Asset::OptionToken(other)));
    assert!(!Asset::Mint(Identity::new([1; 32])).same(&Asset::Mint(Identity::new([2; 32]))));
    assert!(Holder::UnderlyingPool(m).same(&Holder::UnderlyingPool(m)));
    assert!(!Holder::UnderlyingPool(m).same(&Holder::QuotePool(m)));
    assert!(!Holder::QuotePool(m).same(&Holder::QuotePool(other)));
    assert!(!Holder::Wallet(Identity::new([1; 32])).same(&Holder::UnderlyingPool(m)));
}

#[test]
fn default_record_holds_no_market() {
    let record = OptionMarket::default();
    assert!(!record.initialized);
    assert_eq!(record.underlying_amount_per_contract, 0);
    assert_eq!(record.quote_amount_per_contract, 0);
    assert_eq!(record.expiration_unix_timestamp, 0);
    assert_eq!(record.bump_seed, 0);
    assert_eq!(record.option_mint, Identity::default());
    assert_eq!(record.exercise_fee_account, Identity::default());
}

#[test]
fn a_record_names_its_market_and_knows_when_it_expires() {
    let record = OptionMarket {
        underlying_asset_mint: Identity::new([1; 32]),
        quote_asset_mint: Identity::new([2; 32]),
        underlying_amount_per_contract: 100,
        quote_amount_per_contract: 500,
        expiration_unix_timestamp: 1_000,
        initialized: true,
        ..OptionMarket::default()
    };
    assert_eq!(
        record.market_id(),
        MarketId::derive(Identity::new([1; 32]), Identity::new([2; 32]), 100, 500, 1_000)
    );
    assert!(!record.is_expired(999));
    assert!(record.is_expired(1_000));
    assert!(record.is_expired(1_001));
}
