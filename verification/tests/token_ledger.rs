use psy_american::error::MarketError;
use psy_american::identity::Identity;
use psy_american::ledger::{Asset, Holder, TokenLedger};
use psy_american::market::MarketId;

fn id(byte: u8) -> Identity {
    Identity::new([byte; 32])
}

fn market_id() -> MarketId {
    MarketId::derive(id(1), id(2), 100, 500, 1_000)
}

#[test]
fn new_ledger_knows_nothing() {
    let ledger = TokenLedger::new();
    let asset = Asset::Mint(id(1));
    assert_eq!(ledger.balance_of(&asset, &id(5)), 0);
    assert_eq!(ledger.supply_of(&asset), 0);
    assert_eq!(ledger.authority_of(&asset), None);
}

#[test]
fn create_mint_registers_once() {
    let mut ledger = TokenLedger::new();
    assert!(ledger.create_mint(id(1), id(9)));
    assert_eq!(ledger.authority_of(&Asset::Mint(id(1))), Some(Some(id(9))));
    assert!(!ledger.create_mint(id(1), id(8)));
    assert_eq!(ledger.authority_of(&Asset::Mint(id(1))), Some(Some(id(9))));
    assert_eq!(ledger.supply_of(&Asset::Mint(id(1))), 0);
}

#[test]
fn mint_credits_the_wallet_and_the_supply() {
    let mut ledger = TokenLedger::new();
    let asset = Asset::Mint(id(1));
    ledger.create_mint(id(1), id(9));
    assert_eq!(ledger.mint(&asset, &id(5), 70, &id(9)), Ok(()));
    assert_eq!(ledger.mint(&asset, &id(6), 30, &id(9)), Ok(()));
    assert_eq!(ledger.mint(&asset, &id(5), 1, &id(9)), Ok(()));
    assert_eq!(ledger.balance_of(&asset, &id(5)), 71);
    assert_eq!(ledger.balance_of(&asset, &id(6)), 30);
    assert_eq!(ledger.supply_of(&asset), 101);
    assert_eq!(ledger.balance_of_holder(&asset, &Holder::Wallet(id(5))), 71);
    assert_eq!(ledger.balance_of_holder(&asset, &Holder::UnderlyingPool(market_id())), 0);
}

#[test]
fn mint_needs_the_authority_of_the_mint() {
    let mut ledger = TokenLedger::new();
    let asset = Asset::Mint(id(1));
    ledger.create_mint(id(1), id(9));
    assert_eq!(ledger.mint(&asset, &id(5), 70, &id(5)), Err(MarketError::Unauthorized));
    assert_eq!(
        ledger.mint(&Asset::Mint(id(2)), &id(5), 70, &id(9)),
        Err(MarketError::Unauthorized)
    );
    assert_eq!(
        ledger.mint(&Asset::OptionToken(market_id()), &id(5), 1, &id(9)),
        Err(MarketError::Unauthorized)
    );
    assert_eq!(ledger.balance_of(&asset, &id(5)), 0);
    assert_eq!(ledger.supply_of(&asset), 0);
}

#[test]
fn mint_rejects_a_supply_beyond_u64() {
    let mut ledger = TokenLedger::new();
    let asset = Asset::Mint(id(1));
    ledger.create_mint(id(1), id(9));
    assert_eq!(ledger.mint(&asset, &id(5), u64::MAX - 1, &id(9)), Ok(()));
    assert_eq!(ledger.mint(&asset, &id(6), 2, &id(9)), Err(MarketError::InvalidParameters));
    assert_eq!(ledger.supply_of(&asset), u64::MAX - 1);
    assert_eq!(ledger.balance_of(&asset, &id(6)), 0);
    assert_eq!(ledger.mint(&asset, &id(6), 1, &id(9)), Ok(()));
    assert_eq!(ledger.supply_of(&asset), u64::MAX);
}

#[test]
fn transfer_moves_between_wallets() {
    let mut ledger = TokenLedger::new();
    let asset = Asset::Mint(id(1));
    ledger.create_mint(id(1), id(9));
    ledger.mint(&asset, &id(5), 100, &id(9)).unwrap();
    assert_eq!(ledger.transfer(&asset, &id(5), &id(6), 40, &id(5)), Ok(()));
    assert_eq!(ledger.balance_of(&asset, &id(5)), 60);
    assert_eq!(ledger.balance_of(&asset, &id(6)), 40);
    assert_eq!(ledger.supply_of(&asset), 100);
    assert_eq!(ledger.transfer(&asset, &id(6), &id(6), 40, &id(6)), Ok(()));
    assert_eq!(ledger.balance_of(&asset, &id(6)), 40);
}

#[test]
fn transfer_needs_the_owner_and_the_funds() {
    let mut ledger = TokenLedger::new();
    let asset = Asset::Mint(id(1));
    ledger.create_mint(id(1), id(9));
    ledger.mint(&asset, &id(5), 100, &id(9)).unwrap();
    assert_eq!(
        ledger.transfer(&asset, &id(5), &id(6), 40, &id(6)),
        Err(MarketError::Unauthorized)
    );
    assert_eq!(
        ledger.transfer(&asset, &id(5), &id(6), 101, &id(5)),
        Err(MarketError::InsufficientFunds)
    );
    assert_eq!(ledger.balance_of(&asset, &id(5)), 100);
    assert_eq!(ledger.balance_of(&asset, &id(6)), 0);
}

#[test]
fn burn_takes_from_the_wallet_and_the_supply() {
    let mut ledger = TokenLedger::new();
    let asset = Asset::Mint(id(1));
    ledger.create_mint(id(1), id(9));
    ledger.mint(&asset, &id(5), 100, &id(9)).unwrap();
    assert_eq!(ledger.burn(&asset, &id(5), 30, &id(5)), Ok(()));
    assert_eq!(ledger.balance_of(&asset, &id(5)), 70);
    assert_eq!(ledger.supply_of(&asset), 70);
}

#[test]
fn burn_needs_the_owner_and_the_funds() {
    let mut ledger = TokenLedger::new();
    let asset = Asset::Mint(id(1));
    ledger.create_mint(id(1), id(9));
    ledger.mint(&asset, &id(5), 100, &id(9)).unwrap();
    assert_eq!(ledger.burn(&asset, &id(5), 30, &id(9)), Err(MarketError::Unauthorized));
    assert_eq!(ledger.burn(&asset, &id(5), 101, &id(5)), Err(MarketError::InsufficientFunds));
    assert_eq!(
        ledger.burn(&Asset::WriterToken(market_id()), &id(5), 0, &id(5)),
        Err(MarketError::Unauthorized)
    );
    assert_eq!(ledger.balance_of(&asset, &id(5)), 100);
    assert_eq!(ledger.supply_of(&asset), 100);
}

#[test]
fn balances_add_up_to_the_supply() {
    let mut ledger = TokenLedger::new();
    let asset = Asset::Mint(id(1));
    ledger.create_mint(id(1), id(9));
    ledger.mint(&asset, &id(5), 100, &id(9)).unwrap();
    ledger.mint(&asset, &id(6), 50, &id(9)).unwrap();
    ledger.transfer(&asset, &id(5), &id(7), 25, &id(5)).unwrap();
    ledger.burn(&asset, &id(6), 10, &id(6)).unwrap();
    let held: u64 = [5u8, 6, 7].iter().map(|b| ledger.balance_of(&asset, &id(*b))).sum();
    assert_eq!(held, 140);
    assert_eq!(ledger.supply_of(&asset), 140);
}
