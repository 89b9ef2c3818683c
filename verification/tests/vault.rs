use psy_american::error::MarketError;
use psy_american::vault::CollateralVault;

#[test]
fn new_vault_holds_nothing() {
    let vault = CollateralVault::new();
    assert_eq!(vault, CollateralVault { underlying_balance: 0, quote_balance: 0 });
}

#[test]
fn deposits_and_withdrawals_add_up() {
    let mut vault = CollateralVault::new();
    assert_eq!(vault.deposit_underlying(300), Ok(()));
    assert_eq!(vault.deposit_quote(50), Ok(()));
    assert_eq!(vault, CollateralVault { underlying_balance: 300, quote_balance: 50 });
    assert_eq!(vault.withdraw_underlying(100), Ok(()));
    assert_eq!(vault.withdraw_quote(50), Ok(()));
    assert_eq!(vault, CollateralVault { underlying_balance: 200, quote_balance: 0 });
}

#[test]
fn withdrawing_more_than_is_held_fails() {
    let mut vault = CollateralVault { underlying_balance: 10, quote_balance: 20 };
    assert_eq!(vault.withdraw_underlying(11), Err(MarketError::InsufficientFunds));
    assert_eq!(vault.withdraw_quote(21), Err(MarketError::InsufficientFunds));
    assert_eq!(vault, CollateralVault { underlying_balance: 10, quote_balance: 20 });
    assert_eq!(vault.withdraw_underlying(10), Ok(()));
    assert_eq!(vault.withdraw_quote(20), Ok(()));
    assert_eq!(vault, CollateralVault { underlying_balance: 0, quote_balance: 0 });
}

#[test]
fn depositing_beyond_u64_fails() {
    let mut vault = CollateralVault { underlying_balance: u64::MAX - 1, quote_balance: u64::MAX };
    assert_eq!(vault.deposit_underlying(2), Err(MarketError::InvalidParameters));
    assert_eq!(vault.deposit_quote(1), Err(MarketError::InvalidParameters));
    assert_eq!(
        vault,
        CollateralVault { underlying_balance: u64::MAX - 1, quote_balance: u64::MAX }
    );
    assert_eq!(vault.deposit_underlying(1), Ok(()));
    assert_eq!(vault.underlying_balance, u64::MAX);
}
