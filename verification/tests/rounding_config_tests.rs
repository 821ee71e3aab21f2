use rgl_ledger::config::{ConfigError, LotConfig};
use rgl_ledger::model::Scope;
use rgl_ledger::rounding::rounding_div;

#[test]
fn test_rounding_div_ties_away_from_zero() {
    assert_eq!(rounding_div(5, 10), 1);
    assert_eq!(rounding_div(-5, 10), -1);
    assert_eq!(rounding_div(5, -10), -1);
    assert_eq!(rounding_div(-5, -10), 1);
}

#[test]
fn test_rounding_div_no_truncation_bias() {
    assert_eq!(rounding_div(133_333_365_333_333, 100_000_000), 1_333_334);
}

#[test]
fn test_rounding_div_plain_cases() {
    assert_eq!(rounding_div(0, 7), 0);
    assert_eq!(rounding_div(14, 7), 2);
    assert_eq!(rounding_div(13, 7), 2);
    assert_eq!(rounding_div(10, 7), 1);
    assert_eq!(rounding_div(-13, 7), -2);
    assert_eq!(rounding_div(-10, 7), -1);
}

#[test]
fn test_lot_config_accepts_fifo_only() {
    let fifo = "fifo".to_string();
    let lifo = "lifo".to_string();
    let wallet = "wallet".to_string();
    let universal = "universal".to_string();

    let ok = LotConfig::new(&fifo, &wallet, &fifo, &universal).unwrap();
    assert_eq!(ok.tax_lot_scope, Scope::Wallet);
    assert_eq!(ok.gaap_lot_scope, Scope::Universal);

    assert_eq!(
        LotConfig::new(&lifo, &wallet, &fifo, &universal).unwrap_err(),
        ConfigError::UnsupportedTaxLotMethod
    );
    assert_eq!(
        LotConfig::new(&fifo, &wallet, &lifo, &universal).unwrap_err(),
        ConfigError::UnsupportedGaapLotMethod
    );
    assert_eq!(
        LotConfig::new(&fifo, &lifo, &fifo, &universal).unwrap_err(),
        ConfigError::UnsupportedTaxLotScope
    );
    assert_eq!(
        LotConfig::new(&fifo, &wallet, &fifo, &lifo).unwrap_err(),
        ConfigError::UnsupportedGaapLotScope
    );
}

#[test]
fn test_lot_config_default() {
    let c = LotConfig::default();
    assert_eq!(c.tax_lot_scope, Scope::Wallet);
    assert_eq!(c.gaap_lot_scope, Scope::Universal);
}
