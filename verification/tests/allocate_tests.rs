use rgl_ledger::allocate::BucketRecord;
use rgl_ledger::config::LotConfig;
use rgl_ledger::errors::LedgerError;
use rgl_ledger::matching::NewRecord;
use rgl_ledger::model::{Acquisition, Scope};
use rgl_ledger::store::Ledger;

const DAY: i64 = 86_400;

fn day(n: i64) -> i64 {
    n * DAY
}

fn rec(date: i64, sats: i64, price_cents: i64, wallet: &str) -> NewRecord {
    NewRecord { date, bitcoin: sats, price: price_cents, wallet: wallet.to_string() }
}

fn default_config() -> LotConfig {
    LotConfig { tax_lot_scope: Scope::Wallet, gaap_lot_scope: Scope::Universal }
}

fn bucket(wallet: &str, sats: i64) -> BucketRecord {
    BucketRecord { wallet: wallet.to_string(), satoshis: sats }
}

#[test]
fn test_allocate_simple() {
    let mut ledger = Ledger::new();
    let config = default_config();
    let records = vec![
        rec(day(1), 100_000_000, 4_000_000, "default"),
        rec(day(32), 50_000_000, 4_500_000, "default"),
    ];
    ledger.import_transactions(&records, &config).unwrap();

    let buckets = vec![bucket("coinbase", 100_000_000), bucket("ledger", 50_000_000)];
    ledger.allocate(&buckets).unwrap();

    assert_eq!(ledger.acquisitions[0].wallet, "coinbase");
    assert_eq!(ledger.acquisitions[1].wallet, "ledger");
}

#[test]
fn test_allocate_with_split() {
    let mut ledger = Ledger::new();
    let config = default_config();
    let records = vec![rec(day(1), 200_000_000, 4_000_000, "default")];
    ledger.import_transactions(&records, &config).unwrap();

    let buckets = vec![bucket("coinbase", 150_000_000), bucket("ledger", 50_000_000)];
    ledger.allocate(&buckets).unwrap();

    let acqs = &ledger.acquisitions;
    assert_eq!(acqs.len(), 2, "Original lot should be split into 2");

    assert_eq!(acqs[0].wallet, "coinbase");
    assert_eq!(acqs[0].undisposed_satoshis, 150_000_000);
    assert_eq!(acqs[0].tax_undisposed_satoshis, 150_000_000);

    assert_eq!(acqs[1].wallet, "ledger");
    assert_eq!(acqs[1].undisposed_satoshis, 50_000_000);
    assert_eq!(acqs[1].tax_undisposed_satoshis, 50_000_000);

    assert_eq!(acqs[0].usd_cents_btc_basis, acqs[1].usd_cents_btc_basis);
    assert_eq!(acqs[0].acquisition_date, acqs[1].acquisition_date);
}

#[test]
fn test_allocate_partial_lot() {
    let mut ledger = Ledger::new();
    let config = default_config();
    let records = vec![
        rec(day(1), 200_000_000, 4_000_000, "default"),
        rec(day(32), -50_000_000, 4_500_000, "default"),
    ];
    ledger.import_transactions(&records, &config).unwrap();

    let buckets = vec![bucket("coinbase", 100_000_000), bucket("ledger", 50_000_000)];
    ledger.allocate(&buckets).unwrap();

    let acqs = &ledger.acquisitions;
    assert_eq!(acqs.len(), 2);

    let coinbase_lot = acqs.iter().find(|a| a.wallet == "coinbase").unwrap();
    assert_eq!(coinbase_lot.undisposed_satoshis, 100_000_000);

    let ledger_lot = acqs.iter().find(|a| a.wallet == "ledger").unwrap();
    assert_eq!(ledger_lot.undisposed_satoshis, 50_000_000);
}

#[test]
fn test_allocate_sets_disposition_wallet_to_legacy() {
    let mut ledger = Ledger::new();
    let config = default_config();
    let records = vec![
        rec(day(1), 200_000_000, 4_000_000, "default"),
        rec(day(32), -50_000_000, 4_500_000, "default"),
    ];
    ledger.import_transactions(&records, &config).unwrap();

    let buckets = vec![bucket("coinbase", 150_000_000)];
    ledger.allocate(&buckets).unwrap();

    for d in &ledger.dispositions {
        assert_eq!(d.wallet, "legacy", "Existing dispositions should be set to 'legacy'");
    }
}

#[test]
fn test_allocate_sum_mismatch_errors() {
    let mut ledger = Ledger::new();
    let config = default_config();
    let records = vec![rec(day(1), 100_000_000, 4_000_000, "default")];
    ledger.import_transactions(&records, &config).unwrap();

    let buckets = vec![bucket("coinbase", 200_000_000)];
    let result = ledger.allocate(&buckets);
    assert!(result.is_err(), "Should error when bucket total exceeds undisposed total");
    assert!(matches!(result.unwrap_err(), LedgerError::BucketSumMismatch { .. }));
}

#[test]
fn test_allocate_divergent_trackers_errors() {
    // A lot with diverged trackers: allocation must fail without touching
    // any row.
    let mut ledger = Ledger::new();
    ledger.acquisitions.push(Acquisition {
        id: 0,
        acquisition_date: day(1),
        satoshis: 100_000_000,
        undisposed_satoshis: 80_000_000,
        tax_undisposed_satoshis: 50_000_000,
        usd_cents_btc_basis: 4_000_000,
        usd_cents_btc_fair_value: 4_000_000,
        wallet: "default".to_string(),
    });
    ledger.next_acquisition_id = 1;

    let buckets = vec![bucket("coinbase", 80_000_000)];
    let result = ledger.allocate(&buckets);
    assert!(matches!(result.unwrap_err(), LedgerError::DivergentTrackers { .. }));
    assert_eq!(ledger.acquisitions.len(), 1);
    assert_eq!(ledger.acquisitions[0].wallet, "default");
    assert_eq!(ledger.acquisitions[0].undisposed_satoshis, 80_000_000);
    assert_eq!(ledger.acquisitions[0].tax_undisposed_satoshis, 50_000_000);
}
