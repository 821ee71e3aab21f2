use rgl_ledger::config::LotConfig;
use rgl_ledger::errors::LedgerError;
use rgl_ledger::matching::NewRecord;
use rgl_ledger::model::{Scope, Term, Tracker};
use rgl_ledger::store::Ledger;

const DAY: i64 = 86_400;

fn day(n: i64) -> i64 {
    n * DAY
}

fn rec(date: i64, sats: i64, price_cents: i64) -> NewRecord {
    NewRecord { date, bitcoin: sats, price: price_cents, wallet: "default".to_string() }
}

fn default_config() -> LotConfig {
    LotConfig { tax_lot_scope: Scope::Wallet, gaap_lot_scope: Scope::Universal }
}

fn tax_matches(ledger: &Ledger) -> Vec<&rgl_ledger::model::AcquisitionDisposition> {
    ledger.acquisition_dispositions.iter().filter(|m| m.match_type == Tracker::Tax).collect()
}

fn gaap_matches(ledger: &Ledger) -> Vec<&rgl_ledger::model::AcquisitionDisposition> {
    ledger.acquisition_dispositions.iter().filter(|m| m.match_type == Tracker::Gaap).collect()
}

#[test]
fn test_single_acquisition() {
    let mut ledger = Ledger::new();
    let config = default_config();
    ledger.import_transactions(&vec![rec(day(15), 100_000_000, 4_000_000)], &config).unwrap();

    let acqs = &ledger.acquisitions;
    assert_eq!(acqs.len(), 1);
    assert_eq!(acqs[0].satoshis, 100_000_000);
    assert_eq!(acqs[0].undisposed_satoshis, 100_000_000);
    assert_eq!(acqs[0].tax_undisposed_satoshis, 100_000_000);
    assert_eq!(acqs[0].usd_cents_btc_basis, 4_000_000);
    assert_eq!(acqs[0].usd_cents_btc_fair_value, 4_000_000);
}

#[test]
fn test_single_disposition() {
    let mut ledger = Ledger::new();
    let config = default_config();
    let records = vec![rec(day(15), 100_000_000, 4_000_000), rec(day(46), -100_000_000, 4_500_000)];
    ledger.import_transactions(&records, &config).unwrap();

    let disps = &ledger.dispositions;
    assert_eq!(disps.len(), 1);
    assert_eq!(disps[0].satoshis, -100_000_000);
    assert_eq!(disps[0].usd_cents_btc_basis, 4_500_000);
}

#[test]
fn test_fifo_single_buy_sell() {
    let mut ledger = Ledger::new();
    let config = default_config();
    let records = vec![rec(day(1), 100_000_000, 4_000_000), rec(day(153), -100_000_000, 4_500_000)];
    ledger.import_transactions(&records, &config).unwrap();

    let tax_ads = tax_matches(&ledger);
    assert_eq!(tax_ads.len(), 1);
    assert_eq!(tax_ads[0].satoshis, 100_000_000);
    assert_eq!(tax_ads[0].basis, 4_000_000);
    assert_eq!(tax_ads[0].rgl, 500_000);
}

#[test]
fn test_fifo_partial_lot() {
    let mut ledger = Ledger::new();
    let config = default_config();
    let records = vec![rec(day(1), 100_000_000, 4_000_000), rec(day(153), -50_000_000, 4_500_000)];
    ledger.import_transactions(&records, &config).unwrap();

    assert_eq!(ledger.acquisitions[0].undisposed_satoshis, 50_000_000);
    assert_eq!(ledger.acquisitions[0].tax_undisposed_satoshis, 50_000_000);

    assert_eq!(ledger.dispositions[0].undisposed_satoshis, 0);
    assert_eq!(ledger.dispositions[0].tax_undisposed_satoshis, 0);

    let tax_ads = tax_matches(&ledger);
    assert_eq!(tax_ads.len(), 1);
    assert_eq!(tax_ads[0].satoshis, 50_000_000);
}

#[test]
fn test_fifo_multiple_acquisitions() {
    let mut ledger = Ledger::new();
    let config = default_config();
    let records = vec![
        rec(day(1), 50_000_000, 3_000_000),
        rec(day(32), 50_000_000, 4_000_000),
        rec(day(153), -75_000_000, 5_000_000),
    ];
    ledger.import_transactions(&records, &config).unwrap();

    let tax_ads = tax_matches(&ledger);
    assert_eq!(tax_ads.len(), 2);

    assert_eq!(tax_ads[0].satoshis, 50_000_000);
    assert_eq!(tax_ads[0].basis, 50_000_000i64 * 3_000_000 / 100_000_000);
    assert_eq!(tax_ads[1].satoshis, 25_000_000);
    assert_eq!(tax_ads[1].basis, 25_000_000i64 * 4_000_000 / 100_000_000);

    assert_eq!(ledger.acquisitions[0].undisposed_satoshis, 0);
    assert_eq!(ledger.acquisitions[1].undisposed_satoshis, 25_000_000);
}

#[test]
fn test_fifo_multiple_dispositions() {
    let mut ledger = Ledger::new();
    let config = default_config();
    let records = vec![
        rec(day(1), 100_000_000, 4_000_000),
        rec(day(60), -30_000_000, 4_500_000),
        rec(day(91), -30_000_000, 4_600_000),
        rec(day(121), -40_000_000, 4_700_000),
    ];
    ledger.import_transactions(&records, &config).unwrap();

    let tax_ads = tax_matches(&ledger);
    assert_eq!(tax_ads.len(), 3);

    assert_eq!(ledger.acquisitions[0].undisposed_satoshis, 0);
    for d in &ledger.dispositions {
        assert_eq!(d.undisposed_satoshis, 0);
        assert_eq!(d.tax_undisposed_satoshis, 0);
    }
}

#[test]
fn test_term_short() {
    let mut ledger = Ledger::new();
    let config = default_config();
    let records = vec![rec(day(1), 100_000_000, 4_000_000), rec(day(153), -100_000_000, 4_500_000)];
    ledger.import_transactions(&records, &config).unwrap();

    assert_eq!(tax_matches(&ledger)[0].term, Term::Short);
}

#[test]
fn test_term_long() {
    let mut ledger = Ledger::new();
    let config = default_config();
    let records = vec![rec(day(1), 100_000_000, 4_000_000), rec(day(367), -100_000_000, 4_500_000)];
    ledger.import_transactions(&records, &config).unwrap();

    assert_eq!(tax_matches(&ledger)[0].term, Term::Long);
}

#[test]
fn test_term_boundary() {
    // Exactly 365 elapsed days classifies long-term.
    let mut ledger = Ledger::new();
    let config = default_config();
    let records = vec![rec(day(0), 100_000_000, 4_000_000), rec(day(365), -100_000_000, 4_500_000)];
    ledger.import_transactions(&records, &config).unwrap();
    assert_eq!(tax_matches(&ledger)[0].term, Term::Long);

    // Exactly 364 elapsed days classifies short-term.
    let mut ledger2 = Ledger::new();
    let records2 = vec![rec(day(0), 100_000_000, 4_000_000), rec(day(364), -100_000_000, 4_500_000)];
    ledger2.import_transactions(&records2, &config).unwrap();
    assert_eq!(tax_matches(&ledger2)[0].term, Term::Short);
}

#[test]
fn test_disposition_before_acquisition_errors() {
    let config = default_config();

    // Selling without any prior acquisition fails and rolls back.
    let mut ledger = Ledger::new();
    let result = ledger.import_transactions(&vec![rec(day(153), -100_000_000, 4_500_000)], &config);
    assert!(result.is_err(), "Selling without a prior acquisition should return Err");
    assert!(matches!(result.unwrap_err(), LedgerError::NoAcquisitionLotsAvailable { .. }));
    assert_eq!(ledger.dispositions.len(), 0, "failed import leaves the ledger unchanged");

    // A sell dated before the only buy fails too.
    let mut ledger2 = Ledger::new();
    let records = vec![rec(day(1), -100_000_000, 4_500_000), rec(day(366), 100_000_000, 4_000_000)];
    let result2 = ledger2.import_transactions(&records, &config);
    assert!(result2.is_err());
}

#[test]
fn test_gaap_equals_tax_before_mark_to_market() {
    let mut ledger = Ledger::new();
    let config = default_config();
    let records = vec![rec(day(1), 100_000_000, 4_000_000), rec(day(153), -50_000_000, 5_000_000)];
    ledger.import_transactions(&records, &config).unwrap();

    let tax_ads = tax_matches(&ledger);
    let gaap_ads = gaap_matches(&ledger);
    for (tax, gaap) in tax_ads.iter().zip(gaap_ads.iter()) {
        assert_eq!(tax.basis, gaap.basis);
        assert_eq!(tax.rgl, gaap.rgl);
    }
}

#[test]
fn test_chronological_sorting() {
    // The core processes batches strictly in chronological order: the
    // ingestion edge sorts records before handing them over, and the core
    // rejects an unsorted batch outright.
    let mut ledger = Ledger::new();
    let config = default_config();
    let unsorted = vec![rec(day(153), -50_000_000, 5_000_000), rec(day(1), 100_000_000, 4_000_000)];
    let rejected = ledger.import_transactions(&unsorted, &config);
    assert!(matches!(rejected.unwrap_err(), LedgerError::OutOfOrderRecord { .. }));

    let mut sorted = unsorted;
    sorted.sort_by_key(|r| r.date);
    ledger.import_transactions(&sorted, &config).unwrap();

    assert_eq!(ledger.acquisitions.len(), 1);
    assert_eq!(ledger.acquisitions[0].satoshis, 100_000_000);
    assert_eq!(ledger.dispositions.len(), 1);
    assert_eq!(ledger.dispositions[0].satoshis, -50_000_000);
    assert_eq!(tax_matches(&ledger).len(), 1);
}

#[test]
fn test_split_lot_basis_sums_to_total() {
    let mut ledger = Ledger::new();
    let config = default_config();
    let records = vec![
        rec(day(1), 100_000_000, 4_614_527),
        rec(day(60), -33_333_333, 5_000_000),
        rec(day(91), -33_333_333, 5_000_000),
        rec(day(121), -33_333_334, 5_000_000),
    ];
    ledger.import_transactions(&records, &config).unwrap();

    let tax_ads = tax_matches(&ledger);
    assert_eq!(tax_ads.len(), 3);

    let total_tax_basis: i64 = tax_ads.iter().map(|ad| ad.basis).sum();
    let expected = 4_614_527i64;
    let diff = (total_tax_basis - expected).abs();
    assert!(
        diff <= tax_ads.len() as i64,
        "Sum of split lot bases ({}) should be within {} cents of total basis ({}), but diff is {}",
        total_tax_basis,
        tax_ads.len(),
        expected,
        diff
    );
}

#[test]
fn test_basis_uses_rounding_not_truncation() {
    let mut ledger = Ledger::new();
    let config = default_config();
    let records = vec![rec(day(1), 100_000_000, 4_000_001), rec(day(153), -33_333_333, 5_000_000)];
    ledger.import_transactions(&records, &config).unwrap();

    let tax_ads = tax_matches(&ledger);
    assert_eq!(tax_ads.len(), 1);
    assert_eq!(
        tax_ads[0].basis, 1_333_334,
        "Basis should be rounded (1,333,334 cents), not truncated, got {}",
        tax_ads[0].basis
    );
}

#[test]
fn test_dual_matching_creates_both_tax_and_gaap_records() {
    let mut ledger = Ledger::new();
    let config = default_config();
    let records = vec![rec(day(1), 100_000_000, 4_000_000), rec(day(153), -100_000_000, 4_500_000)];
    ledger.import_transactions(&records, &config).unwrap();

    assert_eq!(ledger.acquisition_dispositions.len(), 2, "1 tax + 1 gaap match");
    assert_eq!(tax_matches(&ledger).len(), 1);
    assert_eq!(gaap_matches(&ledger).len(), 1);
}
