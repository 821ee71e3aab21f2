use rgl_ledger::config::LotConfig;
use rgl_ledger::errors::LedgerError;
use rgl_ledger::matching::NewRecord;
use rgl_ledger::model::{Scope, Term, Tracker};
use rgl_ledger::store::Ledger;

const DAY: i64 = 86_400;

fn day(n: i64) -> i64 {
    n * DAY
}

fn rec(date: i64, sats: i64, price_cents: i64, wallet: &str) -> NewRecord {
    NewRecord { date, bitcoin: sats, price: price_cents, wallet: wallet.to_string() }
}

fn default_config() -> LotConfig {
    LotConfig { tax_lot_scope: Scope::Wallet, gaap_lot_scope: Scope::Universal }
}

fn universal_config() -> LotConfig {
    LotConfig { tax_lot_scope: Scope::Universal, gaap_lot_scope: Scope::Universal }
}

#[test]
fn test_wallet_scoped_tax_fifo() {
    let mut ledger = Ledger::new();
    let config = default_config();
    let records = vec![
        rec(day(1), 100_000_000, 4_000_000, "ledger"),
        rec(day(32), 100_000_000, 5_000_000, "coinbase"),
        rec(day(152), -50_000_000, 6_000_000, "coinbase"),
    ];
    ledger.import_transactions(&records, &config).unwrap();

    let tax_ads: Vec<_> = ledger
        .acquisition_dispositions
        .iter()
        .filter(|m| m.match_type == Tracker::Tax)
        .collect();
    assert_eq!(tax_ads.len(), 1, "Tax should have 1 match");
    let coinbase_lot = ledger.acquisitions.iter().find(|a| a.wallet == "coinbase").unwrap();
    assert_eq!(
        tax_ads[0].acquisition_id, coinbase_lot.id,
        "Tax FIFO should match the coinbase lot (wallet-scoped)"
    );
    assert_eq!(
        tax_ads[0].basis,
        50_000_000i64 * 5_000_000 / 100_000_000,
        "Tax basis should use the coinbase lot's cost basis"
    );

    let gaap_ads: Vec<_> = ledger
        .acquisition_dispositions
        .iter()
        .filter(|m| m.match_type == Tracker::Gaap)
        .collect();
    assert_eq!(gaap_ads.len(), 1, "GAAP should have 1 match");
    let ledger_lot = ledger.acquisitions.iter().find(|a| a.wallet == "ledger").unwrap();
    assert_eq!(
        gaap_ads[0].acquisition_id, ledger_lot.id,
        "GAAP FIFO should match the ledger lot (universal, earliest)"
    );
    assert_eq!(
        gaap_ads[0].basis,
        50_000_000i64 * 4_000_000 / 100_000_000,
        "GAAP basis should use the ledger lot's fair value"
    );
}

#[test]
fn test_universal_gaap_fifo_with_wallets() {
    let mut ledger = Ledger::new();
    let config = default_config();
    let records = vec![
        rec(day(1), 100_000_000, 3_000_000, "ledger"),
        rec(day(32), 100_000_000, 4_000_000, "coinbase"),
        rec(day(60), -50_000_000, 5_000_000, "coinbase"),
    ];
    ledger.import_transactions(&records, &config).unwrap();

    let gaap_ads: Vec<_> = ledger
        .acquisition_dispositions
        .iter()
        .filter(|m| m.match_type == Tracker::Gaap)
        .collect();
    assert_eq!(gaap_ads.len(), 1, "GAAP should have 1 match");
    let ledger_lot = ledger.acquisitions.iter().find(|a| a.wallet == "ledger").unwrap();
    assert_eq!(gaap_ads[0].acquisition_id, ledger_lot.id);
    assert_eq!(gaap_ads[0].satoshis, 50_000_000);

    let tax_ads: Vec<_> = ledger
        .acquisition_dispositions
        .iter()
        .filter(|m| m.match_type == Tracker::Tax)
        .collect();
    assert_eq!(tax_ads.len(), 1, "Tax should have 1 match");
    let coinbase_lot = ledger.acquisitions.iter().find(|a| a.wallet == "coinbase").unwrap();
    assert_eq!(tax_ads[0].acquisition_id, coinbase_lot.id);
}

#[test]
fn test_dual_matching_different_lots() {
    let mut ledger = Ledger::new();
    let config = default_config();
    let records = vec![
        rec(day(1), 100_000_000, 3_000_000, "ledger"),
        rec(day(32), 100_000_000, 4_000_000, "coinbase"),
        rec(day(152), -50_000_000, 5_000_000, "coinbase"),
    ];
    ledger.import_transactions(&records, &config).unwrap();

    let tax = ledger.acquisition_dispositions.iter().find(|m| m.match_type == Tracker::Tax).unwrap();
    let gaap = ledger.acquisition_dispositions.iter().find(|m| m.match_type == Tracker::Gaap).unwrap();
    assert_ne!(
        tax.acquisition_id, gaap.acquisition_id,
        "Tax and GAAP should match DIFFERENT lots when scopes differ"
    );
}

#[test]
fn test_universal_tax_and_gaap_match_same_lots() {
    let mut ledger = Ledger::new();
    let config = universal_config();
    let records = vec![
        rec(day(1), 100_000_000, 3_000_000, "ledger"),
        rec(day(32), 100_000_000, 4_000_000, "coinbase"),
        rec(day(152), -50_000_000, 5_000_000, "coinbase"),
    ];
    ledger.import_transactions(&records, &config).unwrap();

    let tax = ledger.acquisition_dispositions.iter().find(|m| m.match_type == Tracker::Tax).unwrap();
    let gaap = ledger.acquisition_dispositions.iter().find(|m| m.match_type == Tracker::Gaap).unwrap();
    assert_eq!(
        tax.acquisition_id, gaap.acquisition_id,
        "Both should match the same lot when both are universal"
    );
}

#[test]
fn test_wallet_assigned_on_import() {
    let mut ledger = Ledger::new();
    let config = default_config();
    let records = vec![
        rec(day(1), 100_000_000, 4_000_000, "coinbase"),
        rec(day(32), 50_000_000, 4_500_000, "ledger"),
    ];
    ledger.import_transactions(&records, &config).unwrap();

    assert_eq!(ledger.acquisitions.len(), 2);
    assert_eq!(ledger.acquisitions[0].wallet, "coinbase");
    assert_eq!(ledger.acquisitions[1].wallet, "ledger");
}

#[test]
fn test_term_boundary_365_vs_364_days() {
    // Exactly 365 elapsed days classifies long-term; 364 days short-term.
    let mut ledger = Ledger::new();
    let config = universal_config();
    let records = vec![
        rec(day(0), 100_000_000, 4_000_000, "w"),
        rec(day(364), -50_000_000, 5_000_000, "w"),
        rec(day(365), -50_000_000, 5_000_000, "w"),
    ];
    ledger.import_transactions(&records, &config).unwrap();

    let short_match = ledger
        .acquisition_dispositions
        .iter()
        .find(|m| m.match_type == Tracker::Tax && {
            let d = ledger.dispositions.iter().find(|x| x.id == m.disposition_id).unwrap();
            d.disposition_date == day(364)
        })
        .unwrap();
    assert_eq!(short_match.term, Term::Short, "364 elapsed days is short-term");

    let long_match = ledger
        .acquisition_dispositions
        .iter()
        .find(|m| m.match_type == Tracker::Tax && {
            let d = ledger.dispositions.iter().find(|x| x.id == m.disposition_id).unwrap();
            d.disposition_date == day(365)
        })
        .unwrap();
    assert_eq!(long_match.term, Term::Long, "365 elapsed days is long-term");
}

#[test]
fn test_import_no_lots_available_errors() {
    let mut ledger = Ledger::new();
    let config = default_config();
    let records = vec![rec(day(1), -50_000_000, 5_000_000, "w")];
    let result = ledger.import_transactions(&records, &config);
    assert!(matches!(result.unwrap_err(), LedgerError::NoAcquisitionLotsAvailable { .. }));
    assert_eq!(ledger.acquisitions.len(), 0);
    assert_eq!(ledger.dispositions.len(), 0);
}

#[test]
fn test_import_disposition_predates_acquisition_errors() {
    let mut ledger = Ledger::new();
    let config = universal_config();
    let records = vec![
        rec(day(1), -50_000_000, 5_000_000, "w"),
        rec(day(32), 100_000_000, 4_000_000, "w"),
    ];
    let result = ledger.import_transactions(&records, &config);
    assert!(matches!(
        result.unwrap_err(),
        LedgerError::DispositionPredatesAcquisition { .. }
    ));
    assert_eq!(ledger.acquisitions.len(), 0, "failed import rolls everything back");
}

#[test]
fn test_import_rejects_zero_quantity() {
    let mut ledger = Ledger::new();
    let config = default_config();
    let records = vec![rec(day(1), 0, 4_000_000, "w")];
    let result = ledger.import_transactions(&records, &config);
    assert!(matches!(result.unwrap_err(), LedgerError::InvalidRecord { index: 0 }));
}

#[test]
fn test_matching_consumes_partial_then_next_lot() {
    // A disposition larger than the earliest lot consumes it fully, then
    // moves to the next lot in FIFO order.
    let mut ledger = Ledger::new();
    let config = universal_config();
    let records = vec![
        rec(day(1), 30_000_000, 3_000_000, "w"),
        rec(day(2), 100_000_000, 4_000_000, "w"),
        rec(day(40), -50_000_000, 5_000_000, "w"),
    ];
    ledger.import_transactions(&records, &config).unwrap();

    let tax_ads: Vec<_> = ledger
        .acquisition_dispositions
        .iter()
        .filter(|m| m.match_type == Tracker::Tax)
        .collect();
    assert_eq!(tax_ads.len(), 2, "Two lots consumed for one disposition");
    assert_eq!(tax_ads[0].satoshis, 30_000_000);
    assert_eq!(tax_ads[1].satoshis, 20_000_000);
    assert_eq!(ledger.acquisitions[0].tax_undisposed_satoshis, 0);
    assert_eq!(ledger.acquisitions[1].tax_undisposed_satoshis, 80_000_000);
    assert_eq!(ledger.dispositions[0].tax_undisposed_satoshis, 0);
}

#[test]
fn test_gaap_basis_uses_fair_value_after_mark_to_market() {
    // After a mark-to-market event, the GAAP pass matches against carrying
    // value while the tax pass keeps historical cost: realized gain/loss
    // diverges between the two regimes.
    let mut ledger = Ledger::new();
    let config = universal_config();
    let records = vec![rec(day(1), 100_000_000, 4_000_000, "w")];
    ledger.import_transactions(&records, &config).unwrap();

    ledger.mark_to_market(6_000_000, day(30));
    assert_eq!(ledger.acquisitions[0].usd_cents_btc_fair_value, 6_000_000);
    assert_eq!(ledger.acquisitions[0].usd_cents_btc_basis, 4_000_000);

    let sale = vec![rec(day(60), -50_000_000, 7_000_000, "w")];
    ledger.import_transactions(&sale, &config).unwrap();

    let tax = ledger.acquisition_dispositions.iter().find(|m| m.match_type == Tracker::Tax).unwrap();
    let gaap = ledger.acquisition_dispositions.iter().find(|m| m.match_type == Tracker::Gaap).unwrap();

    assert_eq!(tax.basis, 2_000_000, "tax basis: 0.5 BTC at $40k historical cost");
    assert_eq!(gaap.basis, 3_000_000, "GAAP basis: 0.5 BTC at $60k carrying value");
    assert_eq!(tax.rgl, 3_500_000 - 2_000_000);
    assert_eq!(gaap.rgl, 3_500_000 - 3_000_000);
}

#[test]
fn test_impair_holdings_writes_down_fair_value() {
    let mut ledger = Ledger::new();
    let config = universal_config();
    let records = vec![
        rec(day(1), 100_000_000, 4_000_000, "w"),
        rec(day(2), 100_000_000, 2_500_000, "w"),
    ];
    ledger.import_transactions(&records, &config).unwrap();

    ledger.impair_holdings(3_000_000, day(30));
    assert_eq!(ledger.acquisitions[0].usd_cents_btc_fair_value, 3_000_000, "written down");
    assert_eq!(ledger.acquisitions[1].usd_cents_btc_fair_value, 2_500_000, "already below");
}

#[test]
fn test_holdings_filters_by_date_and_undisposed() {
    let mut ledger = Ledger::new();
    let config = universal_config();
    let records = vec![
        rec(day(1), 30_000_000, 3_000_000, "w"),
        rec(day(10), 100_000_000, 4_000_000, "w"),
        rec(day(40), -30_000_000, 5_000_000, "w"),
    ];
    ledger.import_transactions(&records, &config).unwrap();

    // Lot 1 is fully disposed; only lot 2 is held afterwards.
    let held = ledger.holdings(day(50));
    assert_eq!(held, vec![1usize]);

    // Lot 2 was not yet acquired by day 5, and lot 1 is now fully
    // disposed, so nothing is held as of that date.
    let held_early = ledger.holdings(day(5));
    assert!(held_early.is_empty());
}

#[test]
fn test_report_filters_by_period_tracker_and_term() {
    let mut ledger = Ledger::new();
    let config = universal_config();
    let records = vec![
        rec(day(0), 100_000_000, 4_000_000, "w"),
        rec(day(100), -20_000_000, 5_000_000, "w"),
        rec(day(400), -30_000_000, 6_000_000, "w"),
    ];
    ledger.import_transactions(&records, &config).unwrap();

    let short_tax = ledger.report(day(0), day(200), Tracker::Tax, Term::Short);
    assert_eq!(short_tax.len(), 1);
    assert_eq!(ledger.acquisition_dispositions[short_tax[0]].satoshis, 20_000_000);

    let long_tax = ledger.report(day(0), day(500), Tracker::Tax, Term::Long);
    assert_eq!(long_tax.len(), 1);
    assert_eq!(ledger.acquisition_dispositions[long_tax[0]].satoshis, 30_000_000);

    let none = ledger.report(day(200), day(300), Tracker::Gaap, Term::Short);
    assert!(none.is_empty());
}
