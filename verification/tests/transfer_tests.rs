use rgl_ledger::config::LotConfig;
use rgl_ledger::errors::LedgerError;
use rgl_ledger::matching::NewRecord;
use rgl_ledger::model::{Acquisition, Scope};
use rgl_ledger::rounding::rounding_div;
use rgl_ledger::store::Ledger;
use rgl_ledger::transfer::TransferRecord;

const DAY: i64 = 86_400;

fn day(n: i64) -> i64 {
    n * DAY
}

fn rec(date: i64, sats: i64, price_cents: i64, wallet: &str) -> NewRecord {
    NewRecord { date, bitcoin: sats, price: price_cents, wallet: wallet.to_string() }
}

fn default_config() -> LotConfig {
    LotConfig { tax_lot_scope: Scope::Wallet, gaap_lot_scope: Scope::Universal }
}

fn xfer(date: i64, from: &str, to: &str, sats: i64) -> TransferRecord {
    TransferRecord { date, from: from.to_string(), to: to.to_string(), satoshis: sats }
}

#[test]
fn test_transfer_whole_lot() {
    let mut ledger = Ledger::new();
    let config = default_config();
    let records = vec![rec(day(1), 100_000_000, 4_000_000, "cold-storage")];
    ledger.import_transactions(&records, &config).unwrap();

    let requests = vec![xfer(day(150), "cold-storage", "exchange", 100_000_000)];
    ledger.transfer(&requests).unwrap();

    let acqs = &ledger.acquisitions;
    assert_eq!(acqs.len(), 1, "No new lots should be created for a whole-lot transfer");
    assert_eq!(acqs[0].wallet, "exchange");
    assert_eq!(acqs[0].satoshis, 100_000_000);
    assert_eq!(acqs[0].undisposed_satoshis, 100_000_000);
    assert_eq!(acqs[0].tax_undisposed_satoshis, 100_000_000);
    assert_eq!(acqs[0].usd_cents_btc_basis, 4_000_000);
    assert_eq!(acqs[0].usd_cents_btc_fair_value, 4_000_000);
    assert_eq!(acqs[0].acquisition_date, day(1));
}

#[test]
fn test_transfer_requires_lot_split() {
    let mut ledger = Ledger::new();
    let config = default_config();
    let records = vec![rec(day(1), 200_000_000, 4_000_000, "cold-storage")];
    ledger.import_transactions(&records, &config).unwrap();

    let requests = vec![xfer(day(150), "cold-storage", "exchange", 75_000_000)];
    ledger.transfer(&requests).unwrap();

    let acqs = &ledger.acquisitions;
    assert_eq!(acqs.len(), 2, "Lot should be split into 2");

    let remaining = acqs.iter().find(|a| a.wallet == "cold-storage").unwrap();
    assert_eq!(remaining.tax_undisposed_satoshis, 125_000_000);
    assert_eq!(remaining.undisposed_satoshis, 125_000_000);

    let transferred = acqs.iter().find(|a| a.wallet == "exchange").unwrap();
    assert_eq!(transferred.tax_undisposed_satoshis, 75_000_000);
    assert_eq!(transferred.undisposed_satoshis, 75_000_000);

    assert_eq!(remaining.usd_cents_btc_basis, transferred.usd_cents_btc_basis);
    assert_eq!(remaining.acquisition_date, transferred.acquisition_date);
}

#[test]
fn test_transfer_spans_multiple_lots_fifo() {
    let mut ledger = Ledger::new();
    let config = default_config();
    let records = vec![
        rec(day(1), 50_000_000, 3_000_000, "cold-storage"),
        rec(day(32), 30_000_000, 3_500_000, "cold-storage"),
        rec(day(60), 100_000_000, 4_000_000, "cold-storage"),
    ];
    ledger.import_transactions(&records, &config).unwrap();

    let requests = vec![xfer(day(150), "cold-storage", "exchange", 100_000_000)];
    ledger.transfer(&requests).unwrap();

    let acqs = &ledger.acquisitions;
    assert_eq!(acqs.len(), 4);

    let exchange_lots: Vec<&Acquisition> = acqs.iter().filter(|a| a.wallet == "exchange").collect();
    let cold_lots: Vec<&Acquisition> = acqs.iter().filter(|a| a.wallet == "cold-storage").collect();

    assert_eq!(exchange_lots.len(), 3, "3 lots moved to exchange (2 whole + 1 split)");
    assert_eq!(cold_lots.len(), 1, "1 lot remaining in cold-storage");

    let exchange_total: i64 = exchange_lots.iter().map(|a| a.tax_undisposed_satoshis).sum();
    assert_eq!(exchange_total, 100_000_000, "Total transferred should be 1.0 BTC");

    assert_eq!(cold_lots[0].tax_undisposed_satoshis, 80_000_000, "Remaining should be 0.8 BTC");
}

#[test]
fn test_transfer_with_diverged_trackers() {
    let mut ledger = Ledger::new();
    let config = default_config();
    let records = vec![
        rec(day(1), 100_000_000, 3_000_000, "wallet-a"),
        rec(day(32), 100_000_000, 4_000_000, "wallet-b"),
        rec(day(153), -50_000_000, 5_000_000, "wallet-a"),
    ];
    ledger.import_transactions(&records, &config).unwrap();

    let lot_b = ledger.acquisitions.iter().find(|a| a.wallet == "wallet-b").unwrap();
    let gaap_before = lot_b.undisposed_satoshis;
    let tax_before = lot_b.tax_undisposed_satoshis;

    let requests = vec![xfer(day(183), "wallet-b", "wallet-c", 50_000_000)];
    ledger.transfer(&requests).unwrap();

    let acqs = &ledger.acquisitions;
    let lot_b_after = acqs
        .iter()
        .find(|a| a.wallet == "wallet-b" && a.acquisition_date == day(32))
        .unwrap();
    let lot_c = acqs.iter().find(|a| a.wallet == "wallet-c").unwrap();

    let expected_transferred_gaap =
        rounding_div(gaap_before as i128 * 50_000_000i128, tax_before as i128) as i64;
    assert_eq!(lot_c.undisposed_satoshis, expected_transferred_gaap);
    assert_eq!(lot_c.tax_undisposed_satoshis, 50_000_000);

    assert_eq!(lot_b_after.undisposed_satoshis, gaap_before - expected_transferred_gaap);
    assert_eq!(lot_b_after.tax_undisposed_satoshis, tax_before - 50_000_000);
}

#[test]
fn test_transfer_insufficient_sats_error() {
    let mut ledger = Ledger::new();
    let config = default_config();
    let records = vec![rec(day(1), 50_000_000, 4_000_000, "cold-storage")];
    ledger.import_transactions(&records, &config).unwrap();

    let requests = vec![xfer(day(150), "cold-storage", "exchange", 100_000_000)];
    let result = ledger.transfer(&requests);
    assert!(result.is_err());
    assert!(matches!(result.unwrap_err(), LedgerError::InsufficientBalance { .. }));

    let acqs = &ledger.acquisitions;
    assert_eq!(acqs.len(), 1);
    assert_eq!(acqs[0].wallet, "cold-storage");
    assert_eq!(acqs[0].tax_undisposed_satoshis, 50_000_000);
}

#[test]
fn test_transfer_multiple_rows_date_ordered() {
    let mut ledger = Ledger::new();
    let config = default_config();
    let records = vec![rec(day(1), 100_000_000, 4_000_000, "wallet-a")];
    ledger.import_transactions(&records, &config).unwrap();

    // Requests in reverse date order: June's transfer still runs first.
    let requests = vec![
        xfer(day(183), "wallet-b", "wallet-c", 30_000_000),
        xfer(day(153), "wallet-a", "wallet-b", 60_000_000),
    ];
    ledger.transfer(&requests).unwrap();

    let acqs = &ledger.acquisitions;
    let a: i64 = acqs.iter().filter(|a| a.wallet == "wallet-a").map(|a| a.tax_undisposed_satoshis).sum();
    let b: i64 = acqs.iter().filter(|a| a.wallet == "wallet-b").map(|a| a.tax_undisposed_satoshis).sum();
    let c: i64 = acqs.iter().filter(|a| a.wallet == "wallet-c").map(|a| a.tax_undisposed_satoshis).sum();

    assert_eq!(a, 40_000_000, "wallet-a should have 0.4 BTC remaining");
    assert_eq!(b, 30_000_000, "wallet-b: received 0.6, sent 0.3 = 0.3 BTC");
    assert_eq!(c, 30_000_000, "wallet-c should have 0.3 BTC");
}

#[test]
fn test_transfer_split_sums_equal_original() {
    let mut ledger = Ledger::new();
    let config = default_config();
    let records = vec![rec(day(1), 100_000_000, 4_000_000, "cold-storage")];
    ledger.import_transactions(&records, &config).unwrap();

    let original_satoshis = ledger.acquisitions[0].satoshis;
    let original_gaap = ledger.acquisitions[0].undisposed_satoshis;
    let original_tax = ledger.acquisitions[0].tax_undisposed_satoshis;

    let requests = vec![xfer(day(150), "cold-storage", "exchange", 33_333_333)];
    ledger.transfer(&requests).unwrap();

    let acqs = &ledger.acquisitions;
    assert_eq!(acqs.len(), 2);

    let total_satoshis: i64 = acqs.iter().map(|a| a.satoshis).sum();
    let total_gaap: i64 = acqs.iter().map(|a| a.undisposed_satoshis).sum();
    let total_tax: i64 = acqs.iter().map(|a| a.tax_undisposed_satoshis).sum();

    assert_eq!(total_satoshis, original_satoshis, "satoshis must sum to original");
    assert_eq!(total_gaap, original_gaap, "GAAP undisposed must sum to original");
    assert_eq!(total_tax, original_tax, "tax undisposed must sum to original");
}

#[test]
fn test_transfer_rollback_on_error() {
    let mut ledger = Ledger::new();
    let config = default_config();
    let records = vec![
        rec(day(1), 100_000_000, 4_000_000, "wallet-a"),
        rec(day(32), 20_000_000, 4_500_000, "wallet-b"),
    ];
    ledger.import_transactions(&records, &config).unwrap();

    // First request succeeds, second fails: everything must roll back.
    let requests = vec![
        xfer(day(153), "wallet-a", "wallet-c", 50_000_000),
        xfer(day(183), "wallet-b", "wallet-d", 50_000_000),
    ];
    let result = ledger.transfer(&requests);
    assert!(result.is_err());

    let acqs = &ledger.acquisitions;
    let a: i64 = acqs.iter().filter(|a| a.wallet == "wallet-a").map(|a| a.tax_undisposed_satoshis).sum();
    let b: i64 = acqs.iter().filter(|a| a.wallet == "wallet-b").map(|a| a.tax_undisposed_satoshis).sum();
    assert_eq!(a, 100_000_000, "wallet-a should be unchanged after rollback");
    assert_eq!(b, 20_000_000, "wallet-b should be unchanged after rollback");
    assert!(acqs.iter().all(|a| a.wallet != "wallet-c"), "wallet-c should not exist after rollback");
    assert!(acqs.iter().all(|a| a.wallet != "wallet-d"), "wallet-d should not exist after rollback");
}

#[test]
fn test_transfer_proportionality_diverged_lot() {
    // A lot whose trackers have already diverged: quantity 1.0 BTC, GAAP
    // 0.8 BTC, tax 0.5 BTC.  Transferring 0.3 BTC of tax quantity moves
    // the proportional GAAP amount and conserves every field.
    let mut ledger = Ledger::new();
    ledger.acquisitions.push(Acquisition {
        id: 0,
        acquisition_date: day(1),
        satoshis: 100_000_000,
        undisposed_satoshis: 80_000_000,
        tax_undisposed_satoshis: 50_000_000,
        usd_cents_btc_basis: 4_000_000,
        usd_cents_btc_fair_value: 4_000_000,
        wallet: "w1".to_string(),
    });
    ledger.next_acquisition_id = 1;

    let requests = vec![xfer(day(100), "w1", "w2", 30_000_000)];
    ledger.transfer(&requests).unwrap();

    let child = ledger.acquisitions.iter().find(|a| a.wallet == "w2").unwrap();
    assert_eq!(child.tax_undisposed_satoshis, 30_000_000);
    assert_eq!(
        child.undisposed_satoshis,
        rounding_div(80_000_000i128 * 30_000_000i128, 50_000_000i128) as i64
    );
    assert_eq!(child.undisposed_satoshis, 48_000_000);

    let parent = ledger.acquisitions.iter().find(|a| a.wallet == "w1").unwrap();
    assert_eq!(parent.satoshis + child.satoshis, 100_000_000);
    assert_eq!(parent.undisposed_satoshis + child.undisposed_satoshis, 80_000_000);
    assert_eq!(parent.tax_undisposed_satoshis + child.tax_undisposed_satoshis, 50_000_000);
}

#[test]
fn test_transfer_within_same_wallet_changes_no_balance() {
    let mut ledger = Ledger::new();
    let config = default_config();
    let records = vec![
        rec(day(1), 50_000_000, 3_000_000, "vault"),
        rec(day(2), 50_000_000, 4_000_000, "vault"),
    ];
    ledger.import_transactions(&records, &config).unwrap();

    let requests = vec![xfer(day(100), "vault", "vault", 60_000_000)];
    ledger.transfer(&requests).unwrap();

    let vault: i64 = ledger
        .acquisitions
        .iter()
        .filter(|a| a.wallet == "vault")
        .map(|a| a.tax_undisposed_satoshis)
        .sum();
    assert_eq!(vault, 100_000_000, "a same-wallet transfer moves no balance");

    let total_sats: i64 = ledger.acquisitions.iter().map(|a| a.satoshis).sum();
    assert_eq!(total_sats, 100_000_000);
}

#[test]
fn test_transfer_empty_batch_is_ok() {
    let mut ledger = Ledger::new();
    let config = default_config();
    ledger.import_transactions(&vec![rec(day(1), 50_000_000, 3_000_000, "a")], &config).unwrap();
    ledger.transfer(&Vec::new()).unwrap();
    assert_eq!(ledger.acquisitions.len(), 1);
    assert_eq!(ledger.acquisitions[0].wallet, "a");
}
