use payments_engine::amount::Amount;
use payments_engine::model::{AccountRecord, TransactionRecord, TxType};
use payments_engine::PaymentsEngine;
use rust_decimal::Decimal;
use std::str::FromStr;

fn d(s: &str) -> Decimal {
    Decimal::from_str(s).unwrap()
}

fn amt(s: &str) -> Amount {
    let v = d(s);
    Amount::new(v.mantissa(), v.scale()).unwrap()
}

fn value(a: Amount) -> Decimal {
    Decimal::from_i128_with_scale(a.mantissa(), a.scale())
}

fn row(tx_type: TxType, client: u16, tx: u32, amount: Option<&str>) -> TransactionRecord {
    TransactionRecord { tx_type, client, tx, amount: amount.map(amt) }
}

fn run(rows: Vec<TransactionRecord>) -> PaymentsEngine {
    let mut e = PaymentsEngine::new();
    for r in rows {
        assert!(e.try_apply(r));
    }
    assert!(e.check_invariants());
    e
}

fn available(e: &PaymentsEngine, client: u16) -> Decimal {
    value(e.account(client).unwrap().available)
}

fn held(e: &PaymentsEngine, client: u16) -> Decimal {
    value(e.account(client).unwrap().held)
}

fn text(r: &AccountRecord) -> String {
    format!("{},{},{},{},{}", r.client, r.available, r.held, r.total, r.locked)
}

#[test]
fn deposit_adds_exact_amount() {
    let e = run(vec![row(TxType::Deposit, 1, 1, Some("12.34"))]);
    assert_eq!(available(&e, 1), d("12.34"));
    assert_eq!(held(&e, 1), Decimal::ZERO);
}

#[test]
fn deposit_then_full_withdrawal_zeroes_balance() {
    let e = run(vec![
        row(TxType::Deposit, 1, 1, Some("987.65")),
        row(TxType::Withdrawal, 1, 2, Some("987.65")),
    ]);
    assert_eq!(available(&e, 1), Decimal::ZERO);
    assert_eq!(value(e.account(1).unwrap().total()), Decimal::ZERO);
}

#[test]
fn withdrawal_never_overdrafts_available() {
    let e = run(vec![
        row(TxType::Deposit, 1, 1, Some("5.00")),
        row(TxType::Withdrawal, 1, 2, Some("5.01")),
    ]);
    assert_eq!(available(&e, 1), d("5.00"));
    assert!(!e.has_transaction(2));
}

#[test]
fn dispute_preserves_total() {
    let e = run(vec![row(TxType::Deposit, 1, 1, Some("3.21")), row(TxType::Dispute, 1, 1, None)]);
    let a = e.account(1).unwrap();
    assert_eq!(value(a.total()), d("3.21"));
    assert_eq!(value(a.held), d("3.21"));
    assert_eq!(value(a.available), Decimal::ZERO);
}

#[test]
fn dispute_then_resolve_is_a_no_op() {
    let e = run(vec![
        row(TxType::Deposit, 1, 1, Some("7.5")),
        row(TxType::Dispute, 1, 1, None),
        row(TxType::Resolve, 1, 1, None),
    ]);
    assert_eq!(available(&e, 1), d("7.5"));
    assert_eq!(held(&e, 1), Decimal::ZERO);
    assert!(!e.account(1).unwrap().locked);
}

#[test]
fn chargeback_always_locks_account() {
    let e = run(vec![
        row(TxType::Deposit, 1, 1, Some("0.01")),
        row(TxType::Dispute, 1, 1, None),
        row(TxType::Chargeback, 1, 1, None),
    ]);
    assert!(e.account(1).unwrap().locked);
    assert_eq!(held(&e, 1), Decimal::ZERO);
    assert!(e.is_finalised(1));
}

#[test]
fn multiple_deposits_accumulate_correctly() {
    let e = run(vec![
        row(TxType::Deposit, 1, 1, Some("1.01")),
        row(TxType::Deposit, 1, 2, Some("2.02")),
        row(TxType::Deposit, 1, 3, Some("3.03")),
    ]);
    assert_eq!(available(&e, 1), d("6.06"));
}

#[test]
fn duplicate_tx_id_counts_only_first_deposit() {
    let e = run(vec![row(TxType::Deposit, 1, 1, Some("4.00")), row(TxType::Deposit, 1, 1, Some("9.00"))]);
    assert_eq!(available(&e, 1), d("4.00"));
}

#[test]
fn locked_account_rejects_deposit() {
    let e = run(vec![
        row(TxType::Deposit, 1, 1, Some("10")),
        row(TxType::Dispute, 1, 1, None),
        row(TxType::Chargeback, 1, 1, None),
        row(TxType::Deposit, 1, 2, Some("5")),
    ]);
    assert_eq!(available(&e, 1), Decimal::ZERO);
    assert!(!e.has_transaction(2));
}

#[test]
fn non_positive_or_missing_amounts_are_rejected() {
    let e = run(vec![
        row(TxType::Deposit, 1, 1, Some("0")),
        row(TxType::Deposit, 1, 2, Some("-5")),
        row(TxType::Deposit, 1, 3, None),
        row(TxType::Withdrawal, 1, 4, Some("0.0")),
    ]);
    assert!(e.account(1).is_none());
    assert!(!e.has_transaction(1));
    assert!(!e.has_transaction(4));
}

#[test]
fn failed_withdrawal_opens_no_account() {
    let e = run(vec![row(TxType::Withdrawal, 5, 1, Some("10.0"))]);
    assert!(e.account(5).is_none());
    assert!(!e.has_transaction(1));
    assert!(e.account_records().is_empty());
}

#[test]
fn dispute_of_withdrawal_is_ignored() {
    let e = run(vec![
        row(TxType::Deposit, 1, 1, Some("10")),
        row(TxType::Withdrawal, 1, 2, Some("4")),
        row(TxType::Dispute, 1, 2, None),
    ]);
    assert_eq!(available(&e, 1), d("6"));
    assert_eq!(held(&e, 1), Decimal::ZERO);
}

#[test]
fn dispute_after_partial_withdrawal_drives_available_negative() {
    let e = run(vec![
        row(TxType::Deposit, 1, 1, Some("100")),
        row(TxType::Withdrawal, 1, 2, Some("60")),
        row(TxType::Dispute, 1, 1, None),
    ]);
    assert_eq!(available(&e, 1), d("-60"));
    assert_eq!(held(&e, 1), d("100"));
}

#[test]
fn disputes_still_apply_to_locked_accounts() {
    let e = run(vec![
        row(TxType::Deposit, 1, 1, Some("10")),
        row(TxType::Deposit, 1, 2, Some("20")),
        row(TxType::Dispute, 1, 1, None),
        row(TxType::Chargeback, 1, 1, None),
        row(TxType::Dispute, 1, 2, None),
    ]);
    assert!(e.account(1).unwrap().locked);
    assert_eq!(held(&e, 1), d("20"));
    assert_eq!(available(&e, 1), Decimal::ZERO);
}

#[test]
fn double_dispute_is_ignored() {
    let e = run(vec![
        row(TxType::Deposit, 1, 1, Some("10")),
        row(TxType::Dispute, 1, 1, None),
        row(TxType::Dispute, 1, 1, None),
    ]);
    assert_eq!(held(&e, 1), d("10"));
    assert_eq!(available(&e, 1), Decimal::ZERO);
}

#[test]
fn resolve_by_other_client_is_ignored() {
    let e = run(vec![
        row(TxType::Deposit, 1, 1, Some("10")),
        row(TxType::Dispute, 1, 1, None),
        row(TxType::Resolve, 2, 1, None),
        row(TxType::Chargeback, 2, 1, None),
    ]);
    assert_eq!(held(&e, 1), d("10"));
    assert!(e.has_transaction(1));
    assert!(e.account(2).is_none());
}

#[test]
fn invariants_hold_after_mixed_sequence() {
    let e = run(vec![
        row(TxType::Deposit, 1, 1, Some("5.5")),
        row(TxType::Deposit, 2, 2, Some("7.25")),
        row(TxType::Withdrawal, 1, 3, Some("2")),
        row(TxType::Dispute, 1, 1, None),
        row(TxType::Dispute, 2, 2, None),
        row(TxType::Resolve, 1, 1, None),
        row(TxType::Chargeback, 2, 2, None),
        row(TxType::Deposit, 3, 1, Some("1")),
        row(TxType::Withdrawal, 2, 4, Some("1")),
    ]);
    assert_eq!(available(&e, 1), d("3.5"));
    assert_eq!(held(&e, 2), Decimal::ZERO);
    assert!(e.account(2).unwrap().locked);
    assert!(e.account(3).is_none());
}

#[test]
fn report_matches_sample_output() {
    let e = run(vec![
        row(TxType::Deposit, 1, 1, Some("100.0")),
        row(TxType::Deposit, 2, 2, Some("200.0")),
        row(TxType::Deposit, 3, 3, Some("300.0")),
        row(TxType::Withdrawal, 1, 4, Some("20.0")),
        row(TxType::Withdrawal, 2, 5, Some("50.0")),
        row(TxType::Withdrawal, 3, 6, Some("100.0")),
    ]);
    let rows: Vec<String> = e.account_records().iter().map(text).collect();
    assert_eq!(
        rows,
        vec![
            "1,80.0000,0.0000,80.0000,false",
            "2,150.0000,0.0000,150.0000,false",
            "3,200.0000,0.0000,200.0000,false",
        ]
    );
}

#[test]
fn report_after_chargeback() {
    let e = run(vec![
        row(TxType::Deposit, 1, 1, Some("100.0")),
        row(TxType::Dispute, 1, 1, None),
        row(TxType::Chargeback, 1, 1, None),
    ]);
    let rows: Vec<String> = e.account_records().iter().map(text).collect();
    assert_eq!(rows, vec!["1,0.0000,0.0000,0.0000,true"]);
}

#[test]
fn report_is_sorted_by_client() {
    let e = run(vec![
        row(TxType::Deposit, 300, 1, Some("1")),
        row(TxType::Deposit, 7, 2, Some("2")),
        row(TxType::Deposit, 65535, 3, Some("3")),
        row(TxType::Deposit, 0, 4, Some("4")),
    ]);
    let clients: Vec<u16> = e.account_records().iter().map(|r| r.client).collect();
    assert_eq!(clients, vec![0, 7, 300, 65535]);
}

#[test]
fn report_rounds_half_to_even() {
    let e = run(vec![
        row(TxType::Deposit, 1, 1, Some("1.23456")),
        row(TxType::Deposit, 2, 2, Some("0.00005")),
        row(TxType::Deposit, 3, 3, Some("0.00015")),
        row(TxType::Deposit, 4, 4, Some("2.5")),
        row(TxType::Deposit, 5, 5, Some("0.00025")),
    ]);
    let rows: Vec<String> = e.account_records().iter().map(text).collect();
    assert_eq!(
        rows,
        vec![
            "1,1.2346,0.0000,1.2346,false",
            "2,0.0000,0.0000,0.0000,false",
            "3,0.0002,0.0000,0.0002,false",
            "4,2.5000,0.0000,2.5000,false",
            "5,0.0002,0.0000,0.0002,false",
        ]
    );
}

#[test]
fn report_writes_negative_balances() {
    let e = run(vec![
        row(TxType::Deposit, 1, 1, Some("100")),
        row(TxType::Withdrawal, 1, 2, Some("60.123456")),
        row(TxType::Dispute, 1, 1, None),
    ]);
    let rows: Vec<String> = e.account_records().iter().map(text).collect();
    assert_eq!(rows, vec!["1,-60.1235,100.0000,39.8765,false"]);
}

#[test]
fn overflowing_deposit_is_reported_and_leaves_state() {
    let max = Decimal::MAX;
    let big = Amount::new(max.mantissa(), 0).unwrap();
    let mut e = PaymentsEngine::new();
    assert!(e.try_apply(TransactionRecord { tx_type: TxType::Deposit, client: 1, tx: 1, amount: Some(big) }));
    assert!(!e.try_apply(TransactionRecord { tx_type: TxType::Deposit, client: 1, tx: 2, amount: Some(big) }));
    assert_eq!(available(&e, 1), max);
    assert!(!e.has_transaction(2));
}

#[test]
fn overflowing_total_has_no_report() {
    let max = Decimal::MAX;
    let big = Amount::new(max.mantissa(), 0).unwrap();
    let mut e = PaymentsEngine::new();
    e.apply(TransactionRecord { tx_type: TxType::Deposit, client: 1, tx: 1, amount: Some(big) });
    e.apply(TransactionRecord { tx_type: TxType::Dispute, client: 1, tx: 1, amount: None });
    e.apply(TransactionRecord { tx_type: TxType::Deposit, client: 1, tx: 2, amount: Some(big) });
    assert!(e.try_account_records().is_none());
    assert!(e.account(1).unwrap().checked_total().is_none());
}

#[test]
fn amount_range_is_that_of_a_decimal() {
    assert!(Amount::new(Decimal::MAX.mantissa(), 28).is_some());
    assert!(Amount::new(Decimal::MAX.mantissa() + 1, 0).is_none());
    assert!(Amount::new(1, 29).is_none());
    let a = Amount::new(-1234, 2).unwrap();
    assert_eq!(a.mantissa(), -1234);
    assert_eq!(a.scale(), 2);
}

#[test]
fn amount_arithmetic_goes_through_decimal() {
    let sum = amt("1.5").checked_add(&amt("0.25")).unwrap();
    assert_eq!(value(sum), d("1.75"));
    let diff = amt("1.5").checked_sub(&amt("0.25")).unwrap();
    assert_eq!(value(diff), d("1.25"));
    assert!(amt("0.1").less_than(&amt("0.25")));
    assert!(!amt("0.30").less_than(&amt("0.3")));
    assert_eq!(value(amt("2.71828").round_dp(4)), d("2.7183"));
    assert_eq!(amt("-3.5").to_string_4dp(), "-3.5000");
}

#[test]
fn report_of_amount_too_long_to_write_is_refused() {
    let e = run(vec![row(TxType::Deposit, 1, 1, Some("1000000000000000000000000000"))]);
    assert!(e.try_account_records().is_none());
    let big = "999999999999999999999999999";
    let e = run(vec![row(TxType::Deposit, 1, 1, Some(big))]);
    let rows: Vec<String> = e.try_account_records().unwrap().iter().map(text).collect();
    assert_eq!(rows, vec![format!("1,{big}.0000,0.0000,{big}.0000,false")]);
}

#[test]
fn amount_text_fits_below_ten_to_the_27() {
    assert!(amt("999999999999999999999999999.9").text_4dp_fits());
    assert!(!amt("1000000000000000000000000000").text_4dp_fits());
    assert!(amt("0.5").text_4dp_fits());
}
