use payments_engine::amount::Amount;
use payments_engine::model::{Account, TransactionRecord, TxType};
use payments_engine::PaymentsEngine;
use rust_decimal::Decimal;
use std::str::FromStr;

fn d(s: &str) -> Decimal {
    Decimal::from_str(s).unwrap()
}

fn amount(v: Decimal) -> Amount {
    Amount::new(v.mantissa(), v.scale()).unwrap()
}

fn value(a: Amount) -> Decimal {
    Decimal::from_i128_with_scale(a.mantissa(), a.scale())
}

fn tx_type(name: &str) -> Option<TxType> {
    match name {
        "deposit" => Some(TxType::Deposit),
        "withdrawal" => Some(TxType::Withdrawal),
        "dispute" => Some(TxType::Dispute),
        "resolve" => Some(TxType::Resolve),
        "chargeback" => Some(TxType::Chargeback),
        _ => None,
    }
}

/// Reads rows as the command-line reader does; a malformed row is skipped.
fn parse_rows(input: &str) -> Vec<TransactionRecord> {
    let mut rdr = csv::ReaderBuilder::new()
        .trim(csv::Trim::All)
        .flexible(true)
        .from_reader(input.as_bytes());
    let mut rows = Vec::new();
    for result in rdr.records() {
        let rec = match result {
            Ok(rec) => rec,
            Err(_) => continue,
        };
        let kind = match rec.get(0).and_then(tx_type) {
            Some(k) => k,
            None => continue,
        };
        let client = match rec.get(1).map(|s| s.parse::<u16>()) {
            Some(Ok(c)) => c,
            _ => continue,
        };
        let tx = match rec.get(2).map(|s| s.parse::<u32>()) {
            Some(Ok(t)) => t,
            _ => continue,
        };
        let amount = match rec.get(3) {
            None | Some("") => None,
            Some(s) => match Decimal::from_str(s) {
                Ok(v) => Some(amount(v)),
                Err(_) => continue,
            },
        };
        rows.push(TransactionRecord { tx_type: kind, client, tx, amount });
    }
    rows
}

fn engine_from_csv(input: &str) -> PaymentsEngine {
    let mut engine = PaymentsEngine::new();
    for record in parse_rows(input) {
        assert!(engine.try_apply(record), "arithmetic overflow");
    }
    assert!(engine.check_invariants());
    engine
}

fn acc(engine: &PaymentsEngine, client: u16) -> Account {
    engine.account(client).expect("account not found")
}

#[test]
fn deposit_increases_available_and_total() {
    let e = engine_from_csv("type,client,tx,amount\ndeposit,1,1,100.0");
    let a = acc(&e, 1);
    assert_eq!(value(a.available), d("100.0"));
    assert_eq!(value(a.held), Decimal::ZERO);
    assert_eq!(value(a.total()), d("100.0"));
    assert!(!a.locked);
}

#[test]
fn withdrawal_decreases_available() {
    let e = engine_from_csv("type,client,tx,amount\ndeposit,1,1,100.0\nwithdrawal,1,2,30.0");
    assert_eq!(value(acc(&e, 1).available), d("70.0"));
}

#[test]
fn withdrawal_fails_if_insufficient_funds() {
    let e = engine_from_csv("type,client,tx,amount\ndeposit,1,1,50.0\nwithdrawal,1,2,100.0");
    assert_eq!(value(acc(&e, 1).available), d("50.0"));
}

#[test]
fn withdrawal_fails_on_locked_account() {
    let e = engine_from_csv(
        "type,client,tx,amount\ndeposit,1,1,100.0\ndispute,1,1,\nchargeback,1,1,\nwithdrawal,1,2,10.0",
    );
    let a = acc(&e, 1);
    assert!(a.locked);
    assert_eq!(value(a.available), Decimal::ZERO);
}

#[test]
fn dispute_moves_funds_to_held() {
    let e = engine_from_csv("type,client,tx,amount\ndeposit,1,1,100.0\ndispute,1,1,");
    let a = acc(&e, 1);
    assert_eq!(value(a.available), Decimal::ZERO);
    assert_eq!(value(a.held), d("100.0"));
    assert_eq!(value(a.total()), d("100.0"));
}

#[test]
fn resolve_releases_held_funds() {
    let e = engine_from_csv("type,client,tx,amount\ndeposit,1,1,100.0\ndispute,1,1,\nresolve,1,1,");
    let a = acc(&e, 1);
    assert_eq!(value(a.available), d("100.0"));
    assert_eq!(value(a.held), Decimal::ZERO);
    assert!(!a.locked);
}

#[test]
fn chargeback_removes_held_and_locks_account() {
    let e = engine_from_csv(
        "type,client,tx,amount\ndeposit,1,1,100.0\ndispute,1,1,\nchargeback,1,1,",
    );
    let a = acc(&e, 1);
    assert_eq!(value(a.available), Decimal::ZERO);
    assert_eq!(value(a.held), Decimal::ZERO);
    assert_eq!(value(a.total()), Decimal::ZERO);
    assert!(a.locked);
}

#[test]
fn duplicate_tx_id_is_rejected() {
    let e = engine_from_csv("type,client,tx,amount\ndeposit,1,1,100.0\ndeposit,1,1,50.0");
    assert_eq!(value(acc(&e, 1).available), d("100.0"));
}

#[test]
fn dispute_on_unknown_tx_is_ignored() {
    let e = engine_from_csv("type,client,tx,amount\ndeposit,1,1,100.0\ndispute,1,999,");
    let a = acc(&e, 1);
    assert_eq!(value(a.available), d("100.0"));
    assert_eq!(value(a.held), Decimal::ZERO);
}

#[test]
fn chargeback_without_prior_dispute_is_ignored() {
    let e = engine_from_csv("type,client,tx,amount\ndeposit,1,1,100.0\nchargeback,1,1,");
    let a = acc(&e, 1);
    assert_eq!(value(a.available), d("100.0"));
    assert!(!a.locked);
}

#[test]
fn tx_id_reuse_after_resolve_is_rejected() {
    let e = engine_from_csv(
        "type,client,tx,amount\ndeposit,1,1,100.0\ndispute,1,1,\nresolve,1,1,\ndeposit,1,1,50.0",
    );
    assert_eq!(value(acc(&e, 1).available), d("100.0"));
}

#[test]
fn tx_id_reuse_after_chargeback_is_rejected() {
    let e = engine_from_csv(
        "type,client,tx,amount\ndeposit,1,1,100.0\ndispute,1,1,\nchargeback,1,1,\ndeposit,2,1,50.0",
    );
    assert!(e.account(2).is_none());
}

#[test]
fn cross_client_dispute_is_ignored() {
    let e = engine_from_csv("type,client,tx,amount\ndeposit,1,1,100.0\ndispute,2,1,");
    let a = acc(&e, 1);
    assert_eq!(value(a.available), d("100.0"));
    assert_eq!(value(a.held), Decimal::ZERO);
}

#[test]
fn invariant_held_never_negative_after_chargeback() {
    let e = engine_from_csv(
        "type,client,tx,amount\ndeposit,1,1,100.0\ndispute,1,1,\nchargeback,1,1,",
    );
    assert_eq!(value(acc(&e, 1).held), Decimal::ZERO);
}

#[test]
fn invariant_held_never_negative_after_resolve() {
    let e = engine_from_csv("type,client,tx,amount\ndeposit,1,1,100.0\ndispute,1,1,\nresolve,1,1,");
    assert_eq!(value(acc(&e, 1).held), Decimal::ZERO);
}

#[test]
fn invariant_tx_not_in_both_maps_after_resolve() {
    let e = engine_from_csv("type,client,tx,amount\ndeposit,1,1,100.0\ndispute,1,1,\nresolve,1,1,");
    assert!(e.is_finalised(1));
    assert!(!e.has_transaction(1));
}

#[test]
fn invariant_tx_not_in_both_maps_after_chargeback() {
    let e = engine_from_csv(
        "type,client,tx,amount\ndeposit,1,1,100.0\ndispute,1,1,\nchargeback,1,1,",
    );
    assert!(e.is_finalised(1));
    assert!(!e.has_transaction(1));
}

#[test]
fn invariant_held_correct_across_multiple_disputes() {
    let e = engine_from_csv(
        "type,client,tx,amount\ndeposit,1,1,40.0\ndeposit,1,2,60.0\ndispute,1,1,\ndispute,1,2,",
    );
    let a = acc(&e, 1);
    assert_eq!(value(a.held), d("100.0"));
    assert!(value(a.held) >= Decimal::ZERO);
}

#[test]
fn invariant_held_correct_after_partial_resolve() {
    let e = engine_from_csv(
        "type,client,tx,amount\ndeposit,1,1,40.0\ndeposit,1,2,60.0\ndispute,1,1,\ndispute,1,2,\nresolve,1,1,",
    );
    let a = acc(&e, 1);
    assert_eq!(value(a.held), d("60.0"));
    assert!(value(a.held) >= Decimal::ZERO);
}

#[test]
fn invariant_multi_client_independent() {
    let e = engine_from_csv(
        "type,client,tx,amount\n\
         deposit,1,1,100.0\ndeposit,2,2,200.0\n\
         dispute,1,1,\ndispute,2,2,\n\
         chargeback,1,1,\nresolve,2,2,",
    );
    assert!(e.check_invariants());
    assert!(acc(&e, 1).locked);
    assert!(!acc(&e, 2).locked);
    assert_eq!(value(acc(&e, 1).held), Decimal::ZERO);
    assert_eq!(value(acc(&e, 2).held), Decimal::ZERO);
}
