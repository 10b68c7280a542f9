//! The payments engine: per-client account state, and the transactions that
//! remain open to dispute.
use crate::amount::{
    add_is_exact, decimal_add, decimal_sub, exact_add, exact_sub, in_range, lemma_exact_add_units,
    lemma_exact_in_range, lemma_exact_sub_units, rounded_dp, sub_is_exact, text_4dp, text_4dp_fits,
    Amount,
};
use crate::ledger::{self, AccountState, Event, Ledger, TxState};
use crate::model::{Account, AccountRecord, StoredTx, TransactionRecord, TxType};
use std::collections::HashMap;
use std::collections::HashSet;
use vstd::prelude::*;

verus! {

broadcast use vstd::std_specs::hash::group_hash_axioms;

/// Processes payment transactions and keeps per-client account state.
///
/// Three collections form the whole state:
/// - `accounts`: live balance per client;
/// - `transactions`: accepted deposits and withdrawals, open to dispute until
///   a resolve or chargeback retires them;
/// - `finalised_txs`: retired ids, kept only so that they are never reused.
pub struct PaymentsEngine {
    accounts: HashMap<u16, Account>,
    transactions: HashMap<u32, StoredTx>,
    finalised_txs: HashSet<u32>,
}

/// The engine's state as values.
pub struct EngineState {
    pub accounts: Map<u16, Account>,
    pub transactions: Map<u32, StoredTx>,
    pub finalised: Set<u32>,
}

impl View for PaymentsEngine {
    type V = EngineState;

    closed spec fn view(&self) -> EngineState {
        EngineState {
            accounts: self.accounts@,
            transactions: self.transactions@,
            finalised: self.finalised_txs@,
        }
    }
}

/// The balances of an account, by value.
pub open spec fn account_state(a: Account) -> AccountState {
    AccountState { available: a.available.units(), held: a.held.units(), locked: a.locked }
}

/// A stored transaction, by value.
pub open spec fn tx_state(t: StoredTx) -> TxState {
    TxState { client: t.client, amount: t.amount.units(), disputed: t.disputed, tx_type: t.tx_type }
}

pub open spec fn units_of(amount: Option<Amount>) -> Option<int> {
    match amount {
        Some(a) => Some(a.units()),
        None => None,
    }
}

/// An input row, by value.
pub open spec fn event_of(r: TransactionRecord) -> Event {
    Event { tx_type: r.tx_type, client: r.client, tx: r.tx, amount: units_of(r.amount) }
}

impl EngineState {
    pub open spec fn empty() -> EngineState {
        EngineState { accounts: Map::empty(), transactions: Map::empty(), finalised: Set::empty() }
    }

    /// The state with every amount taken by its value.
    pub open spec fn ledger(self) -> Ledger {
        Ledger {
            accounts: self.accounts.map_values(|a: Account| account_state(a)),
            transactions: self.transactions.map_values(|t: StoredTx| tx_state(t)),
            finalised: self.finalised,
        }
    }

    /// The client's account, or the fresh one a first transaction creates.
    pub open spec fn account_or_default(self, client: u16) -> Account {
        if self.accounts.contains_key(client) {
            self.accounts[client]
        } else {
            Account::spec_default()
        }
    }

    pub open spec fn tx_id_taken(self, tx: u32) -> bool {
        self.transactions.contains_key(tx) || self.finalised.contains(tx)
    }
}

/// What a deposit does; `None` where adding to `available` overflows.
pub open spec fn spec_deposit(s: EngineState, client: u16, tx: u32, amount: Option<Amount>) -> Option<
    EngineState,
> {
    match amount {
        None => Some(s),
        Some(a) => if a.units() <= 0 || s.tx_id_taken(tx) {
            Some(s)
        } else {
            let acc = s.account_or_default(client);
            if acc.locked {
                Some(s)
            } else {
                match decimal_add(acc.available, a) {
                    None => None,
                    Some(v) => Some(
                        EngineState {
                            accounts: s.accounts.insert(client, Account { available: v, ..acc }),
                            transactions: s.transactions.insert(
                                tx,
                                StoredTx {
                                    client,
                                    amount: a,
                                    disputed: false,
                                    tx_type: TxType::Deposit,
                                },
                            ),
                            finalised: s.finalised,
                        },
                    ),
                }
            }
        },
    }
}

/// What a withdrawal does; `None` where subtracting from `available`
/// overflows.
pub open spec fn spec_withdrawal(s: EngineState, client: u16, tx: u32, amount: Option<Amount>) -> Option<
    EngineState,
> {
    match amount {
        None => Some(s),
        Some(a) => if a.units() <= 0 || s.tx_id_taken(tx) {
            Some(s)
        } else {
            let acc = s.account_or_default(client);
            if acc.locked || acc.available.units() < a.units() {
                Some(s)
            } else {
                match decimal_sub(acc.available, a) {
                    None => None,
                    Some(v) => Some(
                        EngineState {
                            accounts: s.accounts.insert(client, Account { available: v, ..acc }),
                            transactions: s.transactions.insert(
                                tx,
                                StoredTx {
                                    client,
                                    amount: a,
                                    disputed: false,
                                    tx_type: TxType::Withdrawal,
                                },
                            ),
                            finalised: s.finalised,
                        },
                    ),
                }
            }
        },
    }
}

/// Whether a dispute of `tx` by `client` is accepted.
pub open spec fn dispute_accepted(s: EngineState, client: u16, tx: u32) -> bool {
    &&& s.transactions.contains_key(tx)
    &&& s.transactions[tx].client == client
    &&& !s.transactions[tx].disputed
    &&& s.transactions[tx].tx_type == TxType::Deposit
}

/// Whether a resolve or chargeback of `tx` by `client` is accepted.
pub open spec fn settle_accepted(s: EngineState, client: u16, tx: u32) -> bool {
    &&& s.transactions.contains_key(tx)
    &&& s.transactions[tx].client == client
    &&& s.transactions[tx].disputed
}

/// What a dispute does; `None` where moving the amount overflows.
pub open spec fn spec_dispute(s: EngineState, client: u16, tx: u32) -> Option<EngineState> {
    if !dispute_accepted(s, client, tx) {
        Some(s)
    } else {
        let t = s.transactions[tx];
        let acc = s.account_or_default(client);
        match (decimal_sub(acc.available, t.amount), decimal_add(acc.held, t.amount)) {
            (Some(av), Some(h)) => Some(
                EngineState {
                    accounts: s.accounts.insert(
                        client,
                        Account { available: av, held: h, locked: acc.locked },
                    ),
                    transactions: s.transactions.insert(tx, StoredTx { disputed: true, ..t }),
                    finalised: s.finalised,
                },
            ),
            _ => None,
        }
    }
}

/// What a resolve does; `None` where moving the amount overflows.
pub open spec fn spec_resolve(s: EngineState, client: u16, tx: u32) -> Option<EngineState> {
    if !settle_accepted(s, client, tx) {
        Some(s)
    } else {
        let t = s.transactions[tx];
        let acc = s.account_or_default(client);
        match (decimal_sub(acc.held, t.amount), decimal_add(acc.available, t.amount)) {
            (Some(h), Some(av)) => Some(
                EngineState {
                    accounts: s.accounts.insert(
                        client,
                        Account { available: av, held: h, locked: acc.locked },
                    ),
                    transactions: s.transactions.remove(tx),
                    finalised: s.finalised.insert(tx),
                },
            ),
            _ => None,
        }
    }
}

/// What a chargeback does; `None` where taking the amount from `held`
/// overflows.
pub open spec fn spec_chargeback(s: EngineState, client: u16, tx: u32) -> Option<EngineState> {
    if !settle_accepted(s, client, tx) {
        Some(s)
    } else {
        let t = s.transactions[tx];
        let acc = s.account_or_default(client);
        match decimal_sub(acc.held, t.amount) {
            Some(h) => Some(
                EngineState {
                    accounts: s.accounts.insert(
                        client,
                        Account { available: acc.available, held: h, locked: true },
                    ),
                    transactions: s.transactions.remove(tx),
                    finalised: s.finalised.insert(tx),
                },
            ),
            None => None,
        }
    }
}

/// What one row does to the engine; `None` exactly where the decimal
/// arithmetic it performs overflows (where the engine would panic).
pub open spec fn spec_apply(s: EngineState, r: TransactionRecord) -> Option<EngineState> {
    match r.tx_type {
        TxType::Deposit => spec_deposit(s, r.client, r.tx, r.amount),
        TxType::Withdrawal => spec_withdrawal(s, r.client, r.tx, r.amount),
        TxType::Dispute => spec_dispute(s, r.client, r.tx),
        TxType::Resolve => spec_resolve(s, r.client, r.tx),
        TxType::Chargeback => spec_chargeback(s, r.client, r.tx),
    }
}

/// Whether the addition that an accepted deposit performs needs no rounding.
pub open spec fn deposit_exact(s: EngineState, client: u16, tx: u32, amount: Option<Amount>) -> bool {
    let acc = s.account_or_default(client);
    match amount {
        Some(a) => a.units() > 0 && !s.tx_id_taken(tx) && !acc.locked ==> add_is_exact(
            acc.available,
            a,
        ),
        None => true,
    }
}

/// Whether the subtraction that an accepted withdrawal performs needs no
/// rounding.
pub open spec fn withdrawal_exact(s: EngineState, client: u16, tx: u32, amount: Option<Amount>) -> bool {
    let acc = s.account_or_default(client);
    match amount {
        Some(a) => a.units() > 0 && !s.tx_id_taken(tx) && !acc.locked && a.units()
            <= acc.available.units() ==> sub_is_exact(acc.available, a),
        None => true,
    }
}

/// Whether the decimal arithmetic that the row performs on this state needs no
/// rounding.
pub open spec fn apply_exact(s: EngineState, r: TransactionRecord) -> bool {
    let acc = s.account_or_default(r.client);
    match r.tx_type {
        TxType::Deposit => deposit_exact(s, r.client, r.tx, r.amount),
        TxType::Withdrawal => withdrawal_exact(s, r.client, r.tx, r.amount),
        TxType::Dispute => dispute_accepted(s, r.client, r.tx) ==> {
            let t = s.transactions[r.tx];
            sub_is_exact(acc.available, t.amount) && add_is_exact(acc.held, t.amount)
        },
        TxType::Resolve => settle_accepted(s, r.client, r.tx) ==> {
            let t = s.transactions[r.tx];
            sub_is_exact(acc.held, t.amount) && add_is_exact(acc.available, t.amount)
        },
        TxType::Chargeback => settle_accepted(s, r.client, r.tx) ==> {
            let t = s.transactions[r.tx];
            sub_is_exact(acc.held, t.amount)
        },
    }
}

/// `r` is the report row of `client`'s account `acc`: each amount rounded to
/// four fractional digits (half to even) and written with four digits.
pub open spec fn describes(r: AccountRecord, client: u16, acc: Account) -> bool {
    &&& r.client == client
    &&& r.available@ == text_4dp(rounded_dp(acc.available, 4))
    &&& r.held@ == text_4dp(rounded_dp(acc.held, 4))
    &&& acc.spec_total() is Some
    &&& r.total@ == text_4dp(rounded_dp(acc.spec_total()->0, 4))
    &&& r.locked == acc.locked
}

/// The account's report row can be built: its total does not overflow, and
/// each rounded amount can be written with four fractional digits.
pub open spec fn row_defined(acc: Account) -> bool {
    &&& acc.spec_total() is Some
    &&& text_4dp_fits(rounded_dp(acc.available, 4))
    &&& text_4dp_fits(rounded_dp(acc.held, 4))
    &&& text_4dp_fits(rounded_dp(acc.spec_total()->0, 4))
}

/// Every account's report row can be built.
pub open spec fn report_defined(s: EngineState) -> bool {
    forall|c: u16| #[trigger] s.accounts.contains_key(c) ==> row_defined(s.accounts[c])
}

/// `rows` is the report of the state: one row per account, in increasing
/// client order.
pub open spec fn is_report(s: EngineState, rows: Seq<AccountRecord>) -> bool {
    &&& forall|i: int|
        0 <= i < rows.len() ==> s.accounts.contains_key(#[trigger] rows[i].client) && describes(
            rows[i],
            rows[i].client,
            s.accounts[rows[i].client],
        )
    &&& forall|i: int, j: int| 0 <= i < j < rows.len() ==> rows[i].client < rows[j].client
    &&& forall|c: u16|
        #[trigger] s.accounts.contains_key(c) ==> exists|i: int|
            0 <= i < rows.len() && rows[i].client == c
}

/// The basic invariants of a state: no account holds a negative amount, and
/// no retired id is still stored.
pub open spec fn holds_invariants(s: EngineState) -> bool {
    &&& forall|c: u16| #[trigger] s.accounts.contains_key(c) ==> s.accounts[c].held.units() >= 0
    &&& forall|id: u32| #[trigger] s.finalised.contains(id) ==> !s.transactions.contains_key(id)
}

/// A consistent state passes `check_invariants`.
pub proof fn lemma_consistent_holds_invariants(s: EngineState)
    requires
        ledger::consistent(s.ledger()),
    ensures
        holds_invariants(s),
{
    ledger::lemma_held_never_negative(s.ledger());
    assert forall|c: u16| #[trigger] s.accounts.contains_key(c) implies s.accounts[c].held.units()
        >= 0 by {
        assert(s.ledger().accounts.contains_key(c));
    }
    assert forall|id: u32| #[trigger] s.finalised.contains(id) implies !s.transactions.contains_key(
        id,
    ) by {
        assert(s.ledger().finalised.contains(id));
        assert(!s.ledger().transactions.contains_key(id));
    }
}

/// The default account, by value, is the ledger's new account.
proof fn lemma_default_state()
    ensures
        account_state(Account::spec_default()) == ledger::new_account(),
{
    Amount::lemma_zero();
}

/// Taking an account by value commutes with falling back to the default.
proof fn lemma_account_or_default(s: EngineState, client: u16)
    ensures
        account_state(s.account_or_default(client)) == ledger::account_or_new(s.ledger(), client),
{
    lemma_default_state();
}


/// Every amount in the state lies in the range of a decimal.
pub open spec fn amounts_in_range(s: EngineState) -> bool {
    &&& forall|c: u16|
        #[trigger] s.accounts.contains_key(c) ==> in_range(s.accounts[c].available) && in_range(
            s.accounts[c].held,
        )
    &&& forall|id: u32| #[trigger] s.transactions.contains_key(id) ==> in_range(s.transactions[id].amount)
}

/// The row's amount, where it has one, lies in the range of a decimal.
pub open spec fn record_in_range(r: TransactionRecord) -> bool {
    r.amount matches Some(a) ==> in_range(a)
}

proof fn lemma_account_in_range(s: EngineState, client: u16)
    requires
        amounts_in_range(s),
    ensures
        in_range(s.account_or_default(client).available),
        in_range(s.account_or_default(client).held),
{
    Amount::lemma_zero();
}

proof fn lemma_deposit_follows_ledger(s: EngineState, client: u16, tx: u32, amount: Option<Amount>)
    requires
        amounts_in_range(s),
        amount matches Some(a) ==> in_range(a),
        deposit_exact(s, client, tx, amount),
    ensures
        spec_deposit(s, client, tx, amount) is Some,
        spec_deposit(s, client, tx, amount)->0.ledger() == ledger::deposit(
            s.ledger(),
            client,
            tx,
            units_of(amount),
        ),
        amounts_in_range(spec_deposit(s, client, tx, amount)->0),
{
    lemma_account_or_default(s, client);
    lemma_account_in_range(s, client);
    let acc = s.account_or_default(client);
    if let Some(a) = amount {
        if a.units() > 0 && !s.tx_id_taken(tx) && !acc.locked {
            lemma_exact_add_units(acc.available, a);
            lemma_exact_in_range(acc.available, a);
            let s2 = spec_deposit(s, client, tx, amount)->0;
            let new_acc = Account { available: exact_add(acc.available, a), ..acc };
            assert(s2.ledger().accounts =~= s.ledger().accounts.insert(client, account_state(new_acc)));
            assert(s2.ledger().transactions =~= s.ledger().transactions.insert(
                tx,
                tx_state(s2.transactions[tx]),
            ));
        }
    }
}

proof fn lemma_withdrawal_follows_ledger(s: EngineState, client: u16, tx: u32, amount: Option<Amount>)
    requires
        amounts_in_range(s),
        amount matches Some(a) ==> in_range(a),
        withdrawal_exact(s, client, tx, amount),
    ensures
        spec_withdrawal(s, client, tx, amount) is Some,
        spec_withdrawal(s, client, tx, amount)->0.ledger() == ledger::withdrawal(
            s.ledger(),
            client,
            tx,
            units_of(amount),
        ),
        amounts_in_range(spec_withdrawal(s, client, tx, amount)->0),
{
    lemma_account_or_default(s, client);
    lemma_account_in_range(s, client);
    let acc = s.account_or_default(client);
    if let Some(a) = amount {
        if a.units() > 0 && !s.tx_id_taken(tx) && !acc.locked && a.units() <= acc.available.units() {
            lemma_exact_sub_units(acc.available, a);
            lemma_exact_in_range(acc.available, a);
            let s2 = spec_withdrawal(s, client, tx, amount)->0;
            let new_acc = Account { available: exact_sub(acc.available, a), ..acc };
            assert(s2.ledger().accounts =~= s.ledger().accounts.insert(client, account_state(new_acc)));
            assert(s2.ledger().transactions =~= s.ledger().transactions.insert(
                tx,
                tx_state(s2.transactions[tx]),
            ));
        }
    }
}

proof fn lemma_dispute_follows_ledger(s: EngineState, client: u16, tx: u32)
    requires
        amounts_in_range(s),
        apply_exact(s, TransactionRecord { tx_type: TxType::Dispute, client, tx, amount: None }),
    ensures
        spec_dispute(s, client, tx) is Some,
        spec_dispute(s, client, tx)->0.ledger() == ledger::dispute(s.ledger(), client, tx),
        amounts_in_range(spec_dispute(s, client, tx)->0),
{
    lemma_account_or_default(s, client);
    lemma_account_in_range(s, client);
    let acc = s.account_or_default(client);
    if dispute_accepted(s, client, tx) {
        let t = s.transactions[tx];
        lemma_exact_sub_units(acc.available, t.amount);
        lemma_exact_add_units(acc.held, t.amount);
        lemma_exact_in_range(acc.available, t.amount);
        lemma_exact_in_range(acc.held, t.amount);
        let s2 = spec_dispute(s, client, tx)->0;
        assert(s2.ledger().accounts =~= s.ledger().accounts.insert(
            client,
            account_state(s2.accounts[client]),
        ));
        assert(s2.ledger().transactions =~= s.ledger().transactions.insert(
            tx,
            tx_state(s2.transactions[tx]),
        ));
    }
}

proof fn lemma_settle_follows_ledger(s: EngineState, client: u16, tx: u32, charge: bool)
    requires
        amounts_in_range(s),
        apply_exact(
            s,
            TransactionRecord {
                tx_type: if charge {
                    TxType::Chargeback
                } else {
                    TxType::Resolve
                },
                client,
                tx,
                amount: None,
            },
        ),
    ensures
        ({
            let r = if charge {
                spec_chargeback(s, client, tx)
            } else {
                spec_resolve(s, client, tx)
            };
            let l = if charge {
                ledger::chargeback(s.ledger(), client, tx)
            } else {
                ledger::resolve(s.ledger(), client, tx)
            };
            &&& r is Some
            &&& r->0.ledger() == l
            &&& amounts_in_range(r->0)
        }),
{
    lemma_account_or_default(s, client);
    lemma_account_in_range(s, client);
    let acc = s.account_or_default(client);
    if settle_accepted(s, client, tx) {
        let t = s.transactions[tx];
        lemma_exact_sub_units(acc.held, t.amount);
        if !charge {
            lemma_exact_add_units(acc.available, t.amount);
        }
        lemma_exact_in_range(acc.held, t.amount);
        lemma_exact_in_range(acc.available, t.amount);
        let s2 = if charge {
            spec_chargeback(s, client, tx)->0
        } else {
            spec_resolve(s, client, tx)->0
        };
        assert(s2.ledger().accounts =~= s.ledger().accounts.insert(
            client,
            account_state(s2.accounts[client]),
        ));
        assert(s2.ledger().transactions =~= s.ledger().transactions.remove(tx));
    }
}

/// Where its arithmetic needs no rounding, a row does to the engine's state,
/// taken by value, what the ledger rules say, and keeps every amount in range.
pub proof fn lemma_apply_follows_ledger(s: EngineState, r: TransactionRecord)
    requires
        amounts_in_range(s),
        record_in_range(r),
        apply_exact(s, r),
    ensures
        spec_apply(s, r) is Some,
        spec_apply(s, r)->0.ledger() == ledger::step(s.ledger(), event_of(r)),
        amounts_in_range(spec_apply(s, r)->0),
{
    match r.tx_type {
        TxType::Deposit => lemma_deposit_follows_ledger(s, r.client, r.tx, r.amount),
        TxType::Withdrawal => lemma_withdrawal_follows_ledger(s, r.client, r.tx, r.amount),
        TxType::Dispute => lemma_dispute_follows_ledger(s, r.client, r.tx),
        TxType::Resolve => lemma_settle_follows_ledger(s, r.client, r.tx, false),
        TxType::Chargeback => lemma_settle_follows_ledger(s, r.client, r.tx, true),
    }
}


/// What a sequence of rows does, in order; `None` where some row's decimal
/// arithmetic overflows.
pub open spec fn run_records(s: EngineState, rows: Seq<TransactionRecord>) -> Option<EngineState>
    decreases rows.len(),
{
    if rows.len() == 0 {
        Some(s)
    } else {
        match run_records(s, rows.drop_last()) {
            Some(s1) => spec_apply(s1, rows.last()),
            None => None,
        }
    }
}

/// Whether every row of the sequence, applied in order, needs no rounding.
pub open spec fn run_exact(s: EngineState, rows: Seq<TransactionRecord>) -> bool
    decreases rows.len(),
{
    if rows.len() == 0 {
        true
    } else {
        &&& run_exact(s, rows.drop_last())
        &&& match run_records(s, rows.drop_last()) {
            Some(s1) => apply_exact(s1, rows.last()),
            None => true,
        }
    }
}

/// The rows, by value.
pub open spec fn events_of(rows: Seq<TransactionRecord>) -> Seq<Event> {
    rows.map_values(|r: TransactionRecord| event_of(r))
}

/// Where no row needs rounding, a sequence of rows does to the engine's
/// state, taken by value, what the ledger rules say.
pub proof fn lemma_run_follows_ledger(s: EngineState, rows: Seq<TransactionRecord>)
    requires
        amounts_in_range(s),
        forall|i: int| 0 <= i < rows.len() ==> record_in_range(#[trigger] rows[i]),
        run_exact(s, rows),
    ensures
        run_records(s, rows) is Some,
        run_records(s, rows)->0.ledger() == ledger::run(s.ledger(), events_of(rows)),
        amounts_in_range(run_records(s, rows)->0),
    decreases rows.len(),
{
    if rows.len() > 0 {
        let init = rows.drop_last();
        assert forall|i: int| 0 <= i < init.len() implies record_in_range(#[trigger] init[i]) by {
            assert(init[i] == rows[i]);
        }
        lemma_run_follows_ledger(s, init);
        let s1 = run_records(s, init)->0;
        assert(record_in_range(rows[rows.len() - 1]));
        lemma_apply_follows_ledger(s1, rows.last());
        assert(events_of(rows).drop_last() =~= events_of(init));
        assert(events_of(rows).last() == event_of(rows.last()));
    }
}

/// From a new engine, every sequence of rows that needs no rounding leaves a
/// consistent state: every `held` is the sum of the client's disputed
/// deposits, so none is negative, and no retired id is still stored.
pub proof fn lemma_invariants_hold_after_any_run(rows: Seq<TransactionRecord>)
    requires
        forall|i: int| 0 <= i < rows.len() ==> record_in_range(#[trigger] rows[i]),
        run_exact(EngineState::empty(), rows),
    ensures
        run_records(EngineState::empty(), rows) is Some,
        ledger::consistent(run_records(EngineState::empty(), rows)->0.ledger()),
        holds_invariants(run_records(EngineState::empty(), rows)->0),
{
    let e = EngineState::empty();
    assert(e.ledger().accounts =~= Map::empty());
    assert(e.ledger().transactions =~= Map::empty());
    assert(e.ledger() == ledger::empty_ledger());
    lemma_run_follows_ledger(e, rows);
    ledger::lemma_empty_consistent();
    ledger::lemma_run_consistent(e.ledger(), events_of(rows));
    lemma_consistent_holds_invariants(run_records(e, rows)->0);
}

/// A dispute followed by a resolve of the same deposit, where neither needs
/// rounding, leaves every account's balances and lock as they were, and
/// retires the deposit's id.
pub proof fn lemma_dispute_then_resolve_restores(s: EngineState, client: u16, tx: u32)
    requires
        amounts_in_range(s),
        dispute_accepted(s, client, tx),
        s.accounts.contains_key(client),
        run_exact(
            s,
            seq![
                TransactionRecord { tx_type: TxType::Dispute, client, tx, amount: None },
                TransactionRecord { tx_type: TxType::Resolve, client, tx, amount: None },
            ],
        ),
    ensures
        ({
            let rows = seq![
                TransactionRecord { tx_type: TxType::Dispute, client, tx, amount: None },
                TransactionRecord { tx_type: TxType::Resolve, client, tx, amount: None },
            ];
            &&& run_records(s, rows) is Some
            &&& run_records(s, rows)->0.ledger().accounts == s.ledger().accounts
            &&& run_records(s, rows)->0.ledger().transactions == s.ledger().transactions.remove(tx)
            &&& run_records(s, rows)->0.finalised == s.finalised.insert(tx)
        }),
{
    let d = TransactionRecord { tx_type: TxType::Dispute, client, tx, amount: None };
    let r = TransactionRecord { tx_type: TxType::Resolve, client, tx, amount: None };
    let rows = seq![d, r];
    lemma_run_follows_ledger(s, rows);
    assert(events_of(rows) =~= seq![event_of(d), event_of(r)]);
    let l = s.ledger();
    assert(ledger::run(l, seq![event_of(d), event_of(r)]) == ledger::resolve(
        ledger::dispute(l, client, tx),
        client,
        tx,
    )) by {
        reveal_with_fuel(ledger::run, 3);
        assert(seq![event_of(d), event_of(r)].drop_last() =~= seq![event_of(d)]);
        assert(seq![event_of(d)].drop_last() =~= Seq::<Event>::empty());
    }
    assert(l.transactions.contains_key(tx));
    ledger::lemma_dispute_then_resolve(l, client, tx);
}

/// The clients of the rows, in order.
pub open spec fn clients_of(rows: Seq<AccountRecord>) -> Seq<u16> {
    rows.map_values(|r: AccountRecord| r.client)
}

/// Two states with the same accounts have the same report: the rows do not
/// depend on the order in which the accounts were created.
pub proof fn lemma_report_unique(
    s1: EngineState,
    s2: EngineState,
    rows1: Seq<AccountRecord>,
    rows2: Seq<AccountRecord>,
)
    requires
        s1.accounts == s2.accounts,
        is_report(s1, rows1),
        is_report(s2, rows2),
    ensures
        rows1.len() == rows2.len(),
        forall|i: int|
            0 <= i < rows1.len() ==> {
                &&& (#[trigger] rows1[i]).client == rows2[i].client
                &&& rows1[i].available@ == rows2[i].available@
                &&& rows1[i].held@ == rows2[i].held@
                &&& rows1[i].total@ == rows2[i].total@
                &&& rows1[i].locked == rows2[i].locked
            },
{
    let a = clients_of(rows1);
    let b = clients_of(rows2);
    assert forall|i: int| 0 <= i < a.len() implies b.contains(#[trigger] a[i]) by {
        assert(a[i] == rows1[i].client);
        assert(s2.accounts.contains_key(rows1[i].client));
        let j = choose|j: int| 0 <= j < rows2.len() && rows2[j].client == rows1[i].client;
        assert(b[j] == a[i]);
    }
    assert forall|j: int| 0 <= j < b.len() implies a.contains(#[trigger] b[j]) by {
        assert(b[j] == rows2[j].client);
        assert(s1.accounts.contains_key(rows2[j].client));
        let i = choose|i: int| 0 <= i < rows1.len() && rows1[i].client == rows2[j].client;
        assert(a[i] == b[j]);
    }
    assert forall|i: int, j: int| 0 <= i < j < a.len() implies a[i] < a[j] by {
        assert(rows1[i].client < rows1[j].client);
    }
    assert forall|i: int, j: int| 0 <= i < j < b.len() implies b[i] < b[j] by {
        assert(rows2[i].client < rows2[j].client);
    }
    lemma_sorted_same_members(a, b);
    assert forall|i: int| 0 <= i < rows1.len() implies {
        &&& (#[trigger] rows1[i]).client == rows2[i].client
        &&& rows1[i].available@ == rows2[i].available@
        &&& rows1[i].held@ == rows2[i].held@
        &&& rows1[i].total@ == rows2[i].total@
        &&& rows1[i].locked == rows2[i].locked
    } by {
        assert(a[i] == rows1[i].client && b[i] == rows2[i].client);
        assert(s1.accounts.contains_key(rows1[i].client));
        assert(s2.accounts.contains_key(rows2[i].client));
    }
}

/// Two strictly increasing sequences with the same members are equal.
proof fn lemma_sorted_same_members(a: Seq<u16>, b: Seq<u16>)
    requires
        forall|i: int, j: int| 0 <= i < j < a.len() ==> a[i] < a[j],
        forall|i: int, j: int| 0 <= i < j < b.len() ==> b[i] < b[j],
        forall|i: int| 0 <= i < a.len() ==> b.contains(#[trigger] a[i]),
        forall|j: int| 0 <= j < b.len() ==> a.contains(#[trigger] b[j]),
    ensures
        a == b,
    decreases a.len(),
{
    if a.len() == 0 {
        if b.len() > 0 {
            assert(a.contains(b[0]));
        }
        assert(a =~= b);
    } else {
        assert(b.contains(a[0]));
        assert(a.contains(b[0]));
        let j = choose|j: int| 0 <= j < b.len() && b[j] == a[0];
        let k = choose|i: int| 0 <= i < a.len() && a[i] == b[0];
        assert(a[0] == b[0]) by {
            if k > 0 {
                assert(a[0] < a[k]);
            }
            if j > 0 {
                assert(b[0] < b[j]);
            }
        }
        let ta = a.drop_first();
        let tb = b.drop_first();
        assert forall|i: int| 0 <= i < ta.len() implies tb.contains(#[trigger] ta[i]) by {
            assert(ta[i] == a[i + 1]);
            assert(a[0] < a[i + 1]);
            assert(b.contains(a[i + 1]));
            let j2 = choose|j2: int| 0 <= j2 < b.len() && b[j2] == a[i + 1];
            assert(j2 != 0);
            assert(tb[j2 - 1] == b[j2]);
        }
        assert forall|j2: int| 0 <= j2 < tb.len() implies ta.contains(#[trigger] tb[j2]) by {
            assert(tb[j2] == b[j2 + 1]);
            assert(b[0] < b[j2 + 1]);
            assert(a.contains(b[j2 + 1]));
            let i = choose|i: int| 0 <= i < a.len() && a[i] == b[j2 + 1];
            assert(i != 0);
            assert(ta[i - 1] == a[i]);
        }
        lemma_sorted_same_members(ta, tb);
        assert(a =~= b) by {
            assert forall|i: int| 0 <= i < a.len() implies a[i] == b[i] by {
                if i > 0 {
                    assert(ta[i - 1] == a[i]);
                    assert(tb[i - 1] == b[i]);
                }
            }
        }
    }
}

impl PaymentsEngine {
    /// An engine with no accounts and no transactions.
    pub fn new() -> (e: Self)
        ensures
            e@ == EngineState::empty(),
            e@.ledger() == ledger::empty_ledger(),
            ledger::consistent(e@.ledger()),
            amounts_in_range(e@),
    {
        proof {
            ledger::lemma_empty_consistent();
        }
        let e = PaymentsEngine {
            accounts: HashMap::new(),
            transactions: HashMap::new(),
            finalised_txs: HashSet::new(),
        };
        assert(e@.ledger().accounts =~= Map::empty());
        assert(e@.ledger().transactions =~= Map::empty());
        e
    }

    fn account_or_default(&self, client: u16) -> (a: Account)
        ensures
            a == self@.account_or_default(client),
    {
        match self.accounts.get(&client) {
            Some(a) => *a,
            None => Account::default(),
        }
    }

    fn deposit(&mut self, client: u16, tx: u32, amount: Option<Amount>) -> (ok: bool)
        ensures
            amounts_in_range(old(self)@) ==> amounts_in_range(final(self)@),
            ok == spec_deposit(old(self)@, client, tx, amount) is Some,
            ok ==> final(self)@ == spec_deposit(old(self)@, client, tx, amount)->0,
            !ok ==> final(self)@ == old(self)@,
            deposit_exact(old(self)@, client, tx, amount) ==> ok && final(self)@.ledger()
                == ledger::deposit(
                old(self)@.ledger(),
                client,
                tx,
                units_of(amount),
            ),
    {
        proof {
            lemma_account_or_default(self@, client);
        }
        let a = match amount {
            Some(a) => a,
            None => return true,
        };
        if !Amount::zero().less_than(&a) {
            return true;
        }
        if self.transactions.contains_key(&tx) || self.finalised_txs.contains(&tx) {
            return true;
        }
        let acc = self.account_or_default(client);
        if acc.locked {
            return true;
        }
        match acc.available.checked_add(&a) {
            None => false,
            Some(v) => {
                let new_acc = Account { available: v, ..acc };
                proof {
                    use_type_invariant(&v);
                    Amount::lemma_in_range(v);
                    use_type_invariant(&acc.held);
                    Amount::lemma_in_range(acc.held);
                    use_type_invariant(&a);
                    Amount::lemma_in_range(a);
                }
                let stored = StoredTx { client, amount: a, disputed: false, tx_type: TxType::Deposit };
                self.accounts.insert(client, new_acc);
                self.transactions.insert(tx, stored);
                proof {
                    assert(self@.ledger().accounts =~= old(self)@.ledger().accounts.insert(
                        client,
                        account_state(new_acc),
                    ));
                    assert(self@.ledger().transactions =~= old(self)@.ledger().transactions.insert(
                        tx,
                        tx_state(stored),
                    ));
                }
                true
            },
        }
    }

    fn withdrawal(&mut self, client: u16, tx: u32, amount: Option<Amount>) -> (ok: bool)
        ensures
            amounts_in_range(old(self)@) ==> amounts_in_range(final(self)@),
            ok == spec_withdrawal(old(self)@, client, tx, amount) is Some,
            ok ==> final(self)@ == spec_withdrawal(old(self)@, client, tx, amount)->0,
            !ok ==> final(self)@ == old(self)@,
            ok && old(self)@.account_or_default(client).available.units() >= 0
                ==> final(self)@.account_or_default(client).available.units() >= 0,
            withdrawal_exact(old(self)@, client, tx, amount) ==> ok && final(self)@.ledger()
                == ledger::withdrawal(
                old(self)@.ledger(),
                client,
                tx,
                units_of(amount),
            ),
    {
        proof {
            lemma_account_or_default(self@, client);
        }
        let a = match amount {
            Some(a) => a,
            None => return true,
        };
        if !Amount::zero().less_than(&a) {
            return true;
        }
        if self.transactions.contains_key(&tx) || self.finalised_txs.contains(&tx) {
            return true;
        }
        let acc = self.account_or_default(client);
        if acc.locked || acc.available.less_than(&a) {
            return true;
        }
        match acc.available.checked_sub(&a) {
            None => false,
            Some(v) => {
                let new_acc = Account { available: v, ..acc };
                proof {
                    use_type_invariant(&v);
                    Amount::lemma_in_range(v);
                    use_type_invariant(&acc.held);
                    Amount::lemma_in_range(acc.held);
                    use_type_invariant(&a);
                    Amount::lemma_in_range(a);
                }
                let stored = StoredTx {
                    client,
                    amount: a,
                    disputed: false,
                    tx_type: TxType::Withdrawal,
                };
                self.accounts.insert(client, new_acc);
                self.transactions.insert(tx, stored);
                proof {
                    assert(self@.ledger().accounts =~= old(self)@.ledger().accounts.insert(
                        client,
                        account_state(new_acc),
                    ));
                    assert(self@.ledger().transactions =~= old(self)@.ledger().transactions.insert(
                        tx,
                        tx_state(stored),
                    ));
                }
                true
            },
        }
    }

    fn dispute(&mut self, client: u16, tx: u32) -> (ok: bool)
        ensures
            amounts_in_range(old(self)@) ==> amounts_in_range(final(self)@),
            ok == spec_dispute(old(self)@, client, tx) is Some,
            ok ==> final(self)@ == spec_dispute(old(self)@, client, tx)->0,
            !ok ==> final(self)@ == old(self)@,
            (dispute_accepted(old(self)@, client, tx) ==> {
                let acc = old(self)@.account_or_default(client);
                let t = old(self)@.transactions[tx];
                sub_is_exact(acc.available, t.amount) && add_is_exact(acc.held, t.amount)
            }) ==> ok && final(self)@.ledger() == ledger::dispute(old(self)@.ledger(), client, tx),
    {
        proof {
            lemma_account_or_default(self@, client);
        }
        let stored = match self.transactions.get(&tx) {
            Some(t) => *t,
            None => return true,
        };
        // only deposits are disputable: disputing a withdrawal would move funds to
        // held that were already taken from available
        if stored.client != client || stored.disputed || stored.tx_type != TxType::Deposit {
            return true;
        }
        // no locked check: a chargeback only blocks new deposits and withdrawals
        let acc = self.account_or_default(client);
        let available = match acc.available.checked_sub(&stored.amount) {
            Some(v) => v,
            None => return false,
        };
        let held = match acc.held.checked_add(&stored.amount) {
            Some(v) => v,
            None => return false,
        };
        let new_acc = Account { available, held, locked: acc.locked };
        let new_stored = StoredTx { disputed: true, ..stored };
        proof {
            use_type_invariant(&available);
            Amount::lemma_in_range(available);
            use_type_invariant(&held);
            Amount::lemma_in_range(held);
            use_type_invariant(&stored.amount);
            Amount::lemma_in_range(stored.amount);
        }
        self.transactions.insert(tx, new_stored);
        self.accounts.insert(client, new_acc);
        proof {
            assert(self@.ledger().accounts =~= old(self)@.ledger().accounts.insert(
                client,
                account_state(new_acc),
            ));
            assert(self@.ledger().transactions =~= old(self)@.ledger().transactions.insert(
                tx,
                tx_state(new_stored),
            ));
        }
        true
    }

    /// Resolve (`charge == false`) or chargeback (`charge == true`) of a disputed
    /// transaction.
    fn settle(&mut self, client: u16, tx: u32, charge: bool) -> (ok: bool)
        ensures
            amounts_in_range(old(self)@) ==> amounts_in_range(final(self)@),
            ({
                let spec = if charge {
                    spec_chargeback(old(self)@, client, tx)
                } else {
                    spec_resolve(old(self)@, client, tx)
                };
                &&& ok == spec is Some
                &&& ok ==> final(self)@ == spec->0
                &&& !ok ==> final(self)@ == old(self)@
            }),
            (settle_accepted(old(self)@, client, tx) ==> {
                let acc = old(self)@.account_or_default(client);
                let t = old(self)@.transactions[tx];
                sub_is_exact(acc.held, t.amount) && (charge || add_is_exact(acc.available, t.amount))
            }) ==> ok && final(self)@.ledger() == if charge {
                ledger::chargeback(old(self)@.ledger(), client, tx)
            } else {
                ledger::resolve(old(self)@.ledger(), client, tx)
            },
    {
        proof {
            lemma_account_or_default(self@, client);
        }
        let stored = match self.transactions.get(&tx) {
            Some(t) => *t,
            None => return true,
        };
        if stored.client != client || !stored.disputed {
            return true;
        }
        let acc = self.account_or_default(client);
        let held = match acc.held.checked_sub(&stored.amount) {
            Some(v) => v,
            None => return false,
        };
        let new_acc = if charge {
            Account { available: acc.available, held, locked: true }
        } else {
            let available = match acc.available.checked_add(&stored.amount) {
                Some(v) => v,
                None => return false,
            };
            Account { available, held, locked: acc.locked }
        };
        proof {
            use_type_invariant(&new_acc.available);
            Amount::lemma_in_range(new_acc.available);
            use_type_invariant(&new_acc.held);
            Amount::lemma_in_range(new_acc.held);
        }
        // retire the id rather than just dropping it, so that a later deposit or
        // withdrawal cannot reuse it
        self.transactions.remove(&tx);
        self.finalised_txs.insert(tx);
        self.accounts.insert(client, new_acc);
        proof {
            assert(self@.ledger().accounts =~= old(self)@.ledger().accounts.insert(
                client,
                account_state(new_acc),
            ));
            assert(self@.ledger().transactions =~= old(self)@.ledger().transactions.remove(tx));
        }
        true
    }

    /// Applies one row, unless its decimal arithmetic overflows; then the
    /// engine is left as it was and `false` is returned.
    pub fn try_apply(&mut self, record: TransactionRecord) -> (ok: bool)
        ensures
            ok == spec_apply(old(self)@, record) is Some,
            ok ==> final(self)@ == spec_apply(old(self)@, record)->0,
            !ok ==> final(self)@ == old(self)@,
            apply_exact(old(self)@, record) ==> ok && final(self)@.ledger() == ledger::step(
                old(self)@.ledger(),
                event_of(record),
            ),
            apply_exact(old(self)@, record) && ledger::consistent(old(self)@.ledger())
                ==> ledger::consistent(final(self)@.ledger()),
            record.tx_type == TxType::Withdrawal && ok && old(self)@.account_or_default(
                record.client,
            ).available.units() >= 0 ==> final(self)@.account_or_default(
                record.client,
            ).available.units() >= 0,
            amounts_in_range(old(self)@) ==> amounts_in_range(final(self)@),
    {
        proof {
            if ledger::consistent(self@.ledger()) {
                ledger::lemma_step_consistent(self@.ledger(), event_of(record));
            }
        }
        match record.tx_type {
            TxType::Deposit => self.deposit(record.client, record.tx, record.amount),
            TxType::Withdrawal => self.withdrawal(record.client, record.tx, record.amount),
            TxType::Dispute => self.dispute(record.client, record.tx),
            TxType::Resolve => self.settle(record.client, record.tx, false),
            TxType::Chargeback => self.settle(record.client, record.tx, true),
        }
    }

    /// Applies one row.  Where its arithmetic needs no rounding, the engine
    /// follows the ledger rules (`ledger::step`) exactly.
    pub fn apply(&mut self, record: TransactionRecord)
        requires
            spec_apply(old(self)@, record) is Some,
        ensures
            final(self)@ == spec_apply(old(self)@, record)->0,
            apply_exact(old(self)@, record) ==> final(self)@.ledger() == ledger::step(
                old(self)@.ledger(),
                event_of(record),
            ),
            apply_exact(old(self)@, record) && ledger::consistent(old(self)@.ledger())
                ==> ledger::consistent(final(self)@.ledger()),
            amounts_in_range(old(self)@) ==> amounts_in_range(final(self)@),
    {
        self.try_apply(record);
    }

    /// The report row of one account; `None` where its total overflows or an
    /// amount is too large to be written.
    fn record_for(client: u16, acc: &Account) -> (r: Option<AccountRecord>)
        ensures
            r is Some <==> row_defined(*acc),
            r matches Some(row) ==> describes(row, client, *acc),
    {
        let total = match acc.checked_total() {
            Some(t) => t,
            None => return None,
        };
        let available = acc.available.round_dp(4);
        let held = acc.held.round_dp(4);
        let total = total.round_dp(4);
        if !available.text_4dp_fits() || !held.text_4dp_fits() || !total.text_4dp_fits() {
            return None;
        }
        Some(
            AccountRecord {
                client,
                available: available.to_string_4dp(),
                held: held.to_string_4dp(),
                total: total.to_string_4dp(),
                locked: acc.locked,
            },
        )
    }

    /// The report of all accounts, sorted by client id; `None` where some
    /// account's total overflows or an amount is too large to be written.
    pub fn try_account_records(&self) -> (r: Option<Vec<AccountRecord>>)
        ensures
            r is Some <==> report_defined(self@),
            r matches Some(rows) ==> is_report(self@, rows@),
    {
        let mut rows: Vec<AccountRecord> = Vec::new();
        let mut c: u32 = 0;
        while c < 0x1_0000
            invariant
                c <= 0x1_0000,
                forall|k: u16| (k as u32) < c && #[trigger] self@.accounts.contains_key(k)
                    ==> row_defined(self@.accounts[k]),
                forall|i: int|
                    0 <= i < rows@.len() ==> (#[trigger] rows@[i].client as u32) < c
                        && self@.accounts.contains_key(rows@[i].client) && describes(
                        rows@[i],
                        rows@[i].client,
                        self@.accounts[rows@[i].client],
                    ),
                forall|i: int, j: int| 0 <= i < j < rows@.len() ==> rows@[i].client < rows@[j].client,
                forall|k: u16|
                    (k as u32) < c && #[trigger] self@.accounts.contains_key(k) ==> exists|i: int|
                        0 <= i < rows@.len() && rows@[i].client == k,
            decreases 0x1_0000 - c,
        {
            let client = c as u16;
            let ghost before = rows@;
            match self.accounts.get(&client) {
                Some(acc) => {
                    match Self::record_for(client, acc) {
                        Some(row) => {
                            rows.push(row);
                            assert(rows@[rows@.len() - 1].client == client);
                            assert forall|k: u16|
                                (k as u32) < c + 1 && #[trigger] self@.accounts.contains_key(
                                    k,
                                ) implies exists|i: int|
                                0 <= i < rows@.len() && rows@[i].client == k by {
                                if k != client {
                                    let i = choose|i: int|
                                        0 <= i < before.len() && before[i].client == k;
                                    assert(rows@[i] == before[i]);
                                }
                            }
                        },
                        None => return None,
                    }
                },
                None => {},
            }
            c = c + 1;
        }
        Some(rows)
    }

    /// The report of all accounts, sorted by client id.
    pub fn account_records(&self) -> (rows: Vec<AccountRecord>)
        requires
            report_defined(self@),
        ensures
            is_report(self@, rows@),
    {
        match self.try_account_records() {
            Some(rows) => rows,
            None => Vec::new(),
        }
    }

    /// Whether no account holds a negative amount and no retired id is still
    /// stored.
    pub fn check_invariants(&self) -> (ok: bool)
        ensures
            ok == holds_invariants(self@),
    {
        let zero = Amount::zero();
        let mut c: u32 = 0;
        while c < 0x1_0000
            invariant
                c <= 0x1_0000,
                zero.units() == 0,
                forall|k: u16| (k as u32) < c && #[trigger] self@.accounts.contains_key(k)
                    ==> self@.accounts[k].held.units() >= 0,
            decreases 0x1_0000 - c,
        {
            let client = c as u16;
            match self.accounts.get(&client) {
                Some(acc) => {
                    if acc.held.less_than(&zero) {
                        return false;
                    }
                },
                None => {},
            }
            c = c + 1;
        }
        assert forall|k: u16| #[trigger] self@.accounts.contains_key(k) implies self@.accounts[k].held.units() >= 0 by {
            assert((k as u32) < 0x1_0000);
        }
        for id in it: self.finalised_txs.iter()
            invariant
                it.seq().unref().to_set() == self@.finalised,
                forall|j: int|
                    0 <= j < it.index() ==> !self@.transactions.contains_key(
                        #[trigger] it.seq().unref()[j],
                    ),
        {
            if self.transactions.contains_key(id) {
                assert(self@.finalised.contains(*id));
                return false;
            }
        }
        true
    }

    /// The client's account, if it has one.
    pub fn account(&self, client: u16) -> (a: Option<Account>)
        ensures
            a == (if self@.accounts.contains_key(client) {
                Some(self@.accounts[client])
            } else {
                None
            }),
    {
        match self.accounts.get(&client) {
            Some(a) => Some(*a),
            None => None,
        }
    }

    /// Whether the transaction is stored, open to dispute.
    pub fn has_transaction(&self, tx: u32) -> (b: bool)
        ensures
            b == self@.transactions.contains_key(tx),
    {
        self.transactions.contains_key(&tx)
    }

    /// Whether the transaction's id was retired by a resolve or chargeback.
    pub fn is_finalised(&self, tx: u32) -> (b: bool)
        ensures
            b == self@.finalised.contains(tx),
    {
        self.finalised_txs.contains(&tx)
    }
}

} // verus!
