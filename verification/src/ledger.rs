//! The engine's rules over exact amounts.
//!
//! A [`Ledger`] is the engine's state with every amount taken by its value
//! (an integer count of `10^-28` units), and [`step`] is what one transaction
//! does to it.  The engine follows these rules exactly whenever its decimal
//! arithmetic needs no rounding (see `PaymentsEngine::apply`).  The laws of
//! the engine are proved here, over this model.
use crate::model::TxType;
use vstd::prelude::*;

verus! {

/// The number of distinct transaction ids (`u32` values).
pub open spec fn tx_id_count() -> nat {
    0x1_0000_0000
}

/// A client's balances, by value.
pub struct AccountState {
    pub available: int,
    pub held: int,
    pub locked: bool,
}

/// A stored transaction, by value.
pub struct TxState {
    pub client: u16,
    pub amount: int,
    pub disputed: bool,
    pub tx_type: TxType,
}

/// The whole state: live accounts, transactions open to dispute, and the
/// ids retired by a resolve or chargeback.
pub struct Ledger {
    pub accounts: Map<u16, AccountState>,
    pub transactions: Map<u32, TxState>,
    pub finalised: Set<u32>,
}

/// One input row, by value.
pub struct Event {
    pub tx_type: TxType,
    pub client: u16,
    pub tx: u32,
    pub amount: Option<int>,
}

pub open spec fn empty_ledger() -> Ledger {
    Ledger { accounts: Map::empty(), transactions: Map::empty(), finalised: Set::empty() }
}

pub open spec fn new_account() -> AccountState {
    AccountState { available: 0, held: 0, locked: false }
}

/// The client's account, or the fresh one that a first transaction creates.
pub open spec fn account_or_new(l: Ledger, client: u16) -> AccountState {
    if l.accounts.contains_key(client) {
        l.accounts[client]
    } else {
        new_account()
    }
}

/// Whether the id was already used by a deposit or withdrawal.
pub open spec fn tx_id_taken(l: Ledger, tx: u32) -> bool {
    l.transactions.contains_key(tx) || l.finalised.contains(tx)
}

/// A deposit: rejected without an amount, with an amount that is not
/// positive, with an id already used, or on a locked account; otherwise the
/// account is created if new, the amount is added to `available`, and the
/// deposit is stored.
pub open spec fn deposit(l: Ledger, client: u16, tx: u32, amount: Option<int>) -> Ledger {
    match amount {
        None => l,
        Some(a) => if a <= 0 || tx_id_taken(l, tx) {
            l
        } else {
            let acc = account_or_new(l, client);
            if acc.locked {
                l
            } else {
                Ledger {
                    accounts: l.accounts.insert(
                        client,
                        AccountState { available: acc.available + a, ..acc },
                    ),
                    transactions: l.transactions.insert(
                        tx,
                        TxState { client, amount: a, disputed: false, tx_type: TxType::Deposit },
                    ),
                    finalised: l.finalised,
                }
            }
        },
    }
}

/// A withdrawal: as a deposit, and also rejected where `available` is below
/// the amount; otherwise the amount is taken from `available`.  A rejected
/// withdrawal changes nothing: only a valid one opens an account.
pub open spec fn withdrawal(l: Ledger, client: u16, tx: u32, amount: Option<int>) -> Ledger {
    match amount {
        None => l,
        Some(a) => if a <= 0 || tx_id_taken(l, tx) {
            l
        } else {
            let acc = account_or_new(l, client);
            if acc.locked || acc.available < a {
                l
            } else {
                Ledger {
                    accounts: l.accounts.insert(
                        client,
                        AccountState { available: acc.available - a, ..acc },
                    ),
                    transactions: l.transactions.insert(
                        tx,
                        TxState { client, amount: a, disputed: false, tx_type: TxType::Withdrawal },
                    ),
                    finalised: l.finalised,
                }
            }
        },
    }
}

/// A dispute: only of a stored, undisputed deposit of the same client; its
/// amount moves from `available` to `held`.
pub open spec fn dispute(l: Ledger, client: u16, tx: u32) -> Ledger {
    if !l.transactions.contains_key(tx) {
        l
    } else {
        let t = l.transactions[tx];
        if t.client != client || t.disputed || t.tx_type != TxType::Deposit {
            l
        } else {
            let acc = account_or_new(l, client);
            Ledger {
                accounts: l.accounts.insert(
                    client,
                    AccountState {
                        available: acc.available - t.amount,
                        held: acc.held + t.amount,
                        locked: acc.locked,
                    },
                ),
                transactions: l.transactions.insert(tx, TxState { disputed: true, ..t }),
                finalised: l.finalised,
            }
        }
    }
}

/// A resolve: only of a disputed transaction of the same client; its amount
/// moves back from `held` to `available`, and its id is retired.
pub open spec fn resolve(l: Ledger, client: u16, tx: u32) -> Ledger {
    if !l.transactions.contains_key(tx) {
        l
    } else {
        let t = l.transactions[tx];
        if t.client != client || !t.disputed {
            l
        } else {
            let acc = account_or_new(l, client);
            Ledger {
                accounts: l.accounts.insert(
                    client,
                    AccountState {
                        available: acc.available + t.amount,
                        held: acc.held - t.amount,
                        locked: acc.locked,
                    },
                ),
                transactions: l.transactions.remove(tx),
                finalised: l.finalised.insert(tx),
            }
        }
    }
}

/// A chargeback: only of a disputed transaction of the same client; its
/// amount leaves `held`, the account is locked, and the id is retired.
pub open spec fn chargeback(l: Ledger, client: u16, tx: u32) -> Ledger {
    if !l.transactions.contains_key(tx) {
        l
    } else {
        let t = l.transactions[tx];
        if t.client != client || !t.disputed {
            l
        } else {
            let acc = account_or_new(l, client);
            Ledger {
                accounts: l.accounts.insert(
                    client,
                    AccountState {
                        available: acc.available,
                        held: acc.held - t.amount,
                        locked: true,
                    },
                ),
                transactions: l.transactions.remove(tx),
                finalised: l.finalised.insert(tx),
            }
        }
    }
}

/// What one input row does to the ledger.
pub open spec fn step(l: Ledger, e: Event) -> Ledger {
    match e.tx_type {
        TxType::Deposit => deposit(l, e.client, e.tx, e.amount),
        TxType::Withdrawal => withdrawal(l, e.client, e.tx, e.amount),
        TxType::Dispute => dispute(l, e.client, e.tx),
        TxType::Resolve => resolve(l, e.client, e.tx),
        TxType::Chargeback => chargeback(l, e.client, e.tx),
    }
}

/// What a sequence of rows does, in order.
pub open spec fn run(l: Ledger, events: Seq<Event>) -> Ledger
    decreases events.len(),
{
    if events.len() == 0 {
        l
    } else {
        step(run(l, events.drop_last()), events.last())
    }
}

/// `available + held` of the client; zero for a client without an account.
pub open spec fn total_of(l: Ledger, client: u16) -> int {
    let acc = account_or_new(l, client);
    acc.available + acc.held
}

/// The amount of transaction `id` that is held for `client`: its amount where
/// it is stored, belongs to the client and is under dispute; else zero.
pub open spec fn held_part(txs: Map<u32, TxState>, id: u32, client: u16) -> int {
    if txs.contains_key(id) && txs[id].client == client && txs[id].disputed {
        txs[id].amount
    } else {
        0
    }
}

/// The sum of `held_part` over the ids below `n`.
pub open spec fn held_sum(txs: Map<u32, TxState>, client: u16, n: nat) -> int
    decreases n,
{
    if n == 0 {
        0
    } else {
        held_sum(txs, client, (n - 1) as nat) + held_part(txs, (n - 1) as u32, client)
    }
}

/// The sum of the amounts of the client's disputed transactions.
pub open spec fn disputed_total(txs: Map<u32, TxState>, client: u16) -> int {
    held_sum(txs, client, tx_id_count())
}

/// The state invariant:
/// - every stored transaction has a positive amount, belongs to a client
///   with an account, and is a deposit where it is disputed;
/// - every account's `held` is the sum of its disputed transactions;
/// - no retired id is still stored.
pub open spec fn consistent(l: Ledger) -> bool {
    &&& forall|id: u32|
        #![trigger l.transactions[id]]
        l.transactions.contains_key(id) ==> {
            &&& l.transactions[id].amount > 0
            &&& l.accounts.contains_key(l.transactions[id].client)
            &&& (l.transactions[id].disputed ==> l.transactions[id].tx_type == TxType::Deposit)
        }
    &&& forall|c: u16|
        #![trigger l.accounts[c]]
        l.accounts.contains_key(c) ==> l.accounts[c].held == disputed_total(l.transactions, c)
    &&& forall|id: u32| l.finalised.contains(id) ==> !l.transactions.contains_key(id)
}

/// Changing the map at one id changes the sum by the change of that id's
/// part, once the sum reaches past the id.
proof fn lemma_held_sum_frame(t1: Map<u32, TxState>, t2: Map<u32, TxState>, c: u16, k: u32, n: nat)
    requires
        n <= tx_id_count(),
        forall|id: u32| id != k ==> held_part(t1, id, c) == held_part(t2, id, c),
    ensures
        held_sum(t2, c, n) == held_sum(t1, c, n) + if (k as nat) < n {
            held_part(t2, k, c) - held_part(t1, k, c)
        } else {
            0
        },
    decreases n,
{
    if n > 0 {
        lemma_held_sum_frame(t1, t2, c, k, (n - 1) as nat);
        let id = (n - 1) as u32;
        assert(id as nat == n - 1);
        if id != k {
            assert(held_part(t1, id, c) == held_part(t2, id, c));
        }
    }
}

/// Where no id holds anything for the client, the sum is zero.
proof fn lemma_held_sum_zero(t: Map<u32, TxState>, c: u16, n: nat)
    requires
        forall|id: u32| held_part(t, id, c) == 0,
    ensures
        held_sum(t, c, n) == 0,
    decreases n,
{
    if n > 0 {
        lemma_held_sum_zero(t, c, (n - 1) as nat);
        assert(held_part(t, (n - 1) as u32, c) == 0);
    }
}

/// Where no id holds a negative part for the client, the sum is not negative.
proof fn lemma_held_sum_nonneg(t: Map<u32, TxState>, c: u16, n: nat)
    requires
        forall|id: u32| held_part(t, id, c) >= 0,
    ensures
        held_sum(t, c, n) >= 0,
    decreases n,
{
    if n > 0 {
        lemma_held_sum_nonneg(t, c, (n - 1) as nat);
        assert(held_part(t, (n - 1) as u32, c) >= 0);
    }
}

/// Changing the transaction map at id `k` only moves the disputed total of the
/// clients concerned by the change of `k`'s part.
proof fn lemma_disputed_total_frame(t1: Map<u32, TxState>, t2: Map<u32, TxState>, k: u32)
    requires
        forall|id: u32| id != k ==> t1.contains_key(id) == t2.contains_key(id),
        forall|id: u32| id != k && t1.contains_key(id) ==> t1[id] == t2[id],
    ensures
        forall|c: u16|
            #[trigger] disputed_total(t2, c) == disputed_total(t1, c) + held_part(t2, k, c)
                - held_part(t1, k, c),
{
    assert forall|c: u16|
        #[trigger] disputed_total(t2, c) == disputed_total(t1, c) + held_part(t2, k, c) - held_part(
            t1,
            k,
            c,
        ) by {
        assert forall|id: u32| id != k implies held_part(t1, id, c) == held_part(t2, id, c) by {}
        lemma_held_sum_frame(t1, t2, c, k, tx_id_count());
    }
}

/// In a consistent ledger no account holds a negative amount.
pub proof fn lemma_held_never_negative(l: Ledger)
    requires
        consistent(l),
    ensures
        forall|c: u16| #[trigger] l.accounts.contains_key(c) ==> l.accounts[c].held >= 0,
{
    assert forall|c: u16| #[trigger] l.accounts.contains_key(c) implies l.accounts[c].held >= 0 by {
        assert forall|id: u32| held_part(l.transactions, id, c) >= 0 by {
            if l.transactions.contains_key(id) {
                assert(l.transactions[id].amount > 0);
            }
        }
        lemma_held_sum_nonneg(l.transactions, c, tx_id_count());
    }
}

/// The empty ledger is consistent.
pub proof fn lemma_empty_consistent()
    ensures
        consistent(empty_ledger()),
{
}

/// Every transaction keeps the ledger consistent.
pub proof fn lemma_step_consistent(l: Ledger, e: Event)
    requires
        consistent(l),
    ensures
        consistent(step(l, e)),
{
    match e.tx_type {
        TxType::Deposit => lemma_deposit_consistent(l, e.client, e.tx, e.amount, TxType::Deposit),
        TxType::Withdrawal => lemma_deposit_consistent(l, e.client, e.tx, e.amount, TxType::Withdrawal),
        TxType::Dispute => lemma_dispute_consistent(l, e.client, e.tx),
        TxType::Resolve => lemma_settle_consistent(l, e.client, e.tx, false),
        TxType::Chargeback => lemma_settle_consistent(l, e.client, e.tx, true),
    }
}

/// Every sequence of transactions keeps the ledger consistent.
pub proof fn lemma_run_consistent(l: Ledger, events: Seq<Event>)
    requires
        consistent(l),
    ensures
        consistent(run(l, events)),
    decreases events.len(),
{
    if events.len() > 0 {
        lemma_run_consistent(l, events.drop_last());
        lemma_step_consistent(run(l, events.drop_last()), events.last());
    }
}

/// A client without an account has nothing disputed.
proof fn lemma_no_account_nothing_held(l: Ledger, c: u16)
    requires
        consistent(l),
        !l.accounts.contains_key(c),
    ensures
        disputed_total(l.transactions, c) == 0,
{
    assert forall|id: u32| held_part(l.transactions, id, c) == 0 by {
        if l.transactions.contains_key(id) {
            assert(l.accounts.contains_key(l.transactions[id].client));
        }
    }
    lemma_held_sum_zero(l.transactions, c, tx_id_count());
}

proof fn lemma_deposit_consistent(l: Ledger, c: u16, tx: u32, amount: Option<int>, kind: TxType)
    requires
        consistent(l),
        kind == TxType::Deposit || kind == TxType::Withdrawal,
    ensures
        consistent(
            if kind == TxType::Deposit {
                deposit(l, c, tx, amount)
            } else {
                withdrawal(l, c, tx, amount)
            },
        ),
{
    let l2 = if kind == TxType::Deposit {
        deposit(l, c, tx, amount)
    } else {
        withdrawal(l, c, tx, amount)
    };
    if !l.accounts.contains_key(c) {
        lemma_no_account_nothing_held(l, c);
    }
    if l2.transactions != l.transactions {
        let t2 = l2.transactions;
        assert(t2 == l.transactions.insert(tx, t2[tx]));
        assert(!t2[tx].disputed);
        lemma_disputed_total_frame(l.transactions, t2, tx);
        assert(held_part(l.transactions, tx, c) == 0);
    }
    assert(consistent(l2));
}

proof fn lemma_dispute_consistent(l: Ledger, c: u16, tx: u32)
    requires
        consistent(l),
    ensures
        consistent(dispute(l, c, tx)),
{
    let l2 = dispute(l, c, tx);
    if l2 != l {
        let t = l.transactions[tx];
        assert(l.accounts.contains_key(t.client));
        lemma_disputed_total_frame(l.transactions, l2.transactions, tx);
    }
}

proof fn lemma_settle_consistent(l: Ledger, c: u16, tx: u32, charge: bool)
    requires
        consistent(l),
    ensures
        consistent(
            if charge {
                chargeback(l, c, tx)
            } else {
                resolve(l, c, tx)
            },
        ),
{
    let l2 = if charge {
        chargeback(l, c, tx)
    } else {
        resolve(l, c, tx)
    };
    if l2 != l {
        let t = l.transactions[tx];
        assert(l.accounts.contains_key(t.client));
        lemma_disputed_total_frame(l.transactions, l2.transactions, tx);
    }
}

/// A dispute never changes any client's total (`available + held`).
pub proof fn lemma_dispute_preserves_total(l: Ledger, client: u16, tx: u32)
    ensures
        forall|c: u16| #[trigger] total_of(dispute(l, client, tx), c) == total_of(l, c),
{
}

/// A resolve never changes any client's total (`available + held`).
pub proof fn lemma_resolve_preserves_total(l: Ledger, client: u16, tx: u32)
    ensures
        forall|c: u16| #[trigger] total_of(resolve(l, client, tx), c) == total_of(l, c),
{
}

/// A dispute followed by a resolve of the same deposit leaves every account
/// as it was; the deposit's id is retired.
pub proof fn lemma_dispute_then_resolve(l: Ledger, client: u16, tx: u32)
    requires
        l.transactions.contains_key(tx),
        l.transactions[tx].client == client,
        !l.transactions[tx].disputed,
        l.transactions[tx].tx_type == TxType::Deposit,
        l.accounts.contains_key(client),
    ensures
        resolve(dispute(l, client, tx), client, tx).accounts == l.accounts,
        resolve(dispute(l, client, tx), client, tx).transactions == l.transactions.remove(tx),
        resolve(dispute(l, client, tx), client, tx).finalised == l.finalised.insert(tx),
{
    let l2 = resolve(dispute(l, client, tx), client, tx);
    assert(l2.accounts =~= l.accounts);
    assert(l2.transactions =~= l.transactions.remove(tx));
}

/// A dispute followed by a chargeback of the same deposit takes its amount
/// from the client's funds for good: `available` keeps the reduction, `held`
/// is as before, the total drops by the amount, the account is locked, and
/// the id is retired.
pub proof fn lemma_dispute_then_chargeback(l: Ledger, client: u16, tx: u32)
    requires
        l.transactions.contains_key(tx),
        l.transactions[tx].client == client,
        !l.transactions[tx].disputed,
        l.transactions[tx].tx_type == TxType::Deposit,
        l.accounts.contains_key(client),
    ensures
        ({
            let l2 = chargeback(dispute(l, client, tx), client, tx);
            let before = l.accounts[client];
            let amount = l.transactions[tx].amount;
            &&& l2.accounts == l.accounts.insert(
                client,
                AccountState { available: before.available - amount, held: before.held, locked: true },
            )
            &&& total_of(l2, client) == total_of(l, client) - amount
            &&& l2.transactions == l.transactions.remove(tx)
            &&& l2.finalised == l.finalised.insert(tx)
        }),
{
    let l2 = chargeback(dispute(l, client, tx), client, tx);
    let before = l.accounts[client];
    let amount = l.transactions[tx].amount;
    assert(l2.accounts =~= l.accounts.insert(
        client,
        AccountState { available: before.available - amount, held: before.held, locked: true },
    ));
    assert(l2.transactions =~= l.transactions.remove(tx));
}

/// An accepted resolve or chargeback retires the transaction's id: it is no
/// longer stored and is recorded as finalised.
pub proof fn lemma_settle_retires_id(l: Ledger, e: Event)
    requires
        e.tx_type == TxType::Resolve || e.tx_type == TxType::Chargeback,
        l.transactions.contains_key(e.tx),
        l.transactions[e.tx].client == e.client,
        l.transactions[e.tx].disputed,
    ensures
        !step(l, e).transactions.contains_key(e.tx),
        step(l, e).finalised.contains(e.tx),
{
}

/// A deposit or withdrawal whose id was already used, by a stored or a
/// retired transaction, changes nothing.
pub proof fn lemma_reused_id_rejected(l: Ledger, e: Event)
    requires
        e.tx_type == TxType::Deposit || e.tx_type == TxType::Withdrawal,
        tx_id_taken(l, e.tx),
    ensures
        step(l, e) == l,
{
}

/// A deposit or withdrawal on a locked account changes nothing.
pub proof fn lemma_locked_rejects(l: Ledger, e: Event)
    requires
        e.tx_type == TxType::Deposit || e.tx_type == TxType::Withdrawal,
        l.accounts.contains_key(e.client),
        l.accounts[e.client].locked,
    ensures
        step(l, e) == l,
{
    assert(l.accounts.insert(e.client, l.accounts[e.client]) =~= l.accounts);
}

/// A deposit or withdrawal without a positive amount changes nothing.
pub proof fn lemma_non_positive_amount_rejected(l: Ledger, e: Event)
    requires
        e.tx_type == TxType::Deposit || e.tx_type == TxType::Withdrawal,
        e.amount is None || e.amount->0 <= 0,
    ensures
        step(l, e) == l,
{
}

/// A dispute, resolve or chargeback of an unknown transaction, or naming
/// another client than the transaction's, changes nothing.
pub proof fn lemma_foreign_or_unknown_tx_ignored(l: Ledger, e: Event)
    requires
        e.tx_type == TxType::Dispute || e.tx_type == TxType::Resolve || e.tx_type
            == TxType::Chargeback,
        !l.transactions.contains_key(e.tx) || l.transactions[e.tx].client != e.client,
    ensures
        step(l, e) == l,
{
}

/// A resolve or chargeback of a transaction that is not under dispute
/// changes nothing.
pub proof fn lemma_settle_requires_dispute(l: Ledger, e: Event)
    requires
        e.tx_type == TxType::Resolve || e.tx_type == TxType::Chargeback,
        l.transactions.contains_key(e.tx),
        !l.transactions[e.tx].disputed,
    ensures
        step(l, e) == l,
{
}

/// An accepted deposit adds exactly its amount to `available`, leaves `held`
/// as it was, and is stored, undisputed.
pub proof fn lemma_deposit_adds_amount(l: Ledger, client: u16, tx: u32, a: int)
    requires
        a > 0,
        !tx_id_taken(l, tx),
        !account_or_new(l, client).locked,
    ensures
        ({
            let l2 = deposit(l, client, tx, Some(a));
            let before = account_or_new(l, client);
            &&& l2.accounts[client] == AccountState {
                available: before.available + a,
                ..before
            }
            &&& l2.transactions[tx] == TxState {
                client,
                amount: a,
                disputed: false,
                tx_type: TxType::Deposit,
            }
        }),
{
}

/// Two accepted deposits add up: `available` grows by the sum of the amounts.
pub proof fn lemma_deposits_accumulate(l: Ledger, client: u16, tx1: u32, a1: int, tx2: u32, a2: int)
    requires
        a1 > 0,
        a2 > 0,
        tx1 != tx2,
        !tx_id_taken(l, tx1),
        !tx_id_taken(l, tx2),
        !account_or_new(l, client).locked,
    ensures
        account_or_new(deposit(deposit(l, client, tx1, Some(a1)), client, tx2, Some(a2)), client).available
            == account_or_new(l, client).available + a1 + a2,
{
}

/// A withdrawal never drives `available` below zero: where it was not
/// negative before, it is not negative after.
pub proof fn lemma_withdrawal_never_overdrafts(l: Ledger, client: u16, tx: u32, amount: Option<int>)
    requires
        account_or_new(l, client).available >= 0,
    ensures
        account_or_new(withdrawal(l, client, tx, amount), client).available >= 0,
{
}

/// Withdrawing what was just deposited, under a fresh id, brings `available`
/// back to what it was, where it was not negative; `held` does not move.
pub proof fn lemma_deposit_then_withdrawal(l: Ledger, client: u16, tx1: u32, tx2: u32, a: int)
    requires
        a > 0,
        account_or_new(l, client).available >= 0,
        tx1 != tx2,
        !tx_id_taken(l, tx1),
        !tx_id_taken(l, tx2),
        !account_or_new(l, client).locked,
    ensures
        ({
            let l2 = withdrawal(deposit(l, client, tx1, Some(a)), client, tx2, Some(a));
            &&& account_or_new(l2, client).available == account_or_new(l, client).available
            &&& account_or_new(l2, client).held == account_or_new(l, client).held
        }),
{
}

/// A withdrawal of more than is available is refused and changes nothing; in
/// particular it opens no account.
pub proof fn lemma_insufficient_funds_rejected(l: Ledger, client: u16, tx: u32, a: int)
    requires
        account_or_new(l, client).available < a,
    ensures
        withdrawal(l, client, tx, Some(a)) == l,
{
}

/// Only deposits can be disputed: a dispute of a stored withdrawal changes
/// nothing.
pub proof fn lemma_withdrawal_not_disputable(l: Ledger, client: u16, tx: u32)
    requires
        l.transactions.contains_key(tx),
        l.transactions[tx].tx_type == TxType::Withdrawal,
    ensures
        dispute(l, client, tx) == l,
{
}

/// Three accepted deposits add up: `available` grows by the sum of the
/// amounts, and `held` does not move.
pub proof fn lemma_three_deposits_accumulate(
    l: Ledger,
    client: u16,
    tx1: u32,
    a1: int,
    tx2: u32,
    a2: int,
    tx3: u32,
    a3: int,
)
    requires
        a1 > 0,
        a2 > 0,
        a3 > 0,
        tx1 != tx2,
        tx1 != tx3,
        tx2 != tx3,
        !tx_id_taken(l, tx1),
        !tx_id_taken(l, tx2),
        !tx_id_taken(l, tx3),
        !account_or_new(l, client).locked,
    ensures
        ({
            let l3 = deposit(
                deposit(deposit(l, client, tx1, Some(a1)), client, tx2, Some(a2)),
                client,
                tx3,
                Some(a3),
            );
            &&& account_or_new(l3, client).available == account_or_new(l, client).available + a1 + a2
                + a3
            &&& account_or_new(l3, client).held == account_or_new(l, client).held
        }),
{
}

/// No row ever takes an id out of the retired set.
pub proof fn law_step_keeps_retired_ids(l: Ledger, e: Event)
    ensures
        forall|id: u32| l.finalised.contains(id) ==> #[trigger] step(l, e).finalised.contains(id),
{
}

/// A deposit row: refused, changing nothing, without a positive amount, with
/// an id already used, or on a locked account; otherwise `available` rises by
/// exactly the amount, `held` and every other account are kept, the deposit
/// is stored undisputed, and the retired ids are kept.
pub proof fn law_step_deposit(l: Ledger, client: u16, tx: u32, amount: Option<int>)
    ensures
        ({
            let e = Event { tx_type: TxType::Deposit, client, tx, amount };
            let old = account_or_new(l, client);
            let accepted = amount is Some && amount->0 > 0 && !l.transactions.contains_key(tx)
                && !l.finalised.contains(tx) && !old.locked;
            &&& !accepted ==> step(l, e) == l
            &&& accepted ==> step(l, e) == Ledger {
                accounts: l.accounts.insert(
                    client,
                    AccountState { available: old.available + amount->0, held: old.held, locked: false },
                ),
                transactions: l.transactions.insert(
                    tx,
                    TxState { client, amount: amount->0, disputed: false, tx_type: TxType::Deposit },
                ),
                finalised: l.finalised,
            }
        }),
{
}

/// A withdrawal row: refused, changing nothing, without a positive amount,
/// with an id already used, on a locked account, or where `available` is below
/// the amount (held funds play no part); otherwise `available` drops by
/// exactly the amount, `held`, the lock and every other account are kept, the
/// withdrawal is stored so that its id is taken, and the retired ids are
/// kept.
pub proof fn law_step_withdrawal(l: Ledger, client: u16, tx: u32, amount: Option<int>)
    ensures
        ({
            let e = Event { tx_type: TxType::Withdrawal, client, tx, amount };
            let old = account_or_new(l, client);
            let accepted = amount is Some && amount->0 > 0 && !l.transactions.contains_key(tx)
                && !l.finalised.contains(tx) && !old.locked && amount->0 <= old.available;
            &&& !accepted ==> step(l, e) == l
            &&& accepted ==> step(l, e) == Ledger {
                accounts: l.accounts.insert(
                    client,
                    AccountState {
                        available: old.available - amount->0,
                        held: old.held,
                        locked: old.locked,
                    },
                ),
                transactions: l.transactions.insert(
                    tx,
                    TxState { client, amount: amount->0, disputed: false, tx_type: TxType::Withdrawal },
                ),
                finalised: l.finalised,
            }
        }),
{
}

/// A dispute row: accepted only for a stored, undisputed deposit of the same
/// client, otherwise changing nothing; when accepted the deposit's amount
/// moves from `available` to `held`, the lock is kept, and the deposit is
/// marked disputed.
pub proof fn law_step_dispute(l: Ledger, client: u16, tx: u32, amount: Option<int>)
    ensures
        ({
            let e = Event { tx_type: TxType::Dispute, client, tx, amount };
            let old = account_or_new(l, client);
            let t = l.transactions[tx];
            let accepted = l.transactions.contains_key(tx) && t.client == client && !t.disputed
                && t.tx_type == TxType::Deposit;
            &&& !accepted ==> step(l, e) == l
            &&& accepted ==> step(l, e) == Ledger {
                accounts: l.accounts.insert(
                    client,
                    AccountState {
                        available: old.available - t.amount,
                        held: old.held + t.amount,
                        locked: old.locked,
                    },
                ),
                transactions: l.transactions.insert(
                    tx,
                    TxState { client, amount: t.amount, disputed: true, tx_type: TxType::Deposit },
                ),
                finalised: l.finalised,
            }
        }),
{
}

/// A resolve row: accepted only for a stored, disputed transaction of the
/// same client, otherwise changing nothing; when accepted its amount moves
/// from `held` back to `available`, the lock is kept, and its id is retired.
pub proof fn law_step_resolve(l: Ledger, client: u16, tx: u32, amount: Option<int>)
    ensures
        ({
            let e = Event { tx_type: TxType::Resolve, client, tx, amount };
            let old = account_or_new(l, client);
            let t = l.transactions[tx];
            let accepted = l.transactions.contains_key(tx) && t.client == client && t.disputed;
            &&& !accepted ==> step(l, e) == l
            &&& accepted ==> step(l, e) == Ledger {
                accounts: l.accounts.insert(
                    client,
                    AccountState {
                        available: old.available + t.amount,
                        held: old.held - t.amount,
                        locked: old.locked,
                    },
                ),
                transactions: l.transactions.remove(tx),
                finalised: l.finalised.insert(tx),
            }
        }),
{
}

/// A chargeback row: accepted only for a stored, disputed transaction of the
/// same client, otherwise changing nothing; when accepted its amount leaves
/// `held`, `available` is left exactly as it was (a negative balance stays
/// owed), the account is locked, and the id is retired.
pub proof fn law_step_chargeback(l: Ledger, client: u16, tx: u32, amount: Option<int>)
    ensures
        ({
            let e = Event { tx_type: TxType::Chargeback, client, tx, amount };
            let old = account_or_new(l, client);
            let t = l.transactions[tx];
            let accepted = l.transactions.contains_key(tx) && t.client == client && t.disputed;
            &&& !accepted ==> step(l, e) == l
            &&& accepted ==> step(l, e) == Ledger {
                accounts: l.accounts.insert(
                    client,
                    AccountState { available: old.available, held: old.held - t.amount, locked: true },
                ),
                transactions: l.transactions.remove(tx),
                finalised: l.finalised.insert(tx),
            }
        }),
{
}

} // verus!
