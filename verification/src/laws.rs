//! What each kind of row does to the engine's state, stated through the row
//! step `spec_apply` that `PaymentsEngine::try_apply` and `apply` follow: when
//! a row is accepted or refused, which entries it changes and which it keeps,
//! and how the balances move wherever the decimal arithmetic needs no
//! rounding.
use crate::amount::{
    add_is_exact, in_range, lemma_exact_add_units, lemma_exact_sub_units, sub_is_exact, Amount,
};
use crate::engine::{spec_apply, EngineState};
use crate::model::{StoredTx, TransactionRecord, TxType};
use vstd::prelude::*;

verus! {

/// No row ever takes an id out of the retired set: once a resolve or a
/// chargeback retires an id, it stays retired.
pub proof fn law_retired_ids_stay_retired(s: EngineState, r: TransactionRecord)
    ensures
        spec_apply(s, r) matches Some(s2) ==> forall|id: u32|
            s.finalised.contains(id) ==> #[trigger] s2.finalised.contains(id),
{
}

/// A deposit row is refused, changing nothing, where it has no positive
/// amount, its id was already used, or the client's account is locked.
/// Otherwise it stores the deposit under its id, undisputed, keeps every other
/// transaction, every retired id and every other account, opens the client's
/// account if new, keeps its `held` and lock, and, where the addition needs
/// no rounding, raises `available` by exactly the amount.
pub proof fn law_deposit_row(s: EngineState, client: u16, tx: u32, amount: Option<Amount>)
    ensures
        ({
            let r = TransactionRecord { tx_type: TxType::Deposit, client, tx, amount };
            let old = s.account_or_default(client);
            let accepted = amount is Some && amount->0.units() > 0 && !s.transactions.contains_key(tx)
                && !s.finalised.contains(tx) && !old.locked;
            &&& !accepted ==> spec_apply(s, r) == Some(s)
            &&& accepted && spec_apply(s, r) is Some ==> {
                let s2 = spec_apply(s, r)->0;
                &&& s2.transactions == s.transactions.insert(
                    tx,
                    StoredTx { client, amount: amount->0, disputed: false, tx_type: TxType::Deposit },
                )
                &&& s2.finalised == s.finalised
                &&& s2.accounts.contains_key(client)
                &&& s2.accounts.remove(client) == s.accounts.remove(client)
                &&& s2.accounts[client].held == old.held
                &&& !s2.accounts[client].locked
            }
            &&& accepted && in_range(old.available) && in_range(amount->0) && add_is_exact(
                old.available,
                amount->0,
            ) ==> spec_apply(s, r) is Some && spec_apply(s, r)->0.accounts[client].available.units()
                == old.available.units() + amount->0.units()
        }),
{
    let r = TransactionRecord { tx_type: TxType::Deposit, client, tx, amount };
    let old = s.account_or_default(client);
    if let Some(a) = amount {
        if spec_apply(s, r) is Some && a.units() > 0 && !s.tx_id_taken(tx) && !old.locked {
            let s2 = spec_apply(s, r)->0;
            assert(s2.accounts.remove(client) =~= s.accounts.remove(client));
        }
        if in_range(old.available) && in_range(a) && add_is_exact(old.available, a) {
            lemma_exact_add_units(old.available, a);
        }
    }
}

/// A withdrawal row is refused, changing nothing, where it has no positive
/// amount, its id was already used, the client's account is locked, or its
/// `available` is below the amount; funds held under dispute play no part.
/// Otherwise it stores the withdrawal under its id, so the id is taken,
/// keeps every other transaction, every retired id and every other account,
/// keeps the client's `held` and lock, and, where the subtraction needs no
/// rounding, lowers `available` by exactly the amount.
pub proof fn law_withdrawal_row(s: EngineState, client: u16, tx: u32, amount: Option<Amount>)
    ensures
        ({
            let r = TransactionRecord { tx_type: TxType::Withdrawal, client, tx, amount };
            let old = s.account_or_default(client);
            let accepted = amount is Some && amount->0.units() > 0 && !s.transactions.contains_key(tx)
                && !s.finalised.contains(tx) && !old.locked && amount->0.units()
                <= old.available.units();
            &&& !accepted ==> spec_apply(s, r) == Some(s)
            &&& accepted && spec_apply(s, r) is Some ==> {
                let s2 = spec_apply(s, r)->0;
                &&& s2.transactions == s.transactions.insert(
                    tx,
                    StoredTx {
                        client,
                        amount: amount->0,
                        disputed: false,
                        tx_type: TxType::Withdrawal,
                    },
                )
                &&& s2.finalised == s.finalised
                &&& s2.accounts.contains_key(client)
                &&& s2.accounts.remove(client) == s.accounts.remove(client)
                &&& s2.accounts[client].held == old.held
                &&& s2.accounts[client].locked == old.locked
            }
            &&& accepted && in_range(old.available) && in_range(amount->0) && sub_is_exact(
                old.available,
                amount->0,
            ) ==> spec_apply(s, r) is Some && spec_apply(s, r)->0.accounts[client].available.units()
                == old.available.units() - amount->0.units()
        }),
{
    let r = TransactionRecord { tx_type: TxType::Withdrawal, client, tx, amount };
    let old = s.account_or_default(client);
    if let Some(a) = amount {
        if spec_apply(s, r) is Some && a.units() > 0 && !s.tx_id_taken(tx) && !old.locked {
            let s2 = spec_apply(s, r)->0;
            assert(s2.accounts.remove(client) =~= s.accounts.remove(client));
        }
        if in_range(old.available) && in_range(a) && sub_is_exact(old.available, a) {
            lemma_exact_sub_units(old.available, a);
        }
    }
}

/// A dispute row is accepted only for a stored, undisputed deposit of the
/// same client; otherwise it changes nothing.  When accepted it marks that
/// deposit disputed (keeping its client, amount and type), keeps every other
/// transaction, every retired id, every other account and the client's lock,
/// and, where the arithmetic needs no rounding, moves exactly the deposit's
/// amount from `available` to `held`.
pub proof fn law_dispute_row(s: EngineState, client: u16, tx: u32, amount: Option<Amount>)
    ensures
        ({
            let r = TransactionRecord { tx_type: TxType::Dispute, client, tx, amount };
            let old = s.account_or_default(client);
            let t = s.transactions[tx];
            let accepted = s.transactions.contains_key(tx) && t.client == client && !t.disputed
                && t.tx_type == TxType::Deposit;
            &&& !accepted ==> spec_apply(s, r) == Some(s)
            &&& accepted && spec_apply(s, r) is Some ==> {
                let s2 = spec_apply(s, r)->0;
                &&& s2.transactions == s.transactions.insert(tx, StoredTx { disputed: true, ..t })
                &&& s2.finalised == s.finalised
                &&& s2.accounts.contains_key(client)
                &&& s2.accounts.remove(client) == s.accounts.remove(client)
                &&& s2.accounts[client].locked == old.locked
            }
            &&& accepted && in_range(old.available) && in_range(old.held) && in_range(t.amount)
                && sub_is_exact(old.available, t.amount) && add_is_exact(old.held, t.amount) ==> {
                let s2 = spec_apply(s, r)->0;
                &&& spec_apply(s, r) is Some
                &&& s2.accounts[client].available.units() == old.available.units()
                    - t.amount.units()
                &&& s2.accounts[client].held.units() == old.held.units() + t.amount.units()
            }
        }),
{
    let r = TransactionRecord { tx_type: TxType::Dispute, client, tx, amount };
    let old = s.account_or_default(client);
    let t = s.transactions[tx];
    if s.transactions.contains_key(tx) && t.client == client && !t.disputed && t.tx_type
        == TxType::Deposit {
        if spec_apply(s, r) is Some {
            let s2 = spec_apply(s, r)->0;
            assert(s2.accounts.remove(client) =~= s.accounts.remove(client));
        }
        if in_range(old.available) && in_range(old.held) && in_range(t.amount) && sub_is_exact(
            old.available,
            t.amount,
        ) && add_is_exact(old.held, t.amount) {
            lemma_exact_sub_units(old.available, t.amount);
            lemma_exact_add_units(old.held, t.amount);
        }
    }
}

/// A resolve row is accepted only for a stored, disputed transaction of the
/// same client; otherwise it changes nothing.  When accepted it removes the
/// transaction and retires its id, keeps every other transaction and retired
/// id, every other account and the client's lock, and, where the arithmetic
/// needs no rounding, moves exactly the amount from `held` back to
/// `available`.
pub proof fn law_resolve_row(s: EngineState, client: u16, tx: u32, amount: Option<Amount>)
    ensures
        ({
            let r = TransactionRecord { tx_type: TxType::Resolve, client, tx, amount };
            let old = s.account_or_default(client);
            let t = s.transactions[tx];
            let accepted = s.transactions.contains_key(tx) && t.client == client && t.disputed;
            &&& !accepted ==> spec_apply(s, r) == Some(s)
            &&& accepted && spec_apply(s, r) is Some ==> {
                let s2 = spec_apply(s, r)->0;
                &&& s2.transactions == s.transactions.remove(tx)
                &&& s2.finalised == s.finalised.insert(tx)
                &&& s2.accounts.contains_key(client)
                &&& s2.accounts.remove(client) == s.accounts.remove(client)
                &&& s2.accounts[client].locked == old.locked
            }
            &&& accepted && in_range(old.available) && in_range(old.held) && in_range(t.amount)
                && sub_is_exact(old.held, t.amount) && add_is_exact(old.available, t.amount) ==> {
                let s2 = spec_apply(s, r)->0;
                &&& spec_apply(s, r) is Some
                &&& s2.accounts[client].available.units() == old.available.units()
                    + t.amount.units()
                &&& s2.accounts[client].held.units() == old.held.units() - t.amount.units()
            }
        }),
{
    let r = TransactionRecord { tx_type: TxType::Resolve, client, tx, amount };
    let old = s.account_or_default(client);
    let t = s.transactions[tx];
    if s.transactions.contains_key(tx) && t.client == client && t.disputed {
        if spec_apply(s, r) is Some {
            let s2 = spec_apply(s, r)->0;
            assert(s2.accounts.remove(client) =~= s.accounts.remove(client));
        }
        if in_range(old.available) && in_range(old.held) && in_range(t.amount) && sub_is_exact(
            old.held,
            t.amount,
        ) && add_is_exact(old.available, t.amount) {
            lemma_exact_sub_units(old.held, t.amount);
            lemma_exact_add_units(old.available, t.amount);
        }
    }
}

/// A chargeback row is accepted only for a stored, disputed transaction of
/// the same client; otherwise it changes nothing.  When accepted it removes
/// the transaction and retires its id, keeps every other transaction and
/// retired id and every other account, leaves the client's `available`
/// exactly as it was (a negative balance stays owed), locks the account, and,
/// where the subtraction needs no rounding, lowers `held` by exactly the
/// amount.
pub proof fn law_chargeback_row(s: EngineState, client: u16, tx: u32, amount: Option<Amount>)
    ensures
        ({
            let r = TransactionRecord { tx_type: TxType::Chargeback, client, tx, amount };
            let old = s.account_or_default(client);
            let t = s.transactions[tx];
            let accepted = s.transactions.contains_key(tx) && t.client == client && t.disputed;
            &&& !accepted ==> spec_apply(s, r) == Some(s)
            &&& accepted && spec_apply(s, r) is Some ==> {
                let s2 = spec_apply(s, r)->0;
                &&& s2.transactions == s.transactions.remove(tx)
                &&& s2.finalised == s.finalised.insert(tx)
                &&& s2.accounts.contains_key(client)
                &&& s2.accounts.remove(client) == s.accounts.remove(client)
                &&& s2.accounts[client].available == old.available
                &&& s2.accounts[client].locked
            }
            &&& accepted && in_range(old.held) && in_range(t.amount) && sub_is_exact(
                old.held,
                t.amount,
            ) ==> {
                let s2 = spec_apply(s, r)->0;
                &&& spec_apply(s, r) is Some
                &&& s2.accounts[client].held.units() == old.held.units() - t.amount.units()
            }
        }),
{
    let r = TransactionRecord { tx_type: TxType::Chargeback, client, tx, amount };
    let old = s.account_or_default(client);
    let t = s.transactions[tx];
    if s.transactions.contains_key(tx) && t.client == client && t.disputed {
        if spec_apply(s, r) is Some {
            let s2 = spec_apply(s, r)->0;
            assert(s2.accounts.remove(client) =~= s.accounts.remove(client));
        }
        if in_range(old.held) && in_range(t.amount) && sub_is_exact(old.held, t.amount) {
            lemma_exact_sub_units(old.held, t.amount);
        }
    }
}

} // verus!
