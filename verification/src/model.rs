//! The records that flow through the engine.
use crate::amount::{add_is_exact, decimal_add, in_range, lemma_exact_add_units, Amount};
use vstd::prelude::*;

verus! {

/// Transaction types as they appear in the input.
#[derive(Debug, Clone, Copy, PartialEq, Eq, Structural)]
pub enum TxType {
    Deposit,
    Withdrawal,
    Dispute,
    Resolve,
    Chargeback,
}

/// A single input row.
///
/// `amount` is `None` where the row leaves the amount out, as dispute,
/// resolve and chargeback rows do: those use the stored deposit's amount.
#[derive(Debug, Clone, Copy)]
pub struct TransactionRecord {
    pub tx_type: TxType,
    pub client: u16,
    pub tx: u32,
    pub amount: Option<Amount>,
}

/// What the engine keeps of an accepted deposit or withdrawal, so that a later
/// dispute, resolve or chargeback can refer to it.
#[derive(Debug, Clone, Copy)]
pub struct StoredTx {
    pub client: u16,
    pub amount: Amount,
    pub disputed: bool,
    pub tx_type: TxType,
}

/// Live balance state of one client.
///
/// `available` is the spendable balance; `held` is frozen under open disputes.
/// `available` can go negative where a deposit is disputed after part of it
/// was withdrawn.
#[derive(Debug, Clone, Copy)]
pub struct Account {
    pub available: Amount,
    pub held: Amount,
    pub locked: bool,
}

impl Account {
    /// The account a client has before its first transaction.
    pub open spec fn spec_default() -> Account {
        Account { available: Amount::spec_zero(), held: Amount::spec_zero(), locked: false }
    }

    /// What `total` computes: `available + held`, `None` where the sum
    /// overflows.
    pub open spec fn spec_total(self) -> Option<Amount> {
        decimal_add(self.available, self.held)
    }

    /// The total is the sum of `available` and `held`: wherever the addition
    /// needs no rounding it exists and its value is exactly that sum.
    pub proof fn lemma_total_is_sum(self)
        requires
            in_range(self.available),
            in_range(self.held),
            add_is_exact(self.available, self.held),
        ensures
            self.spec_total() is Some,
            self.spec_total()->0.units() == self.available.units() + self.held.units(),
    {
        lemma_exact_add_units(self.available, self.held);
    }

    /// Sum of spendable and held funds.
    pub fn total(&self) -> (t: Amount)
        requires
            self.spec_total() is Some,
        ensures
            t == self.spec_total()->0,
            add_is_exact(self.available, self.held) ==> t.units() == self.available.units()
                + self.held.units(),
    {
        match self.checked_total() {
            Some(t) => t,
            None => self.available,
        }
    }

    /// Sum of spendable and held funds, `None` where it overflows.
    pub fn checked_total(&self) -> (t: Option<Amount>)
        ensures
            t == self.spec_total(),
            add_is_exact(self.available, self.held) ==> t is Some && t->0.units()
                == self.available.units() + self.held.units(),
    {
        self.available.checked_add(&self.held)
    }
}

impl Default for Account {
    fn default() -> (a: Account)
        ensures
            a == Account::spec_default(),
    {
        Account { available: Amount::zero(), held: Amount::zero(), locked: false }
    }
}

/// One row of the final report; the amounts are written with four
/// fractional digits.
#[derive(Debug)]
pub struct AccountRecord {
    pub client: u16,
    pub available: String,
    pub held: String,
    pub total: String,
    pub locked: bool,
}

} // verus!
