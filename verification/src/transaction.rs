//! One ledger entry: a dated, described movement of an amount from a credit
//! account to a debit account.

use vstd::prelude::*;

use crate::amount::Amount;
use crate::date::Date;

verus! {

/// Read access to the parts of a transaction that the validator needs.
/// The validator works against this capability view, so lightweight fakes
/// can stand in for a full document entry.
pub trait TransactionAccountReader {
    /// The debit account name.
    spec fn spec_debitor(&self) -> Seq<char>;

    /// The credit account name.
    spec fn spec_creditor(&self) -> Seq<char>;

    /// The description.
    spec fn spec_description(&self) -> Seq<char>;

    fn read_debitor_account(&self) -> (r: &str)
        ensures
            r@ == self.spec_debitor(),
    ;

    fn read_creditor_account(&self) -> (r: &str)
        ensures
            r@ == self.spec_creditor(),
    ;

    fn read_description(&self) -> (r: &str)
        ensures
            r@ == self.spec_description(),
    ;
}

/// One ledger entry.
#[derive(Debug)]
pub struct Transaction {
    pub description: String,
    pub amount: Amount,
    pub deb: String,
    pub cred: String,
    pub date: Date,
}

impl Transaction {
    pub fn new(description: String, amount: Amount, deb: String, cred: String, date: Date) -> (r:
        Self)
        ensures
            r.description == description,
            r.amount == amount,
            r.deb == deb,
            r.cred == cred,
            r.date == date,
    {
        Transaction { description, amount, deb, cred, date }
    }
}

impl TransactionAccountReader for Transaction {
    open spec fn spec_debitor(&self) -> Seq<char> {
        self.deb@
    }

    open spec fn spec_creditor(&self) -> Seq<char> {
        self.cred@
    }

    open spec fn spec_description(&self) -> Seq<char> {
        self.description@
    }

    fn read_debitor_account(&self) -> (r: &str) {
        self.deb.as_str()
    }

    fn read_creditor_account(&self) -> (r: &str) {
        self.cred.as_str()
    }

    fn read_description(&self) -> (r: &str) {
        self.description.as_str()
    }
}

} // verus!
