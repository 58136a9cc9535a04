//! The top-level ledger document: a name, a chart of accounts, and an
//! ordered list of transactions.

use vstd::prelude::*;

use crate::definition::LedgerDefinition;
use crate::transaction::Transaction;

verus! {

/// A whole ledger document.
#[derive(Debug)]
pub struct Ledger {
    pub name: String,
    pub definition: LedgerDefinition,
    pub transactions: Vec<Transaction>,
}

} // verus!
