//! Referential integrity of transactions: every transaction must name a
//! declared credit account and a declared debit account.  The check is
//! fail-fast: the first offending transaction decides the error.

use vstd::prelude::*;
use vstd::string::StringExecFns;

use crate::control::{
    account_map_of, classified_accounts, declared_names, from_ledger_definition, AccountMap,
    LedgerAccount,
};
use crate::definition::AccountsReader;
use crate::document::Ledger;
use crate::error::AccError;
use crate::transaction::TransactionAccountReader;

verus! {

/// Whether transaction `t` resolves in the classified map `m`: both its
/// credit and its debit name are keys.
pub open spec fn transaction_resolves<T: TransactionAccountReader>(
    t: T,
    m: Map<Seq<char>, LedgerAccount>,
) -> bool {
    m.dom().contains(t.spec_creditor()) && m.dom().contains(t.spec_debitor())
}

/// Whether every transaction of `ts` resolves in `m`.
pub open spec fn all_transactions_resolve<T: TransactionAccountReader>(
    ts: Seq<T>,
    m: Map<Seq<char>, LedgerAccount>,
) -> bool {
    forall|i: int| 0 <= i < ts.len() ==> transaction_resolves(ts[i], m)
}

/// The diagnostic for a credit account name missing from the chart.
pub open spec fn unknown_creditor_message(name: Seq<char>, description: Seq<char>) -> Seq<char> {
    "creditor Account "@ + name + " from Transaction "@ + description
        + " not found in defined accounts"@
}

/// The diagnostic for a debit account name missing from the chart.
pub open spec fn unknown_debitor_message(name: Seq<char>, description: Seq<char>) -> Seq<char> {
    "debitor Account "@ + name + " from Transaction "@ + description
        + " not found in defined accounts"@
}

/// Whether `msg` is the diagnostic for the first failing transaction of
/// `ts` against `m`, standing at position `i`: everything before `i`
/// resolves, and `msg` names the missing creditor, or failing that the
/// missing debitor, of `ts[i]`.
pub open spec fn fails_at<T: TransactionAccountReader>(
    ts: Seq<T>,
    m: Map<Seq<char>, LedgerAccount>,
    i: int,
    msg: Seq<char>,
) -> bool {
    &&& 0 <= i < ts.len()
    &&& forall|j: int| 0 <= j < i ==> transaction_resolves(ts[j], m)
    &&& if !m.dom().contains(ts[i].spec_creditor()) {
        msg == unknown_creditor_message(ts[i].spec_creditor(), ts[i].spec_description())
    } else {
        &&& !m.dom().contains(ts[i].spec_debitor())
        &&& msg == unknown_debitor_message(ts[i].spec_debitor(), ts[i].spec_description())
    }
}

fn unknown_creditor_error<T: TransactionAccountReader>(transaction: &T) -> (e: AccError)
    ensures
        e@ == unknown_creditor_message(
            transaction.spec_creditor(),
            transaction.spec_description(),
        ),
{
    let mut message = "creditor Account ".to_owned();
    message.append(transaction.read_creditor_account());
    message.append(" from Transaction ");
    message.append(transaction.read_description());
    message.append(" not found in defined accounts");
    AccError::new(message)
}

fn unknown_debitor_error<T: TransactionAccountReader>(transaction: &T) -> (e: AccError)
    ensures
        e@ == unknown_debitor_message(transaction.spec_debitor(), transaction.spec_description()),
{
    let mut message = "debitor Account ".to_owned();
    message.append(transaction.read_debitor_account());
    message.append(" from Transaction ");
    message.append(transaction.read_description());
    message.append(" not found in defined accounts");
    AccError::new(message)
}

/// Checks that every transaction's credit and debit names are keys of the
/// classified map.  Succeeds exactly when all of them are; otherwise the
/// first offending transaction decides the error, creditor checked first.
pub fn check_transactions<T: TransactionAccountReader>(
    transactions: &Vec<T>,
    accounts: &AccountMap,
) -> (r: Result<(), AccError>)
    ensures
        r is Ok <==> all_transactions_resolve(transactions@, accounts@),
        r is Err ==> exists|i: int|
            #[trigger] fails_at(transactions@, accounts@, i, (r->Err_0)@),
{
    let mut i: usize = 0;
    while i < transactions.len()
        invariant
            i <= transactions@.len(),
            forall|j: int| 0 <= j < i ==> transaction_resolves(transactions@[j], accounts@),
        decreases transactions@.len() - i,
    {
        let transaction = &transactions[i];
        if !accounts.contains_name(transaction.read_creditor_account()) {
            let e = unknown_creditor_error(transaction);
            let r: Result<(), AccError> = Err(e);
            proof {
                assert(fails_at(transactions@, accounts@, i as int, (r->Err_0)@));
                assert(exists|k: int|
                    #[trigger] fails_at(transactions@, accounts@, k, (r->Err_0)@));
            }
            return r;
        }
        if !accounts.contains_name(transaction.read_debitor_account()) {
            let e = unknown_debitor_error(transaction);
            let r: Result<(), AccError> = Err(e);
            proof {
                assert(fails_at(transactions@, accounts@, i as int, (r->Err_0)@));
                assert(exists|k: int|
                    #[trigger] fails_at(transactions@, accounts@, k, (r->Err_0)@));
            }
            return r;
        }
        i = i + 1;
    }
    Ok(())
}

/// Classifies the ledger's chart and validates its transactions against
/// the classified map: the compute core of loading a ledger document.
pub fn check_ledger(ledger: &Ledger) -> (r: Result<(), AccError>)
    ensures
        r is Ok <==> all_transactions_resolve(
            ledger.transactions@,
            account_map_of(classified_accounts(&ledger.definition)),
        ),
        r is Ok <==> forall|i: int|
            0 <= i < ledger.transactions@.len() ==> declared_names(
                classified_accounts(&ledger.definition),
            ).contains((#[trigger] ledger.transactions@[i]).spec_creditor()) && declared_names(
                classified_accounts(&ledger.definition),
            ).contains(ledger.transactions@[i].spec_debitor()),
        r matches Err(e) ==> exists|i: int|
            #[trigger] fails_at(
                ledger.transactions@,
                account_map_of(classified_accounts(&ledger.definition)),
                i,
                e@,
            ),
{
    proof {
        lemma_validator_soundness(&ledger.definition, ledger.transactions@);
    }
    let accounts = from_ledger_definition(&ledger.definition);
    check_transactions(&ledger.transactions, &accounts)
}

/// Validator soundness: validating transactions against the classified
/// chart succeeds exactly when every transaction's credit and debit names
/// are declared somewhere in the chart's six leaf lists.
pub proof fn lemma_validator_soundness<R: AccountsReader, T: TransactionAccountReader>(
    reader: &R,
    ts: Seq<T>,
)
    ensures
        all_transactions_resolve(ts, account_map_of(classified_accounts(reader))) <==> forall|
            i: int,
        |
            0 <= i < ts.len() ==> declared_names(classified_accounts(reader)).contains(
                #[trigger] ts[i].spec_creditor(),
            ) && declared_names(classified_accounts(reader)).contains(ts[i].spec_debitor()),
{
    crate::control::lemma_classification_completeness(reader);
}

} // verus!
