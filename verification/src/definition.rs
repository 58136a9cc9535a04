//! The chart of accounts: the fixed two-level taxonomy of six leaf lists of
//! declared accounts.

use vstd::prelude::*;

use crate::amount::Amount;

verus! {

/// A declared account: a display name and a starting amount.
#[derive(PartialEq, Debug)]
pub struct Account {
    pub name: String,
    pub start: Amount,
}

impl Clone for Account {
    fn clone(&self) -> (r: Self)
        ensures
            r == *self,
    {
        Account { name: self.name.clone(), start: self.start }
    }
}

impl Account {
    /// A declared account with a whole starting amount.
    pub fn new(name: &str, start: u128) -> (r: Self)
        ensures
            r.name@ == name@,
            r.start.decimal_digits == start,
            r.start.dividend_digits == 0,
    {
        Account { name: name.to_owned(), start: Amount::new(start, 0) }
    }
}

/// The active side of the balance: working capital and fixed assets.
#[derive(PartialEq, Debug)]
pub struct ActiveBalance {
    pub working_capital: Vec<Account>,
    pub fixed_assets: Vec<Account>,
}

/// The passive side of the balance: equity and debt capital.
#[derive(PartialEq, Debug)]
pub struct PassiveBalance {
    pub equity: Vec<Account>,
    pub debt_capital: Vec<Account>,
}

/// The balance subtree of the chart.
#[derive(PartialEq, Debug)]
pub struct Balance {
    pub active: ActiveBalance,
    pub passive: PassiveBalance,
}

/// The income subtree of the chart.
#[derive(PartialEq, Debug)]
pub struct Income {
    pub revenue: Vec<Account>,
    pub expense: Vec<Account>,
}

/// The chart of accounts: six ordered leaf lists that together partition
/// the declared accounts.
#[derive(PartialEq, Debug)]
pub struct LedgerDefinition {
    pub balance: Balance,
    pub income: Income,
}

/// Read access to the six leaf lists of a chart.  The classifier works
/// against this capability view, so chart-shaped fakes can stand in for a
/// full document.
pub trait AccountsReader {
    /// The accounts under balance.passive.equity.
    spec fn spec_equities(&self) -> Seq<Account>;

    /// The accounts under balance.passive.debt-capital.
    spec fn spec_debt_capital(&self) -> Seq<Account>;

    /// The accounts under balance.active.fixed-assets.
    spec fn spec_fixed_assets(&self) -> Seq<Account>;

    /// The accounts under balance.active.working-capital.
    spec fn spec_working_capital(&self) -> Seq<Account>;

    /// The accounts under income.revenue.
    spec fn spec_revenue(&self) -> Seq<Account>;

    /// The accounts under income.expense.
    spec fn spec_expenses(&self) -> Seq<Account>;

    fn get_equities(&self) -> (r: Vec<Account>)
        ensures
            r@ == self.spec_equities(),
    ;

    fn get_debt_capital(&self) -> (r: Vec<Account>)
        ensures
            r@ == self.spec_debt_capital(),
    ;

    fn get_fixed_assets(&self) -> (r: Vec<Account>)
        ensures
            r@ == self.spec_fixed_assets(),
    ;

    fn get_working_capital(&self) -> (r: Vec<Account>)
        ensures
            r@ == self.spec_working_capital(),
    ;

    fn get_revenue(&self) -> (r: Vec<Account>)
        ensures
            r@ == self.spec_revenue(),
    ;

    fn get_expenses(&self) -> (r: Vec<Account>)
        ensures
            r@ == self.spec_expenses(),
    ;
}

fn clone_accounts(accounts: &Vec<Account>) -> (r: Vec<Account>)
    ensures
        r@ == accounts@,
{
    let mut out: Vec<Account> = Vec::new();
    let mut i: usize = 0;
    while i < accounts.len()
        invariant
            i <= accounts@.len(),
            out@ == accounts@.take(i as int),
        decreases accounts@.len() - i,
    {
        out.push(accounts[i].clone());
        proof {
            assert(out@ =~= accounts@.take(i as int + 1));
        }
        i = i + 1;
    }
    proof {
        assert(accounts@.take(accounts@.len() as int) =~= accounts@);
    }
    out
}

impl LedgerDefinition {
    /// The accounts under balance.passive.equity, in list order.
    pub fn get_equities(&self) -> (r: Vec<Account>)
        ensures
            r@ == self.balance.passive.equity@,
    {
        clone_accounts(&self.balance.passive.equity)
    }

    /// The accounts under balance.passive.debt-capital, in list order.
    pub fn get_debt_capital(&self) -> (r: Vec<Account>)
        ensures
            r@ == self.balance.passive.debt_capital@,
    {
        clone_accounts(&self.balance.passive.debt_capital)
    }

    /// The accounts under balance.active.fixed-assets, in list order.
    pub fn get_fixed_assets(&self) -> (r: Vec<Account>)
        ensures
            r@ == self.balance.active.fixed_assets@,
    {
        clone_accounts(&self.balance.active.fixed_assets)
    }

    /// The accounts under balance.active.working-capital, in list order.
    pub fn get_working_capital(&self) -> (r: Vec<Account>)
        ensures
            r@ == self.balance.active.working_capital@,
    {
        clone_accounts(&self.balance.active.working_capital)
    }

    /// The accounts under income.revenue, in list order.
    pub fn get_revenue(&self) -> (r: Vec<Account>)
        ensures
            r@ == self.income.revenue@,
    {
        clone_accounts(&self.income.revenue)
    }

    /// The accounts under income.expense, in list order.
    pub fn get_expenses(&self) -> (r: Vec<Account>)
        ensures
            r@ == self.income.expense@,
    {
        clone_accounts(&self.income.expense)
    }
}

impl AccountsReader for LedgerDefinition {
    open spec fn spec_equities(&self) -> Seq<Account> {
        self.balance.passive.equity@
    }

    open spec fn spec_debt_capital(&self) -> Seq<Account> {
        self.balance.passive.debt_capital@
    }

    open spec fn spec_fixed_assets(&self) -> Seq<Account> {
        self.balance.active.fixed_assets@
    }

    open spec fn spec_working_capital(&self) -> Seq<Account> {
        self.balance.active.working_capital@
    }

    open spec fn spec_revenue(&self) -> Seq<Account> {
        self.income.revenue@
    }

    open spec fn spec_expenses(&self) -> Seq<Account> {
        self.income.expense@
    }

    fn get_equities(&self) -> (r: Vec<Account>) {
        LedgerDefinition::get_equities(self)
    }

    fn get_debt_capital(&self) -> (r: Vec<Account>) {
        LedgerDefinition::get_debt_capital(self)
    }

    fn get_fixed_assets(&self) -> (r: Vec<Account>) {
        LedgerDefinition::get_fixed_assets(self)
    }

    fn get_working_capital(&self) -> (r: Vec<Account>) {
        LedgerDefinition::get_working_capital(self)
    }

    fn get_revenue(&self) -> (r: Vec<Account>) {
        LedgerDefinition::get_revenue(self)
    }

    fn get_expenses(&self) -> (r: Vec<Account>) {
        LedgerDefinition::get_expenses(self)
    }
}

} // verus!
