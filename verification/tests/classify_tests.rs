use ledger::control::{
    from_ledger_definition, AccountMap, AccountType, ActiveType, BalanceType, IncomeType,
    PassiveType,
};
use ledger::definition::{Account, ActiveBalance, Balance, Income, LedgerDefinition, PassiveBalance};

fn chart(
    working_capital: Vec<Account>,
    fixed_assets: Vec<Account>,
    equity: Vec<Account>,
    debt_capital: Vec<Account>,
    revenue: Vec<Account>,
    expense: Vec<Account>,
) -> LedgerDefinition {
    LedgerDefinition {
        balance: Balance {
            active: ActiveBalance { working_capital, fixed_assets },
            passive: PassiveBalance { equity, debt_capital },
        },
        income: Income { revenue, expense },
    }
}

fn default_chart() -> LedgerDefinition {
    chart(
        vec![Account::new("Kasse", 1000)],
        vec![Account::new("Maschinen", 1001)],
        vec![Account::new("Eigenkapital", 2000)],
        vec![Account::new("Fremdkapital", 2001)],
        vec![Account::new("Ertrag", 3000)],
        vec![Account::new("Aufwand", 3001)],
    )
}

fn verify_account(ledger_accounts: &AccountMap, name: &str, account_type: AccountType) {
    let account = ledger_accounts
        .get(name)
        .unwrap_or_else(|| panic!("cannot find account with name {name}"));
    assert_eq!(account.account_type, account_type);
}

#[test]
fn control_test_from_ledger_definition() {
    let ledger_definition = default_chart();
    let ledger_accounts = from_ledger_definition(&ledger_definition);
    assert_eq!(ledger_accounts.len(), 6);
    verify_account(
        &ledger_accounts,
        "Kasse",
        AccountType::Balance(BalanceType::Active(ActiveType::WorkingCapital)),
    );
    verify_account(
        &ledger_accounts,
        "Maschinen",
        AccountType::Balance(BalanceType::Active(ActiveType::FixedAssets)),
    );
    verify_account(
        &ledger_accounts,
        "Eigenkapital",
        AccountType::Balance(BalanceType::Passive(PassiveType::Equity)),
    );
    verify_account(
        &ledger_accounts,
        "Fremdkapital",
        AccountType::Balance(BalanceType::Passive(PassiveType::DebtCapital)),
    );
    verify_account(&ledger_accounts, "Ertrag", AccountType::Income(IncomeType::Revenue));
    verify_account(&ledger_accounts, "Aufwand", AccountType::Income(IncomeType::Expense));
}

#[test]
fn definition_control_test_from_ledger_definition() {
    let ledger_definition = chart(
        vec![Account::new("Kasse", 10)],
        vec![Account::new("Maschinen", 1000)],
        vec![Account::new("Eigenkapital", 1000)],
        vec![Account::new("Fremdkapital", 1000)],
        vec![Account::new("Ertrag", 1000)],
        vec![Account::new("Aufwand", 1000)],
    );
    let ledger_accounts = from_ledger_definition(&ledger_definition);
    assert_eq!(ledger_accounts.len(), 6);
    verify_account(
        &ledger_accounts,
        "Kasse",
        AccountType::Balance(BalanceType::Active(ActiveType::WorkingCapital)),
    );
    verify_account(
        &ledger_accounts,
        "Maschinen",
        AccountType::Balance(BalanceType::Active(ActiveType::FixedAssets)),
    );
    verify_account(
        &ledger_accounts,
        "Eigenkapital",
        AccountType::Balance(BalanceType::Passive(PassiveType::Equity)),
    );
    verify_account(
        &ledger_accounts,
        "Fremdkapital",
        AccountType::Balance(BalanceType::Passive(PassiveType::DebtCapital)),
    );
    verify_account(&ledger_accounts, "Ertrag", AccountType::Income(IncomeType::Revenue));
    verify_account(&ledger_accounts, "Aufwand", AccountType::Income(IncomeType::Expense));
}

#[test]
fn classify_empty_chart_yields_empty_map() {
    let ledger_definition = chart(vec![], vec![], vec![], vec![], vec![], vec![]);
    let ledger_accounts = from_ledger_definition(&ledger_definition);
    assert_eq!(ledger_accounts.len(), 0);
    assert!(!ledger_accounts.contains_name("Kasse"));
}

#[test]
fn classify_counts_each_name_once() {
    let ledger_definition = chart(
        vec![Account::new("Doppelt", 1)],
        vec![],
        vec![Account::new("Doppelt", 2)],
        vec![],
        vec![Account::new("Ertrag", 3)],
        vec![],
    );
    let ledger_accounts = from_ledger_definition(&ledger_definition);
    assert_eq!(ledger_accounts.len(), 2);
}

#[test]
fn classify_lets_the_later_declaration_win() {
    // processing order: equities, debt capital, fixed assets, working
    // capital, expenses, revenue — so a revenue declaration wins over an
    // equity declaration of the same name
    let ledger_definition = chart(
        vec![],
        vec![],
        vec![Account::new("Doppelt", 1)],
        vec![],
        vec![Account::new("Doppelt", 2)],
        vec![],
    );
    let ledger_accounts = from_ledger_definition(&ledger_definition);
    assert_eq!(ledger_accounts.len(), 1);
    let account = ledger_accounts.get("Doppelt").expect("account is classified");
    assert_eq!(account.account_type, AccountType::Income(IncomeType::Revenue));
    assert_eq!(account.start.decimal_digits, 2);
}

#[test]
fn classified_account_keeps_name_and_start() {
    let ledger_accounts = from_ledger_definition(&default_chart());
    let account = ledger_accounts.get("Kasse").expect("account is classified");
    assert_eq!(account.name, "Kasse");
    assert_eq!(account.start.decimal_digits, 1000);
    assert_eq!(account.start.dividend_digits, 0);
}
