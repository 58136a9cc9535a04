use ledger::amount::Amount;
use ledger::definition::{
    Account, AccountsReader, ActiveBalance, Balance, Income, LedgerDefinition, PassiveBalance,
};

fn default_chart() -> LedgerDefinition {
    LedgerDefinition {
        balance: Balance {
            active: ActiveBalance {
                working_capital: vec![Account::new("Kasse", 1000)],
                fixed_assets: vec![Account::new("Maschinen", 1001)],
            },
            passive: PassiveBalance {
                equity: vec![Account::new("Eigenkapital", 2000)],
                debt_capital: vec![Account::new("Fremdkapital", 2001)],
            },
        },
        income: Income {
            revenue: vec![Account::new("Ertrag", 3000)],
            expense: vec![Account::new("Aufwand", 3001)],
        },
    }
}

fn verify_account(accounts: Vec<Account>, name: &str, start: u128) {
    assert_eq!(accounts.len(), 1);
    let account = accounts.first().expect("first account not found");
    assert_eq!(
        account,
        &Account { name: name.to_string(), start: Amount::new(start, 0) }
    );
}

#[test]
fn definition_test_with_getter() {
    let ledger_definition = default_chart();
    verify_account(ledger_definition.get_expenses(), "Aufwand", 3001);
    verify_account(ledger_definition.get_revenue(), "Ertrag", 3000);
    verify_account(ledger_definition.get_equities(), "Eigenkapital", 2000);
    verify_account(ledger_definition.get_working_capital(), "Kasse", 1000);
    verify_account(ledger_definition.get_fixed_assets(), "Maschinen", 1001);
    verify_account(ledger_definition.get_debt_capital(), "Fremdkapital", 2001);
}

#[test]
fn getters_preserve_list_order() {
    let ledger_definition = LedgerDefinition {
        balance: Balance {
            active: ActiveBalance {
                working_capital: vec![Account::new("Erste", 1), Account::new("Zweite", 2)],
                fixed_assets: vec![],
            },
            passive: PassiveBalance { equity: vec![], debt_capital: vec![] },
        },
        income: Income { revenue: vec![], expense: vec![] },
    };
    let working_capital = ledger_definition.get_working_capital();
    assert_eq!(working_capital.len(), 2);
    assert_eq!(working_capital[0].name, "Erste");
    assert_eq!(working_capital[1].name, "Zweite");
    assert!(ledger_definition.get_equities().is_empty());
}
