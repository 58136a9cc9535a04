use ledger::amount::Amount;
use ledger::control::{from_ledger_definition, AccountMap, AccountType, IncomeType, LedgerAccount};
use ledger::date::Date;
use ledger::definition::{
    Account, ActiveBalance, Balance, Income, LedgerDefinition, PassiveBalance,
};
use ledger::document::Ledger;
use ledger::transaction::Transaction;
use ledger::validate::{check_ledger, check_transactions};

fn default_chart() -> LedgerDefinition {
    LedgerDefinition {
        balance: Balance {
            active: ActiveBalance {
                working_capital: vec![Account::new("Kasse", 1000)],
                fixed_assets: vec![Account::new("Maschinen", 1001)],
            },
            passive: PassiveBalance {
                equity: vec![Account::new("Eigenkapital", 2000)],
                debt_capital: vec![Account::new("Fremdkapital", 2001)],
            },
        },
        income: Income {
            revenue: vec![Account::new("Ertrag", 3000)],
            expense: vec![Account::new("Aufwand", 3001)],
        },
    }
}

fn transaction(description: &str, deb: &str, cred: &str) -> Transaction {
    Transaction::new(
        description.to_string(),
        Amount::new(100, 0),
        deb.to_string(),
        cred.to_string(),
        Date::new(2022, 1, 1).unwrap(),
    )
}

#[test]
fn test_check_transactions() {
    let dummy_ledger_account =
        LedgerAccount::from(&Account::new("ignored", 0), &AccountType::Income(IncomeType::Revenue));
    let mut m = AccountMap::new();
    m.insert(LedgerAccount {
        name: "Cred".to_string(),
        ..dummy_ledger_account.clone()
    });
    m.insert(LedgerAccount { name: "Deb".to_string(), ..dummy_ledger_account });
    let mock_transaction = transaction("a transaction", "Deb", "Cred");
    assert_eq!(check_transactions(&vec![mock_transaction], &m).is_err(), false);
}

#[test]
fn validate_empty_transaction_list_succeeds() {
    let m = AccountMap::new();
    let transactions: Vec<Transaction> = vec![];
    assert!(check_transactions(&transactions, &m).is_ok());
}

#[test]
fn validate_reports_unknown_creditor() {
    let ledger = Ledger {
        name: "example".to_string(),
        definition: default_chart(),
        transactions: vec![transaction("Abschreibungen von Maschinen", "Kasse", "Ghost")],
    };
    let e = check_ledger(&ledger).unwrap_err();
    assert_eq!(
        e.message(),
        "creditor Account Ghost from Transaction Abschreibungen von Maschinen not found in defined accounts"
    );
}

#[test]
fn validate_reports_unknown_debitor() {
    let ledger = Ledger {
        name: "example".to_string(),
        definition: default_chart(),
        transactions: vec![transaction("Abschreibungen von Maschinen", "Ghost", "Kasse")],
    };
    let e = check_ledger(&ledger).unwrap_err();
    assert_eq!(
        e.message(),
        "debitor Account Ghost from Transaction Abschreibungen von Maschinen not found in defined accounts"
    );
}

#[test]
fn validate_stops_at_the_first_failure() {
    let ledger = Ledger {
        name: "example".to_string(),
        definition: default_chart(),
        transactions: vec![
            transaction("first", "Maschinen", "Aufwand"),
            transaction("second", "Kasse", "Ghost"),
            transaction("third", "Phantom", "Kasse"),
        ],
    };
    let e = check_ledger(&ledger).unwrap_err();
    assert_eq!(
        e.message(),
        "creditor Account Ghost from Transaction second not found in defined accounts"
    );
}

#[test]
fn validate_checks_creditor_before_debitor() {
    let ledger = Ledger {
        name: "example".to_string(),
        definition: default_chart(),
        transactions: vec![transaction("both unknown", "Phantom", "Ghost")],
    };
    let e = check_ledger(&ledger).unwrap_err();
    assert_eq!(
        e.message(),
        "creditor Account Ghost from Transaction both unknown not found in defined accounts"
    );
}

#[test]
fn validate_accepts_the_example_ledger() {
    let ledger = Ledger {
        name: "example".to_string(),
        definition: default_chart(),
        transactions: vec![transaction("Abschreibungen von Maschinen", "Maschinen", "Aufwand")],
    };
    assert!(check_ledger(&ledger).is_ok());
}
