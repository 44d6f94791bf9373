use task_market::ledger::{checked_total, copy_accounts, owners_distinct, Account, Ledger};
use task_market::types::{Error, Identity};

fn owner(n: u8) -> Identity {
    Identity::new(vec![0, n])
}

#[test]
fn ledger_starts_empty() {
    let ledger = Ledger::new();
    assert_eq!(ledger.len(), 0);
    assert_eq!(ledger.total_balance(), 0);
    assert!(!ledger.is_registered(&owner(1)));
    assert_eq!(ledger.balance_of(&owner(1)), Err(Error::NotRegistered));
}

#[test]
fn ledger_registers_once() {
    let mut ledger = Ledger::new();
    assert_eq!(ledger.register(&owner(1)), Ok(()));
    assert_eq!(ledger.register(&owner(2)), Ok(()));
    assert_eq!(ledger.register(&owner(1)), Err(Error::AlreadyRegistered));
    assert_eq!(ledger.len(), 2);
    assert!(ledger.is_registered(&owner(1)));
    assert!(ledger.is_registered(&owner(2)));
    assert!(!ledger.is_registered(&owner(3)));
    assert_eq!(ledger.balance_of(&owner(1)), Ok(1000));
    assert_eq!(ledger.total_balance(), 2000);
}

#[test]
fn debit_takes_no_more_than_the_balance() {
    let mut ledger = Ledger::new();
    ledger.register(&owner(1)).unwrap();
    ledger.register(&owner(2)).unwrap();
    assert_eq!(ledger.debit(&owner(1), 400), Ok(()));
    assert_eq!(ledger.balance_of(&owner(1)), Ok(600));
    assert_eq!(ledger.balance_of(&owner(2)), Ok(1000));
    assert_eq!(ledger.debit(&owner(1), 601), Err(Error::InsufficientFunds));
    assert_eq!(ledger.balance_of(&owner(1)), Ok(600));
    assert_eq!(ledger.debit(&owner(1), 600), Ok(()));
    assert_eq!(ledger.balance_of(&owner(1)), Ok(0));
    assert_eq!(ledger.debit(&owner(1), 0), Ok(()));
    assert_eq!(ledger.debit(&owner(1), 1), Err(Error::InsufficientFunds));
    assert_eq!(ledger.debit(&owner(3), 0), Err(Error::NotRegistered));
    assert_eq!(ledger.total_balance(), 1000);
}

#[test]
fn credit_adds_to_the_balance() {
    let mut ledger = Ledger::new();
    ledger.register(&owner(1)).unwrap();
    ledger.register(&owner(2)).unwrap();
    assert_eq!(ledger.credit(&owner(2), 25), Ok(()));
    assert_eq!(ledger.credit(&owner(2), 0), Ok(()));
    assert_eq!(ledger.balance_of(&owner(2)), Ok(1025));
    assert_eq!(ledger.balance_of(&owner(1)), Ok(1000));
    assert_eq!(ledger.credit(&owner(3), 25), Err(Error::NotRegistered));
    assert_eq!(ledger.total_balance(), 2025);
    assert_eq!(ledger.len(), 2);
}

#[test]
fn ledger_is_rebuilt_from_its_accounts() {
    let mut ledger = Ledger::new();
    ledger.register(&owner(1)).unwrap();
    ledger.register(&owner(2)).unwrap();
    ledger.debit(&owner(2), 7).unwrap();
    let accounts = ledger.accounts();
    assert_eq!(
        accounts,
        vec![
            Account { owner: owner(1), balance: 1000 },
            Account { owner: owner(2), balance: 993 }
        ]
    );
    assert!(owners_distinct(&accounts));
    assert_eq!(checked_total(&accounts), Some(1993));
    assert_eq!(copy_accounts(&accounts), accounts);
    let rebuilt = Ledger::from_accounts(accounts).unwrap();
    assert_eq!(rebuilt.balance_of(&owner(2)), Ok(993));
    assert_eq!(rebuilt.total_balance(), 1993);
}

#[test]
fn ledger_refuses_unsound_accounts() {
    let twice = vec![
        Account { owner: owner(1), balance: 1 },
        Account { owner: owner(2), balance: 2 },
        Account { owner: owner(1), balance: 3 },
    ];
    assert!(!owners_distinct(&twice));
    assert!(Ledger::from_accounts(twice).is_none());
    let large = vec![
        Account { owner: owner(1), balance: u64::MAX },
        Account { owner: owner(2), balance: 1 },
    ];
    assert!(owners_distinct(&large));
    assert_eq!(checked_total(&large), None);
    assert!(Ledger::from_accounts(large).is_none());
    let full = vec![
        Account { owner: owner(1), balance: u64::MAX - 1 },
        Account { owner: owner(2), balance: 1 },
    ];
    assert_eq!(checked_total(&full), Some(u64::MAX));
    assert!(Ledger::from_accounts(full).is_some());
}
