use money_market::ledger::Ledger;

#[test]
fn new_ledger_reads_zero_for_everyone() {
    let ledger = Ledger::new();
    assert_eq!(ledger.get(&"alice".to_string()), 0);
    assert_eq!(ledger.get(&String::new()), 0);
}

#[test]
fn credit_adds_to_one_user_only() {
    let mut ledger = Ledger::new();
    ledger.credit(&"alice".to_string(), 70);
    ledger.credit(&"bob".to_string(), 5);
    ledger.credit(&"alice".to_string(), 30);
    assert_eq!(ledger.get(&"alice".to_string()), 100);
    assert_eq!(ledger.get(&"bob".to_string()), 5);
    assert_eq!(ledger.get(&"carol".to_string()), 0);
}

#[test]
fn debit_takes_from_one_user_only() {
    let mut ledger = Ledger::new();
    ledger.credit(&"alice".to_string(), 100);
    ledger.credit(&"bob".to_string(), 40);
    ledger.debit(&"alice".to_string(), 100);
    ledger.debit(&"bob".to_string(), 15);
    assert_eq!(ledger.get(&"alice".to_string()), 0);
    assert_eq!(ledger.get(&"bob".to_string()), 25);
}

#[test]
fn users_are_told_apart_by_their_whole_name() {
    let mut ledger = Ledger::new();
    ledger.credit(&"al".to_string(), 1);
    ledger.credit(&"alice".to_string(), 2);
    ledger.credit(&"Alice".to_string(), 4);
    assert_eq!(ledger.get(&"al".to_string()), 1);
    assert_eq!(ledger.get(&"alice".to_string()), 2);
    assert_eq!(ledger.get(&"Alice".to_string()), 4);
}

#[test]
fn sum_adds_all_balances() {
    let mut ledger = Ledger::new();
    assert!(ledger.is_empty());
    assert_eq!(ledger.sum(), 0);
    ledger.credit(&"alice".to_string(), 70);
    ledger.credit(&"bob".to_string(), 5);
    ledger.debit(&"alice".to_string(), 20);
    assert!(!ledger.is_empty());
    assert_eq!(ledger.sum(), 55);
}

#[test]
fn from_entries_accepts_distinct_users() {
    let entries = vec![
        money_market::ledger::Entry { user: "alice".to_string(), amount: 7 },
        money_market::ledger::Entry { user: "bob".to_string(), amount: u128::MAX - 7 },
    ];
    let ledger = Ledger::from_entries(entries).unwrap();
    assert_eq!(ledger.get(&"alice".to_string()), 7);
    assert_eq!(ledger.get(&"bob".to_string()), u128::MAX - 7);
    assert_eq!(ledger.sum(), u128::MAX);
    assert!(Ledger::from_entries(vec![]).unwrap().is_empty());
}

#[test]
fn from_entries_refuses_a_user_that_occurs_twice() {
    let entries = vec![
        money_market::ledger::Entry { user: "alice".to_string(), amount: 7 },
        money_market::ledger::Entry { user: "bob".to_string(), amount: 1 },
        money_market::ledger::Entry { user: "alice".to_string(), amount: 7 },
    ];
    assert!(Ledger::from_entries(entries).is_none());
}

#[test]
fn from_entries_refuses_a_sum_that_does_not_fit() {
    let entries = vec![
        money_market::ledger::Entry { user: "alice".to_string(), amount: u128::MAX },
        money_market::ledger::Entry { user: "bob".to_string(), amount: 1 },
    ];
    assert!(Ledger::from_entries(entries).is_none());
}
