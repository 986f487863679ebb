use wallet_backend::account::Account;
use wallet_backend::ledger::{BalanceArgs, Ledger, LedgerError, TransferArgs};

fn owner(id: u8) -> Vec<u8> {
    vec![id; 29]
}

fn account(id: u8) -> Account {
    Account {
        owner: owner(id),
        subaccount: None,
    }
}

#[test]
fn fresh_ledger_reads_zero_everywhere() {
    let ledger = Ledger::new();
    assert_eq!(ledger.get_balance_internal(&account(1)), 0);
    assert_eq!(ledger.get_balance_internal(&account(255)), 0);
    let with_sub = Account {
        owner: owner(1),
        subaccount: Some(vec![7u8; 32]),
    };
    assert_eq!(ledger.get_balance_internal(&with_sub), 0);
}

#[test]
fn credits_land_on_their_own_accounts_only() {
    let mut ledger = Ledger::new();
    let x = account(50);
    let y = account(51);
    let z = account(52);
    assert!(ledger.add_test_balance(x.clone(), 100).is_ok());
    assert_eq!(ledger.get_balance_internal(&x), 100);
    assert!(ledger.add_test_balance(y.clone(), 150).is_ok());
    assert_eq!(ledger.get_balance_internal(&y), 150);
    assert_eq!(ledger.get_balance_internal(&z), 0);
    assert_eq!(ledger.get_balance_internal(&x), 100);
}

#[test]
fn credit_adds_to_prior_balance() {
    let mut ledger = Ledger::new();
    let a = account(10);
    assert!(ledger.add_test_balance(a.clone(), 30).is_ok());
    assert!(ledger.add_test_balance(a.clone(), 12).is_ok());
    assert_eq!(ledger.get_balance_internal(&a), 42);
}

#[test]
fn credit_of_zero_is_visible_as_no_change() {
    let mut ledger = Ledger::new();
    let a = account(11);
    assert!(ledger.add_test_balance(a.clone(), 0).is_ok());
    assert_eq!(ledger.get_balance_internal(&a), 0);
    assert!(ledger.add_test_balance(a.clone(), 5).is_ok());
    assert!(ledger.add_test_balance(a.clone(), 0).is_ok());
    assert_eq!(ledger.get_balance_internal(&a), 5);
}

#[test]
fn credit_overflow_fails_and_changes_nothing() {
    let mut ledger = Ledger::new();
    let a = account(12);
    assert!(ledger.add_test_balance(a.clone(), u128::MAX).is_ok());
    let r = ledger.add_test_balance(a.clone(), 1);
    assert_eq!(r, Err(LedgerError::Overflow));
    assert_eq!(ledger.get_balance_internal(&a), u128::MAX);
}

#[test]
fn subaccounts_hold_separate_balances() {
    let mut ledger = Ledger::new();
    let plain = account(13);
    let sub = Account {
        owner: owner(13),
        subaccount: Some(vec![1u8; 32]),
    };
    assert!(ledger.add_test_balance(plain.clone(), 70).is_ok());
    assert!(ledger.add_test_balance(sub.clone(), 8).is_ok());
    assert_eq!(ledger.get_balance_internal(&plain), 70);
    assert_eq!(ledger.get_balance_internal(&sub), 8);
}

#[test]
fn transfer_conserves_the_two_balances() {
    let mut ledger = Ledger::new();
    let a = account(20);
    let b = account(21);
    assert!(ledger.add_test_balance(a.clone(), 300).is_ok());
    assert!(ledger.add_test_balance(b.clone(), 40).is_ok());
    let before = ledger.get_balance_internal(&a) + ledger.get_balance_internal(&b);

    let r = ledger.transfer(
        owner(20),
        TransferArgs {
            amount: 120,
            to_account: b.clone(),
        },
    );
    assert!(r.is_ok());

    let after = ledger.get_balance_internal(&a) + ledger.get_balance_internal(&b);
    assert_eq!(after, before);
    assert_eq!(ledger.get_balance_internal(&a), 180);
    assert_eq!(ledger.get_balance_internal(&b), 160);
}

#[test]
fn transfer_leaves_unrelated_accounts_alone() {
    let mut ledger = Ledger::new();
    let a = account(22);
    let b = account(23);
    let z = account(24);
    assert!(ledger.add_test_balance(a.clone(), 50).is_ok());
    assert!(ledger.add_test_balance(z.clone(), 9).is_ok());
    let r = ledger.transfer(
        owner(22),
        TransferArgs {
            amount: 50,
            to_account: b.clone(),
        },
    );
    assert!(r.is_ok());
    assert_eq!(ledger.get_balance_internal(&z), 9);
    assert_eq!(ledger.get_balance_internal(&a), 0);
    assert_eq!(ledger.get_balance_internal(&b), 50);
}

#[test]
fn insufficient_transfer_reports_current_and_required() {
    let mut ledger = Ledger::new();
    let a = account(25);
    let b = account(26);
    assert!(ledger.add_test_balance(a.clone(), 100).is_ok());
    let r = ledger.transfer(
        owner(25),
        TransferArgs {
            amount: 200,
            to_account: b.clone(),
        },
    );
    assert_eq!(
        r,
        Err(LedgerError::InsufficientBalance {
            current: 100,
            required: 200,
        })
    );
    assert_eq!(ledger.get_balance_internal(&a), 100);
    assert_eq!(ledger.get_balance_internal(&b), 0);
}

#[test]
fn transfer_from_never_seen_account_fails_unless_zero() {
    let mut ledger = Ledger::new();
    let b = account(27);
    let r = ledger.transfer(
        owner(28),
        TransferArgs {
            amount: 1,
            to_account: b.clone(),
        },
    );
    assert_eq!(
        r,
        Err(LedgerError::InsufficientBalance {
            current: 0,
            required: 1,
        })
    );
    let r0 = ledger.transfer(
        owner(28),
        TransferArgs {
            amount: 0,
            to_account: b.clone(),
        },
    );
    assert!(r0.is_ok());
    assert_eq!(ledger.get_balance_internal(&b), 0);
}

#[test]
fn transfer_overflowing_destination_fails_and_changes_nothing() {
    let mut ledger = Ledger::new();
    let a = account(30);
    let b = account(31);
    assert!(ledger.add_test_balance(a.clone(), 10).is_ok());
    assert!(ledger.add_test_balance(b.clone(), u128::MAX).is_ok());
    let r = ledger.transfer(
        owner(30),
        TransferArgs {
            amount: 10,
            to_account: b.clone(),
        },
    );
    assert_eq!(r, Err(LedgerError::Overflow));
    assert_eq!(ledger.get_balance_internal(&a), 10);
    assert_eq!(ledger.get_balance_internal(&b), u128::MAX);
}

#[test]
fn self_transfer_succeeds_and_changes_nothing() {
    let mut ledger = Ledger::new();
    let a = account(32);
    assert!(ledger.add_test_balance(a.clone(), 100).is_ok());
    let r = ledger.transfer(
        owner(32),
        TransferArgs {
            amount: 60,
            to_account: a.clone(),
        },
    );
    assert!(r.is_ok());
    assert_eq!(ledger.get_balance_internal(&a), 100);
}

#[test]
fn transaction_markers_increase_in_invocation_order() {
    let mut ledger = Ledger::new();
    let a = account(33);
    let b = account(34);
    assert!(ledger.add_test_balance(a.clone(), 100).is_ok());
    let first = ledger.transfer(
        owner(33),
        TransferArgs {
            amount: 10,
            to_account: b.clone(),
        },
    );
    let second = ledger.transfer(
        owner(33),
        TransferArgs {
            amount: 10,
            to_account: b.clone(),
        },
    );
    assert_eq!(first, Ok(1));
    assert_eq!(second, Ok(2));

    // a failed transfer consumes no marker
    let failed = ledger.transfer(
        owner(33),
        TransferArgs {
            amount: 1000,
            to_account: b.clone(),
        },
    );
    assert!(failed.is_err());
    let third = ledger.transfer(
        owner(33),
        TransferArgs {
            amount: 10,
            to_account: b.clone(),
        },
    );
    assert_eq!(third, Ok(3));
}

#[test]
fn deposit_notification_credits_the_resolved_caller() {
    let mut ledger = Ledger::new();
    let from = owner(40);
    let caller = owner(41);
    let r = ledger.deposit_notification(from, caller.clone(), 200);
    assert!(r.is_ok());
    assert_eq!(
        ledger.balance(BalanceArgs {
            account: Account {
                owner: caller,
                subaccount: None,
            },
        }),
        200
    );
    // the deposit's source identity is not credited
    assert_eq!(ledger.get_balance_internal(&account(40)), 0);
}
