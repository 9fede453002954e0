use bonding_curve::Error;
use bonding_curve::ledger::Ledger;

#[test]
fn a_fresh_ledger_is_empty() {
    let ledger = Ledger::new();
    assert_eq!(ledger.balance_of(0, 0), 0);
    assert_eq!(ledger.balance_of(7, 3), 0);
}

#[test]
fn minting_and_burning_move_one_balance_only() {
    let mut ledger = Ledger::new();
    assert_eq!(ledger.mint(1, 0, 100), Ok(()));
    assert_eq!(ledger.mint(1, 0, 20), Ok(()));
    assert_eq!(ledger.mint(1, 5, 7), Ok(()));
    assert_eq!(ledger.balance_of(1, 0), 120);
    assert_eq!(ledger.balance_of(1, 5), 7);
    assert_eq!(ledger.balance_of(2, 0), 0);

    assert_eq!(ledger.burn(1, 0, 30), Ok(()));
    assert_eq!(ledger.balance_of(1, 0), 90);
    assert_eq!(ledger.burn(1, 0, 91), Err(Error::BalanceTooLow));
    assert_eq!(ledger.balance_of(1, 0), 90);

    assert_eq!(ledger.mint(1, 0, u128::MAX), Err(Error::Overflow));
    assert_eq!(ledger.balance_of(1, 0), 90);
}

#[test]
fn transfers_conserve_and_check_both_sides() {
    let mut ledger = Ledger::new();
    assert_eq!(ledger.mint(1, 0, 100), Ok(()));
    assert_eq!(ledger.mint(2, 0, u128::MAX - 10), Ok(()));

    assert_eq!(ledger.transfer(1, 3, 0, 40), Ok(()));
    assert_eq!(ledger.balance_of(1, 0), 60);
    assert_eq!(ledger.balance_of(3, 0), 40);

    assert_eq!(ledger.transfer(1, 3, 0, 61), Err(Error::BalanceTooLow));
    assert_eq!(ledger.balance_of(1, 0), 60);
    assert_eq!(ledger.balance_of(3, 0), 40);

    // The receiving balance may not pass u128::MAX.
    assert_eq!(ledger.transfer(1, 2, 0, 60), Err(Error::Overflow));
    assert_eq!(ledger.balance_of(1, 0), 60);
    assert_eq!(ledger.balance_of(2, 0), u128::MAX - 10);

    // A transfer to oneself only checks the holding.
    assert_eq!(ledger.transfer(1, 1, 0, 60), Ok(()));
    assert_eq!(ledger.balance_of(1, 0), 60);
    assert_eq!(ledger.transfer(1, 1, 0, 61), Err(Error::BalanceTooLow));
}
