use bonding_curve::Error;
use bonding_curve::fixture::{ALICE, BOB, CURVE_DEPOSIT, ExtBuilder};
use bonding_curve::registry::Event;

#[test]
fn it_creates_a_new_bonding_curve() {
    let mut registry = ExtBuilder::default().build();

    // Genesis keeps both ledgers: the currency-0 token endowments and
    // the native balances.
    assert_eq!(registry.balance_of(ALICE, 0), 1_000);
    assert_eq!(registry.native_balance_of(ALICE), 1_000_000_000_000);

    // The native reserve currency is already spoken for: no curve may
    // bind it.
    assert_eq!(
        registry.create(ALICE, 0, 1, 1, 1000, 0),
        Err(Error::CurrencyAlreadyExists),
    );
    // The refused creation changed nothing.
    assert!(registry.curve(0).is_none());
    assert_eq!(registry.native_balance_of(ALICE), 1_000_000_000_000);
    assert_eq!(registry.events.len(), 0);

    assert_eq!(registry.create(ALICE, 1, 1, 1, 1000, 0), Ok(0));

    let bc = registry.curve(0).unwrap();
    assert_eq!(bc.creator, ALICE);
    assert_eq!(bc.currency_id, 1);
    assert_eq!(bc.exponent, 1);
    assert_eq!(bc.slope, 1);
    assert_eq!(bc.price_seed, 1000);

    // The fixed deposit moved from the creator into the curve's reserve.
    assert_eq!(bc.reserve, CURVE_DEPOSIT);
    assert_eq!(bc.supply, 0);
    assert_eq!(
        registry.native_balance_of(ALICE),
        1_000_000_000_000 - CURVE_DEPOSIT,
    );
    assert_eq!(
        registry.events[0],
        Event::CurveCreated { id: 0, currency_id: 1, creator: ALICE },
    );

    // A second curve on the same currency is refused.
    assert_eq!(
        registry.create(BOB, 1, 2, 3, 10, 0),
        Err(Error::CurrencyAlreadyExists),
    );
}

#[test]
fn it_can_buy_from_a_bonding_curve() {
    let mut registry = ExtBuilder::default().build();

    // Alice creates a bonding curve: price = supply, cost = supply^2 / 2.
    assert_eq!(
        registry.create(ALICE, 1, 1, 1, 1_000_000_000_000_000, 0),
        Ok(0),
    );

    let bob_bal_before = registry.native_balance_of(BOB);
    assert_eq!(bob_bal_before, 1_000_000_000_000);

    // Bob spends his whole native balance. The largest d with
    // d * d / 2 <= 1_000_000_000_000 is 1_414_213.
    assert_eq!(registry.buy(BOB, 0, 1_000_000_000_000), Ok(1_414_213));

    let bob_bal_after = registry.native_balance_of(BOB);
    assert_eq!(bob_bal_after, 0);

    // The token ledger: the minted curve tokens, and the untouched
    // currency-0 endowment beside them.
    assert_eq!(registry.balance_of(BOB, 1), 1_414_213);
    assert_eq!(registry.balance_of(BOB, 0), 1_000);

    // The whole amount joined the curve's reserve.
    let bc = registry.curve(0).unwrap();
    assert_eq!(bc.reserve, 1_000_000_000_000 + CURVE_DEPOSIT);
    assert_eq!(bc.supply, 1_414_213);
    assert_eq!(
        registry.events[1],
        Event::Bought {
            curve_id: 0,
            buyer: BOB,
            reserve_in: 1_000_000_000_000,
            tokens_out: 1_414_213,
        },
    );
}

#[test]
fn it_can_sell_to_a_bonding_curve() {
    let mut registry = ExtBuilder::default().build();

    // Alice creates a bonding curve.
    assert_eq!(registry.create(ALICE, 1, 1, 1, 1000, 0), Ok(0));

    // Bob buys 2 tokens: 2 * 2 / 2 = 2 reserve units buy exactly 2.
    assert_eq!(registry.buy(BOB, 0, 2), Ok(2));
    assert_eq!(registry.balance_of(BOB, 1), 2);

    // First Bob tries to sell too many tokens.
    assert_eq!(registry.sell(BOB, 0, 3), Err(Error::BalanceTooLow));
    // The refused sell changed nothing.
    assert_eq!(registry.balance_of(BOB, 1), 2);
    assert_eq!(registry.curve(0).unwrap().supply, 2);

    // Bob sells 1 token back: refund = (2*2 - 1*1) / 2, truncated, = 1.
    assert_eq!(registry.sell(BOB, 0, 1), Ok(1));
    assert_eq!(registry.balance_of(BOB, 1), 1);
    assert_eq!(registry.curve(0).unwrap().supply, 1);
    assert_eq!(registry.curve(0).unwrap().reserve, CURVE_DEPOSIT + 2 - 1);
    assert_eq!(
        registry.events[2],
        Event::Sold { curve_id: 0, seller: BOB, tokens_in: 1, reserve_out: 1 },
    );
}
