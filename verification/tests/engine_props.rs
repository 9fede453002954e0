use bonding_curve::Error;
use bonding_curve::fixture::{ALICE, BOB, CURVE_DEPOSIT, ExtBuilder};
use bonding_curve::pricing::{backing_units, cost_units, reserve_for_tokens, tokens_for_reserve};

#[test]
fn backing_follows_the_closed_form() {
    // backing(s) = slope * s^(e+1) / (e+1), truncating.
    assert_eq!(backing_units(1, 1, 0), Some(0));
    assert_eq!(backing_units(1, 1, 1), Some(0)); // 1 / 2 truncates
    assert_eq!(backing_units(1, 1, 2), Some(2));
    assert_eq!(backing_units(1, 1, 3), Some(4)); // 9 / 2 truncates
    assert_eq!(backing_units(3, 2, 10), Some(1000)); // 3 * 1000 / 3
    assert_eq!(backing_units(5, 0, 7), Some(35)); // 5 * 7 / 1
    // The numerator must stay representable.
    assert_eq!(backing_units(1, 3, 1u128 << 40), None);
}

#[test]
fn cost_truncates_the_difference_once() {
    // cost(s0, s1) = slope * (s1^(e+1) - s0^(e+1)) / (e+1), one
    // truncation: (4 - 1) / 2 pays 1, not backing(2) - backing(1) = 2.
    assert_eq!(cost_units(1, 1, 1, 2), Some(1));
    assert_eq!(cost_units(1, 1, 5, 6), Some(5)); // (36 - 25) / 2
    assert_eq!(cost_units(1, 1, 0, 2), Some(2));
}

#[test]
fn cost_is_monotone_in_the_upper_bound_and_the_gap() {
    // Fixed parameters: cost(s0, s1) grows with s1 ...
    let costs: Vec<u128> = (0u128..=6)
        .map(|s1| cost_units(1, 1, 0, s1).unwrap())
        .collect();
    assert_eq!(costs, vec![0, 0, 2, 4, 8, 12, 18]);
    for w in costs.windows(2) {
        assert!(w[0] <= w[1]);
    }
    // ... and shrinks as s0 rises toward s1.
    assert!(cost_units(1, 1, 0, 6).unwrap() >= cost_units(1, 1, 2, 6).unwrap());
    assert!(cost_units(1, 1, 2, 6).unwrap() >= cost_units(1, 1, 5, 6).unwrap());
}

#[test]
fn exponent_zero_prices_every_token_at_slope() {
    // Constant price: k tokens cost exactly k * slope, nothing truncates.
    assert_eq!(cost_units(7, 0, 5, 17), Some(7 * 12));
    assert_eq!(cost_units(7, 0, 0, 1), Some(7));

    let mut registry = ExtBuilder::default().build();
    assert_eq!(registry.create(ALICE, 1, 0, 7, 100, 0), Ok(0));
    // 35 reserve units buy exactly 5 tokens at price 7.
    assert_eq!(registry.buy(BOB, 0, 35), Ok(5));
    assert_eq!(registry.balance_of(BOB, 1), 5);
    // Selling them refunds exactly 35: no rounding spread at exponent 0.
    assert_eq!(registry.sell(BOB, 0, 5), Ok(35));
}

#[test]
fn buying_then_selling_back_never_profits() {
    let mut registry = ExtBuilder::default().build();
    assert_eq!(registry.create(ALICE, 1, 1, 1, 1000, 0), Ok(0));

    let paid: u128 = 1001;
    let bob_before = registry.native_balance_of(BOB);
    // Largest d with d * d / 2 <= 1001 is 44, charged 968.
    let minted = registry.buy(BOB, 0, paid).unwrap();
    assert_eq!(minted, 44);
    let refund = registry.sell(BOB, 0, minted).unwrap();
    assert_eq!(refund, 968);
    assert!(refund <= paid);
    let bob_after = registry.native_balance_of(BOB);
    assert!(bob_after <= bob_before);
    assert_eq!(bob_before - bob_after, paid - refund);
}

#[test]
fn reserve_always_covers_the_outstanding_supply() {
    let mut registry = ExtBuilder::default().build();
    assert_eq!(registry.create(ALICE, 1, 1, 1, 1000, 0), Ok(0));
    assert_eq!(registry.buy(BOB, 0, 1_000_000_000_000), Ok(1_414_213));
    assert_eq!(registry.sell(BOB, 0, 400_000), Ok(485_685_200_000));

    // Selling the whole remaining supply is owed no more than the curve
    // holds.
    let bc = registry.curve(0).unwrap();
    let owed = reserve_for_tokens(bc.slope, bc.exponent, bc.supply, bc.supply).unwrap();
    assert!(owed <= bc.reserve);
}

#[test]
fn tokens_for_reserve_finds_the_largest_affordable_mint() {
    // d = 1_414_213 is affordable for 10^12 at supply 0, d + 1 is not.
    assert_eq!(tokens_for_reserve(1, 1, 0, 1_000_000_000_000), Ok(1_414_213));
    assert!(backing_units(1, 1, 1_414_213).unwrap() <= 1_000_000_000_000);
    assert!(backing_units(1, 1, 1_414_214).unwrap() > 1_000_000_000_000);
    // Too little reserve affords nothing.
    assert_eq!(tokens_for_reserve(5, 0, 3, 4), Ok(0));
}

#[test]
fn a_buy_too_small_to_mint_is_refused_whole() {
    let mut registry = ExtBuilder::default().build();
    assert_eq!(registry.create(ALICE, 1, 0, 7, 100, 0), Ok(0));
    // 6 reserve units cannot pay the constant price 7.
    assert_eq!(registry.buy(BOB, 0, 6), Err(Error::AmountTooSmall));
    assert_eq!(registry.buy(BOB, 0, 0), Err(Error::AmountTooSmall));
    assert_eq!(registry.native_balance_of(BOB), 1_000_000_000_000);
    assert_eq!(registry.curve(0).unwrap().supply, 0);
}

#[test]
fn a_mint_stopped_by_the_range_is_refused() {
    // At exponent 200, a supply of 2 already has an unrepresentable
    // backing: the engine reports overflow and the buy is refused whole.
    let mut registry = ExtBuilder::default().build();
    assert_eq!(registry.create(ALICE, 1, 200, 1, 0, 0), Ok(0));
    assert_eq!(registry.buy(BOB, 0, 1000), Err(Error::AmountTooSmall));
    assert_eq!(registry.curve(0).unwrap().supply, 0);
    assert_eq!(registry.native_balance_of(BOB), 1_000_000_000_000);

    // The same where the supply itself would run out of u128.
    let builder = ExtBuilder {
        endowed_accounts: vec![],
        balances: vec![(ALICE, 1000), (BOB, u128::MAX)],
    };
    let mut registry = builder.build();
    assert_eq!(registry.create(ALICE, 1, 0, 1, 0, 0), Ok(0));
    assert_eq!(registry.buy(BOB, 0, u128::MAX), Err(Error::AmountTooSmall));
}

#[test]
fn unknown_curves_are_refused() {
    let mut registry = ExtBuilder::default().build();
    assert_eq!(registry.buy(BOB, 0, 10), Err(Error::CurveNotFound));
    assert_eq!(registry.sell(BOB, 0, 10), Err(Error::CurveNotFound));
    assert_eq!(registry.create(ALICE, 1, 1, 1, 1000, 0), Ok(0));
    assert_eq!(registry.buy(BOB, 1, 10), Err(Error::CurveNotFound));
    assert!(registry.curve(1).is_none());
}

#[test]
fn a_creator_who_cannot_pay_the_deposit_is_refused() {
    // Alice holds less than the fixed creation deposit.
    let builder = ExtBuilder {
        endowed_accounts: vec![],
        balances: vec![(ALICE, CURVE_DEPOSIT - 1), (BOB, 1000)],
    };
    let mut registry = builder.build();
    assert_eq!(registry.create(ALICE, 1, 1, 1, 1000, 0), Err(Error::BalanceTooLow));
    assert!(registry.curve(0).is_none());
    assert_eq!(registry.native_balance_of(ALICE), CURVE_DEPOSIT - 1);
}

#[test]
fn selling_more_than_the_supply_fails_before_any_mutation() {
    // Bob holds 5 genesis units of the curve currency, but the curve
    // itself never minted anything.
    let builder = ExtBuilder {
        endowed_accounts: vec![(BOB, 1, 5)],
        balances: vec![(ALICE, 1000), (BOB, 1000)],
    };
    let mut registry = builder.build();
    assert_eq!(registry.create(ALICE, 1, 1, 1, 100, 0), Ok(0));
    assert_eq!(registry.sell(BOB, 0, 3), Err(Error::BalanceTooLow));
    // Nothing moved.
    assert_eq!(registry.balance_of(BOB, 1), 5);
    assert_eq!(registry.native_balance_of(BOB), 1000);
    let bc = registry.curve(0).unwrap();
    assert_eq!(bc.supply, 0);
    assert_eq!(bc.reserve, CURVE_DEPOSIT);
}

#[test]
fn trades_that_overflow_balances_are_refused_whole() {
    // The curve's reserve cannot absorb an amount past u128::MAX.
    let builder = ExtBuilder {
        endowed_accounts: vec![],
        balances: vec![(ALICE, 1000), (BOB, u128::MAX)],
    };
    let mut registry = builder.build();
    assert_eq!(registry.create(ALICE, 1, 0, 1, 1000, 0), Ok(0));
    assert_eq!(registry.buy(BOB, 0, u128::MAX - 5), Err(Error::Overflow));
    assert_eq!(registry.curve(0).unwrap().reserve, CURVE_DEPOSIT);

    // The buyer's token holding cannot pass u128::MAX either.
    let builder = ExtBuilder {
        endowed_accounts: vec![(BOB, 1, u128::MAX)],
        balances: vec![(ALICE, 1000), (BOB, 1000)],
    };
    let mut registry = builder.build();
    assert_eq!(registry.create(ALICE, 1, 0, 1, 1000, 0), Ok(0));
    assert_eq!(registry.buy(BOB, 0, 500), Err(Error::Overflow));

    // And a refund cannot push the seller's native balance past the top.
    let builder = ExtBuilder {
        endowed_accounts: vec![(BOB, 1, 10)],
        balances: vec![(ALICE, 1000), (BOB, u128::MAX)],
    };
    let mut registry = builder.build();
    assert_eq!(registry.create(ALICE, 1, 0, 1, 0, 0), Ok(0));
    assert_eq!(registry.buy(ALICE, 0, 7), Ok(7));
    assert_eq!(registry.sell(BOB, 0, 5), Err(Error::Overflow));
    assert_eq!(registry.balance_of(BOB, 1), 10);
    assert_eq!(registry.curve(0).unwrap().supply, 7);
}
