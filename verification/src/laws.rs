//! The library's general guarantees, each stated as a public proof
//! function over the spec functions that the operations' contracts use.

use vstd::prelude::*;
use vstd::arithmetic::power::pow;
use vstd::arithmetic::power::lemma_pow0;
use vstd::arithmetic::power::lemma_pow1;
use vstd::arithmetic::div_mod::lemma_div_basics_2;
use vstd::arithmetic::div_mod::lemma_div_is_ordered;
use vstd::arithmetic::div_mod::lemma_div_pos_is_pos;
use vstd::arithmetic::div_mod::lemma_fundamental_div_mod;
use vstd::arithmetic::div_mod::lemma_mod_division_less_than_divisor;
use vstd::arithmetic::mul::lemma_mul_left_inequality;
use vstd::arithmetic::mul::lemma_mul_is_distributive_add;
use crate::pricing::{
    backing, can_buy, lemma_backing_monotone, lemma_backing_zero,
    lemma_cost_within_charge, lemma_pow_base_monotone, lemma_pow_base_strict, raw_area,
    spec_cost, spec_price,
};
use crate::registry::Registry;

verus! {

/// Solvency: every curve of a well-formed registry holds at least the
/// truncated cost of its entire outstanding supply up from zero — the
/// refund for selling everything — so no sequence of buys and sells can
/// drain the reserve below what the supply is entitled to.
pub proof fn lemma_solvency(r: &Registry, i: int)
    requires
        r.wf(),
        0 <= i < r.curves@.len(),
    ensures
        0 <= spec_cost(r.curves@[i].slope, r.curves@[i].exponent, 0, r.curves@[i].supply)
            <= r.curves@[i].reserve,
{
    let c = r.curves@[i];
    lemma_backing_zero(c.slope, c.exponent, c.supply);
    lemma_backing_monotone(c.slope, c.exponent, 0, c.supply);
}

/// Round trip: whatever number of tokens a buy can mint for
/// `reserve_in`, selling them back at once refunds the once-truncated
/// cost of that very interval — never more than was paid in. Buying and
/// then selling cannot extract a profit.
pub proof fn lemma_buy_sell_round_trip(
    slope: u128,
    exponent: u32,
    supply: u128,
    reserve_in: u128,
    d: u128,
)
    requires
        can_buy(slope, exponent, supply, d, reserve_in),
    ensures
        0 <= spec_cost(
            slope,
            exponent,
            ((supply + d) as u128 - d) as u128,
            (supply + d) as u128,
        ) <= reserve_in,
{
    lemma_cost_within_charge(slope, exponent, supply, (supply + d) as u128);
}

/// Monotonicity of the truncated cost: widening the supply interval on
/// either side never lowers the cost, and the cost is never negative.
pub proof fn lemma_cost_monotone(
    slope: u128,
    exponent: u32,
    s0a: u128,
    s0b: u128,
    s1a: u128,
    s1b: u128,
)
    requires
        s0b <= s0a <= s1a <= s1b,
    ensures
        0 <= spec_cost(slope, exponent, s0a, s1a) <= spec_cost(slope, exponent, s0b, s1b),
{
    let e1 = (exponent + 1) as nat;
    let n = (exponent + 1) as int;
    lemma_pow_base_monotone(s0b as int, s0a as int, e1);
    lemma_pow_base_monotone(s0a as int, s1a as int, e1);
    lemma_pow_base_monotone(s1a as int, s1b as int, e1);
    let da = pow(s1a as int, e1) - pow(s0a as int, e1);
    let db = pow(s1b as int, e1) - pow(s0b as int, e1);
    if slope > 0 {
        lemma_mul_left_inequality(slope as int, da, db);
        lemma_mul_left_inequality(slope as int, 0, da);
    }
    assert(slope * 0 == 0) by (nonlinear_arith);
    lemma_div_is_ordered(slope * da, slope * db, n);
    lemma_div_pos_is_pos(slope * da, n);
}

/// Strict monotonicity before truncation: the integral numerator
/// `slope * (s1^(exponent+1) - s0^(exponent+1))` strictly grows with the
/// upper bound. (After the truncating division the growth is weak: with
/// `slope = 1` and `exponent = 1` the costs up to supplies 0 and 1 are
/// both 0.)
pub proof fn lemma_raw_cost_strict(slope: u128, exponent: u32, s0: u128, s1a: u128, s1b: u128)
    requires
        slope >= 1,
        s0 <= s1a < s1b,
    ensures
        raw_area(slope, exponent, s1a) - raw_area(slope, exponent, s0)
            < raw_area(slope, exponent, s1b) - raw_area(slope, exponent, s0),
{
    let e1 = (exponent + 1) as nat;
    lemma_pow_base_strict(s1a as int, s1b as int, e1);
    lemma_mul_left_inequality(slope as int, pow(s1a as int, e1), pow(s1b as int, e1));
}

/// Strict monotonicity before truncation, lower side: lowering the
/// starting supply — widening the interval downward — strictly raises
/// the integral numerator.
pub proof fn lemma_raw_cost_strict_lower(
    slope: u128,
    exponent: u32,
    s0a: u128,
    s0b: u128,
    s1: u128,
)
    requires
        slope >= 1,
        s0b < s0a <= s1,
    ensures
        raw_area(slope, exponent, s1) - raw_area(slope, exponent, s0a)
            < raw_area(slope, exponent, s1) - raw_area(slope, exponent, s0b),
{
    let e1 = (exponent + 1) as nat;
    lemma_pow_base_strict(s0b as int, s0a as int, e1);
    lemma_mul_left_inequality(slope as int, pow(s0b as int, e1), pow(s0a as int, e1));
}

/// A curve with exponent zero prices every token at the constant
/// `slope`, and moving the supply by `k` costs exactly `k * slope`: the
/// divisor is one, so truncation loses nothing.
pub proof fn lemma_constant_price(slope: u128, s0: u128, s1: u128)
    requires
        s0 <= s1,
    ensures
        spec_price(slope, 0, s0) == slope,
        spec_cost(slope, 0, s0, s1) == slope * (s1 - s0),
{
    lemma_pow0(s0 as int);
    assert(slope * 1 == slope) by (nonlinear_arith);
    lemma_pow1(s0 as int);
    lemma_pow1(s1 as int);
    lemma_div_basics_2(slope * (s1 - s0));
}

/// The other face of the constant price: at exponent zero, `reserve_in`
/// reserve units buy exactly `reserve_in / slope` tokens, rounded down —
/// that mint is affordable and no larger one is. The two bounds are
/// machine limits: the resulting supply and its backing must be
/// representable.
pub proof fn lemma_constant_price_mint(slope: u128, supply: u128, reserve_in: u128)
    requires
        slope >= 1,
        supply + reserve_in / slope <= u128::MAX,
        slope * (supply + reserve_in / slope) <= u128::MAX,
    ensures
        can_buy(slope, 0, supply, (reserve_in / slope) as u128, reserve_in),
        forall|d2: u128| reserve_in / slope < d2 ==> !can_buy(slope, 0, supply, d2, reserve_in),
{
    let k = (reserve_in / slope) as u128;
    lemma_flat_backing(slope, (supply + k) as u128);
    lemma_flat_backing(slope, supply);
    lemma_mul_is_distributive_add(slope as int, supply as int, k as int);
    lemma_fundamental_div_mod(reserve_in as int, slope as int);
    lemma_mod_division_less_than_divisor(reserve_in as int, slope as int);
    assert forall|d2: u128| reserve_in / slope < d2 implies !can_buy(
        slope,
        0,
        supply,
        d2,
        reserve_in,
    ) by {
        if supply + d2 <= u128::MAX && raw_area(slope, 0, (supply + d2) as u128) <= u128::MAX {
            lemma_flat_backing(slope, (supply + d2) as u128);
            lemma_mul_is_distributive_add(slope as int, supply as int, d2 as int);
            lemma_mul_is_distributive_add(slope as int, k as int, 1);
            lemma_mul_left_inequality(slope as int, k + 1, d2 as int);
            assert(slope * 1 == slope) by (nonlinear_arith);
        }
    }
}

/// At exponent zero the backing of a supply `s` is exactly `slope * s`.
pub proof fn lemma_flat_backing(slope: u128, s: u128)
    ensures
        raw_area(slope, 0, s) == slope * s,
        backing(slope, 0, s) == slope * s,
{
    lemma_pow1(s as int);
    lemma_div_basics_2(slope * s);
}

} // verus!
