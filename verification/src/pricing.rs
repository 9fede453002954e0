//! The pricing engine: pure integer arithmetic over a power-law curve.
//!
//! The marginal price of a curve token at supply `s` is
//! `slope * s^exponent`. Moving the supply from `s0` up to `s1` costs the
//! definite integral of that price, evaluated in integer arithmetic with
//! one truncation toward zero:
//!
//! `cost(s0, s1) = slope * (s1^(exponent+1) - s0^(exponent+1)) / (exponent+1)`
//!
//! A sell refunds exactly this truncated cost, so a payout never exceeds
//! the exact continuous integral. A buy, however, is deliberately *not*
//! admitted by inverting that once-truncated cost. Admitting a mint
//! whenever the once-truncated cost is covered loses solvency: where
//! the lower endpoint's numerator leaves the larger remainder, the
//! once-truncated cost is one unit below the growth of the truncated
//! antiderivative `backing`, so such a buy can leave the reserve a unit
//! behind the backing — with slope 1 and exponent 1, buys of
//! 1, 1, 2, 3, ..., 23 reserve units from an empty curve would leave a
//! reserve of 277 against a full-sell refund of 288. A buy is therefore
//! charged against `buy_charge`, the backing difference itself: at most
//! one unit above the once-truncated cost (`lemma_cost_within_charge`
//! proves the gap exact), and exactly what keeps the reserve covering
//! the backing of the outstanding supply, so a sell can never be owed
//! more than the curve holds.

use vstd::prelude::*;
use vstd::arithmetic::power::pow;
use vstd::arithmetic::power::lemma0_pow;
use vstd::arithmetic::power::lemma_pow_increases;
use vstd::arithmetic::mul::lemma_mul_inequality;
use vstd::arithmetic::mul::lemma_mul_left_inequality;
use vstd::arithmetic::mul::lemma_mul_is_distributive_sub;
use vstd::arithmetic::div_mod::lemma_div_is_ordered;
use vstd::arithmetic::div_mod::lemma_div_pos_is_pos;
use vstd::arithmetic::div_mod::lemma_fundamental_div_mod;
use vstd::arithmetic::div_mod::lemma_fundamental_div_mod_converse_div;
use vstd::arithmetic::div_mod::lemma_mod_division_less_than_divisor;
use crate::Error;

verus! {

/// The marginal price of one token unit at supply level `s`.
pub open spec fn spec_price(slope: u128, exponent: u32, s: u128) -> int {
    slope * pow(s as int, exponent as nat)
}

/// The undivided integral numerator at one endpoint:
/// `slope * s^(exponent + 1)`.
pub open spec fn raw_area(slope: u128, exponent: u32, s: u128) -> int {
    slope * pow(s as int, (exponent + 1) as nat)
}

/// The truncated antiderivative at `s`: the reserve a supply of `s` is
/// entitled to. The registry's solvency invariant keeps each curve's
/// reserve at or above this.
pub open spec fn backing(slope: u128, exponent: u32, s: u128) -> int {
    raw_area(slope, exponent, s) / (exponent + 1) as int
}

/// Whether the integral numerator at `s` is representable, so that the
/// executable engine can evaluate the integral without overflow.
pub open spec fn backing_fits(slope: u128, exponent: u32, s: u128) -> bool {
    raw_area(slope, exponent, s) <= u128::MAX
}

/// The cost of moving the supply from `s0` up to `s1`, truncated once:
/// what a sell of `s1 - s0` tokens at supply `s1` refunds. Never exceeds
/// the exact continuous integral.
pub open spec fn spec_cost(slope: u128, exponent: u32, s0: u128, s1: u128) -> int {
    (slope * (pow(s1 as int, (exponent + 1) as nat) - pow(s0 as int, (exponent + 1) as nat)))
        / (exponent + 1) as int
}

/// The conservative charge a buy must cover to move the supply from `s0`
/// up to `s1`: the growth of the truncated backing. This diverges, by
/// design, from inverting `spec_cost` itself: it sits at most one unit
/// above `spec_cost` (see `lemma_cost_within_charge`), and that one unit
/// is what keeps the reserve covering the backing — see the module doc
/// for a sequence of `spec_cost`-admitted buys that would leave a curve
/// owing more than it holds.
pub open spec fn buy_charge(slope: u128, exponent: u32, s0: u128, s1: u128) -> int {
    backing(slope, exponent, s1) - backing(slope, exponent, s0)
}

/// Whether minting `d` tokens at supply `supply` is affordable with
/// `reserve_in` reserve units: the new supply is representable, the
/// engine can evaluate its backing, and the conservative charge is
/// covered.
pub open spec fn can_buy(slope: u128, exponent: u32, supply: u128, d: u128, reserve_in: u128) -> bool {
    &&& supply + d <= u128::MAX
    &&& backing_fits(slope, exponent, (supply + d) as u128)
    &&& buy_charge(slope, exponent, supply, (supply + d) as u128) <= reserve_in
}

/// The affordable mint `d` ran into the representable range rather than
/// into the reserve limit: either the supply itself would pass
/// `u128::MAX`, or the backing one token further is not representable.
/// The engine reports this as `Overflow` instead of silently capping.
pub open spec fn mint_capped(slope: u128, exponent: u32, supply: u128, d: u128, reserve_in: u128) -> bool {
    &&& can_buy(slope, exponent, supply, d, reserve_in)
    &&& (supply + d == u128::MAX || !backing_fits(slope, exponent, (supply + d + 1) as u128))
}

/// `pow` keeps the order of nonnegative bases, and stays nonnegative.
pub proof fn lemma_pow_base_monotone(a: int, b: int, e: nat)
    requires
        0 <= a <= b,
    ensures
        0 <= pow(a, e) <= pow(b, e),
    decreases e,
{
    if e == 0 {
        assert(pow(a, e) == 1 && pow(b, e) == 1) by {
            reveal(pow);
        }
    } else {
        lemma_pow_base_monotone(a, b, (e - 1) as nat);
        assert(pow(a, e) == a * pow(a, (e - 1) as nat)) by {
            reveal(pow);
        }
        assert(pow(b, e) == b * pow(b, (e - 1) as nat)) by {
            reveal(pow);
        }
        lemma_mul_inequality(a, b, pow(a, (e - 1) as nat));
        if b > 0 {
            lemma_mul_left_inequality(b, pow(a, (e - 1) as nat), pow(b, (e - 1) as nat));
        } else {
            assert(a == 0 && b == 0);
        }
        assert(0 <= a * pow(a, (e - 1) as nat)) by (nonlinear_arith)
            requires 0 <= a && 0 <= pow(a, (e - 1) as nat)
        {}
    }
}

/// `pow` with a positive exponent keeps strict order of nonnegative bases.
pub proof fn lemma_pow_base_strict(a: int, b: int, e: nat)
    requires
        0 <= a < b,
        e >= 1,
    ensures
        pow(a, e) < pow(b, e),
    decreases e,
{
    vstd::arithmetic::power::lemma_pow_positive(b, e);
    if e == 1 {
        assert(pow(a, 1) == a && pow(b, 1) == b) by {
            reveal(pow);
        }
    } else {
        lemma_pow_base_strict(a, b, (e - 1) as nat);
        lemma_pow_base_monotone(a, b, (e - 1) as nat);
        assert(pow(a, e) == a * pow(a, (e - 1) as nat)) by {
            reveal(pow);
        }
        assert(pow(b, e) == b * pow(b, (e - 1) as nat)) by {
            reveal(pow);
        }
        vstd::arithmetic::power::lemma_pow_positive(b, (e - 1) as nat);
        if a == 0 {
            assert(a * pow(a, (e - 1) as nat) == 0) by (nonlinear_arith)
                requires a == 0
            {}
        } else {
            lemma_mul_left_inequality(a, pow(a, (e - 1) as nat), pow(b, (e - 1) as nat));
            vstd::arithmetic::mul::lemma_mul_strict_inequality(a, b, pow(b, (e - 1) as nat));
        }
    }
}

/// Both the integral numerator and the truncated backing grow (weakly)
/// with the supply, and are nonnegative.
pub proof fn lemma_backing_monotone(slope: u128, exponent: u32, s0: u128, s1: u128)
    requires
        s0 <= s1,
    ensures
        0 <= raw_area(slope, exponent, s0) <= raw_area(slope, exponent, s1),
        0 <= backing(slope, exponent, s0) <= backing(slope, exponent, s1),
{
    let e1 = (exponent + 1) as nat;
    lemma_pow_base_monotone(s0 as int, s1 as int, e1);
    if slope > 0 {
        lemma_mul_left_inequality(slope as int, pow(s0 as int, e1), pow(s1 as int, e1));
    }
    assert(0 <= slope * pow(s0 as int, e1)) by (nonlinear_arith)
        requires 0 <= slope as int && 0 <= pow(s0 as int, e1)
    {}
    lemma_div_is_ordered(raw_area(slope, exponent, s0), raw_area(slope, exponent, s1), e1 as int);
    lemma_div_pos_is_pos(raw_area(slope, exponent, s0), e1 as int);
}

/// A supply of zero has an empty integral: numerator and backing are
/// zero, and the cost up from zero is exactly the backing.
pub proof fn lemma_backing_zero(slope: u128, exponent: u32, s: u128)
    ensures
        raw_area(slope, exponent, 0) == 0,
        backing(slope, exponent, 0) == 0,
        spec_cost(slope, exponent, 0, s) == backing(slope, exponent, s),
{
    lemma0_pow((exponent + 1) as nat);
    assert(slope * pow(0, (exponent + 1) as nat) == 0) by (nonlinear_arith)
        requires pow(0, (exponent + 1) as nat) == 0
    {}
    vstd::arithmetic::div_mod::lemma_div_basics_1((exponent + 1) as int);
    lemma_mul_is_distributive_sub(
        slope as int,
        pow(s as int, (exponent + 1) as nat),
        pow(0, (exponent + 1) as nat),
    );
}

/// The once-truncated cost sits within one unit below the conservative
/// charge, and both are nonnegative: truncating the difference once never
/// pays more than the difference of the truncations.
pub proof fn lemma_cost_within_charge(slope: u128, exponent: u32, s0: u128, s1: u128)
    requires
        s0 <= s1,
    ensures
        0 <= spec_cost(slope, exponent, s0, s1),
        buy_charge(slope, exponent, s0, s1) - 1
            <= spec_cost(slope, exponent, s0, s1)
            <= buy_charge(slope, exponent, s0, s1),
{
    let n = (exponent + 1) as int;
    let a = raw_area(slope, exponent, s1);
    let b = raw_area(slope, exponent, s0);
    lemma_backing_monotone(slope, exponent, s0, s1);
    lemma_mul_is_distributive_sub(
        slope as int,
        pow(s1 as int, (exponent + 1) as nat),
        pow(s0 as int, (exponent + 1) as nat),
    );
    lemma_fundamental_div_mod(a, n);
    lemma_fundamental_div_mod(b, n);
    lemma_mod_division_less_than_divisor(a, n);
    lemma_mod_division_less_than_divisor(b, n);
    let qa = a / n;
    let qb = b / n;
    let ra = a % n;
    let rb = b % n;
    assert(a - b == (qa - qb) * n + (ra - rb)) by (nonlinear_arith)
        requires a == n * qa + ra && b == n * qb + rb
    {}
    if ra >= rb {
        lemma_fundamental_div_mod_converse_div(a - b, n, qa - qb, ra - rb);
    } else {
        assert(a - b == (qa - qb - 1) * n + (ra - rb + n)) by (nonlinear_arith)
            requires a - b == (qa - qb) * n + (ra - rb)
        {}
        lemma_fundamental_div_mod_converse_div(a - b, n, qa - qb - 1, ra - rb + n);
    }
    lemma_div_pos_is_pos(a - b, n);
}

/// Affordability only gets easier for smaller mints: if `d2` tokens are
/// affordable, so are any `d1 <= d2`.
pub proof fn lemma_can_buy_monotone(slope: u128, exponent: u32, supply: u128, d1: u128, d2: u128, reserve_in: u128)
    requires
        d1 <= d2,
        can_buy(slope, exponent, supply, d2, reserve_in),
    ensures
        can_buy(slope, exponent, supply, d1, reserve_in),
{
    lemma_backing_monotone(slope, exponent, (supply + d1) as u128, (supply + d2) as u128);
    lemma_backing_monotone(slope, exponent, supply, (supply + d1) as u128);
}

/// A capped mint is the largest affordable one: past the representable
/// range nothing larger can be bought.
pub proof fn lemma_capped_is_largest(slope: u128, exponent: u32, supply: u128, d: u128, reserve_in: u128)
    requires
        mint_capped(slope, exponent, supply, d, reserve_in),
    ensures
        can_buy(slope, exponent, supply, d, reserve_in),
        forall|d2: u128| d < d2 ==> !can_buy(slope, exponent, supply, d2, reserve_in),
{
    assert forall|d2: u128| d < d2 implies !can_buy(slope, exponent, supply, d2, reserve_in) by {
        if supply + d2 <= u128::MAX {
            lemma_backing_monotone(slope, exponent, (supply + d + 1) as u128, (supply + d2) as u128);
        }
    }
}

/// Raising a base that is at most `u128::MAX` to the power `e`, detecting
/// any excursion past `u128::MAX` instead of wrapping.
fn checked_pow_u128(base: u128, e: u64) -> (r: Option<u128>)
    ensures
        match r {
            Some(v) => v == pow(base as int, e as nat),
            None => pow(base as int, e as nat) > u128::MAX,
        },
{
    let mut acc: u128 = 1;
    let mut i: u64 = 0;
    proof {
        assert(pow(base as int, 0) == 1) by {
            reveal(pow);
        }
    }
    while i < e
        invariant
            i <= e,
            acc == pow(base as int, i as nat),
        decreases e - i,
    {
        proof {
            assert(pow(base as int, (i + 1) as nat) == base * pow(base as int, i as nat)) by {
                reveal(pow);
            }
        }
        match acc.checked_mul(base) {
            Some(next) => {
                proof {
                    assert(acc * base == base * acc) by (nonlinear_arith);
                }
                acc = next;
            },
            None => {
                proof {
                    assert(acc * base == base * acc) by (nonlinear_arith);
                    // The overflowing product is pow(base, i + 1); a base of
                    // 0 or 1 can never overflow, so base >= 2 and pow grows
                    // with the exponent.
                    assert(base >= 2) by (nonlinear_arith)
                        requires acc * base > u128::MAX, acc <= u128::MAX, 0 <= acc, 0 <= base
                    {}
                    lemma_pow_increases(base as nat, (i + 1) as nat, e as nat);
                }
                return None;
            },
        }
        i = i + 1;
    }
    Some(acc)
}

/// The truncated backing of a supply of `s`, or `None` where the integral
/// numerator leaves `u128`.
pub fn backing_units(slope: u128, exponent: u32, s: u128) -> (r: Option<u128>)
    requires
        slope >= 1,
    ensures
        match r {
            Some(v) => backing_fits(slope, exponent, s) && v == backing(slope, exponent, s),
            None => !backing_fits(slope, exponent, s),
        },
{
    let e1: u64 = exponent as u64 + 1;
    match checked_pow_u128(s, e1) {
        None => {
            proof {
                lemma_pow_base_monotone(0, s as int, e1 as nat);
                lemma_mul_inequality(1, slope as int, pow(s as int, e1 as nat));
            }
            None
        },
        Some(p) => {
            match slope.checked_mul(p) {
                None => None,
                Some(area) => {
                    let divisor: u128 = exponent as u128 + 1;
                    Some(area / divisor)
                },
            }
        },
    }
}

/// The once-truncated cost of moving the supply from `s0` up to `s1`.
/// `None` only where the integral numerator at `s1` leaves `u128`; where
/// it fits, the cost is always returned.
pub fn cost_units(slope: u128, exponent: u32, s0: u128, s1: u128) -> (r: Option<u128>)
    requires
        slope >= 1,
        s0 <= s1,
    ensures
        match r {
            Some(v) => v == spec_cost(slope, exponent, s0, s1),
            None => !backing_fits(slope, exponent, s1),
        },
        backing_fits(slope, exponent, s1) ==> r is Some,
{
    let e1: u64 = exponent as u64 + 1;
    proof {
        lemma_pow_base_monotone(s0 as int, s1 as int, e1 as nat);
        lemma_mul_inequality(1, slope as int, pow(s1 as int, e1 as nat));
    }
    let p1 = match checked_pow_u128(s1, e1) {
        None => {
            return None;
        },
        Some(v) => v,
    };
    let p0 = match checked_pow_u128(s0, e1) {
        None => {
            proof {
                assert(false);
            }
            return None;
        },
        Some(v) => v,
    };
    match slope.checked_mul(p1 - p0) {
        None => {
            proof {
                lemma_mul_left_inequality(slope as int, (p1 - p0) as int, p1 as int);
            }
            None
        },
        Some(num) => {
            proof {
                lemma_mul_left_inequality(slope as int, (p1 - p0) as int, p1 as int);
            }
            let divisor: u128 = exponent as u128 + 1;
            Some(num / divisor)
        },
    }
}

/// The truncated refund for burning `tokens` out of a supply of `supply`:
/// `spec_cost(supply - tokens, supply)`, never more than the exact
/// integral. Fails with `Overflow` only where the integral numerator at
/// `supply` itself is not representable.
pub fn reserve_for_tokens(slope: u128, exponent: u32, supply: u128, tokens: u128) -> (r: Result<u128, Error>)
    requires
        slope >= 1,
        tokens <= supply,
    ensures
        match r {
            Ok(v) => v == spec_cost(slope, exponent, (supply - tokens) as u128, supply),
            Err(e) => e == Error::Overflow && !backing_fits(slope, exponent, supply),
        },
        backing_fits(slope, exponent, supply) ==> r is Ok,
{
    match cost_units(slope, exponent, supply - tokens, supply) {
        Some(v) => Ok(v),
        None => Err(Error::Overflow),
    }
}

/// Whether minting `d` tokens at supply `supply` is affordable with
/// `reserve_in`, decided executably against the conservative charge.
fn affordable(slope: u128, exponent: u32, supply: u128, d: u128, reserve_in: u128) -> (r: bool)
    requires
        slope >= 1,
    ensures
        r == can_buy(slope, exponent, supply, d, reserve_in),
{
    if d > u128::MAX - supply {
        return false;
    }
    match backing_units(slope, exponent, supply + d) {
        None => false,
        Some(b1) => {
            proof {
                lemma_backing_monotone(slope, exponent, supply, (supply + d) as u128);
            }
            match backing_units(slope, exponent, supply) {
                None => {
                    proof {
                        assert(false);
                    }
                    false
                },
                Some(b0) => b1 - b0 <= reserve_in,
            }
        },
    }
}

/// The largest number of tokens that `reserve_in` reserve units can mint
/// at supply `supply`: the greatest `d` whose conservative charge the
/// amount covers. Found by binary search, since the charge is monotone in
/// `d`. Reports `Overflow` where the search ran into the representable
/// range instead of the reserve limit, so a caller is never silently
/// handed a capped mint.
pub fn tokens_for_reserve(slope: u128, exponent: u32, supply: u128, reserve_in: u128) -> (r: Result<u128, Error>)
    requires
        slope >= 1,
        backing_fits(slope, exponent, supply),
    ensures
        match r {
            Ok(d) => {
                &&& can_buy(slope, exponent, supply, d, reserve_in)
                &&& supply + d < u128::MAX
                &&& backing_fits(slope, exponent, (supply + d + 1) as u128)
                &&& forall|d2: u128| d < d2 && supply + d2 <= u128::MAX
                    ==> #[trigger] buy_charge(slope, exponent, supply, (supply + d2) as u128)
                        > reserve_in
            },
            Err(e) => {
                &&& e == Error::Overflow
                &&& exists|d: u128| #[trigger] mint_capped(slope, exponent, supply, d, reserve_in)
            },
        },
{
    let cap: u128 = u128::MAX - supply;
    if affordable(slope, exponent, supply, cap, reserve_in) {
        proof {
            assert(mint_capped(slope, exponent, supply, cap, reserve_in));
        }
        return Err(Error::Overflow);
    }
    let mut lo: u128 = 0;
    let mut hi: u128 = cap;
    while hi - lo > 1
        invariant
            slope >= 1,
            lo < hi <= u128::MAX - supply,
            can_buy(slope, exponent, supply, lo, reserve_in),
            !can_buy(slope, exponent, supply, hi, reserve_in),
        decreases hi - lo,
    {
        let mid: u128 = lo + (hi - lo) / 2;
        if affordable(slope, exponent, supply, mid, reserve_in) {
            lo = mid;
        } else {
            hi = mid;
        }
    }
    // Here hi == lo + 1, lo is affordable and hi is not: either the next
    // backing is not representable (the range, not the reserve, stopped
    // the search) or its charge exceeds the reserve.
    match backing_units(slope, exponent, supply + lo + 1) {
        None => {
            proof {
                assert(mint_capped(slope, exponent, supply, lo, reserve_in));
            }
            Err(Error::Overflow)
        },
        Some(_) => {
            proof {
                assert forall|d2: u128| lo < d2 && supply + d2 <= u128::MAX
                    implies #[trigger] buy_charge(slope, exponent, supply, (supply + d2) as u128)
                        > reserve_in by {
                    lemma_backing_monotone(
                        slope,
                        exponent,
                        (supply + lo + 1) as u128,
                        (supply + d2) as u128,
                    );
                }
            }
            Ok(lo)
        },
    }
}

} // verus!
