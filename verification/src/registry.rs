//! The curve registry: owns every bonding curve's state, the two ledgers
//! it settles against — the native balance ledger for the reserve
//! currency and the token ledger for everything else — and the event log.
//! It applies the three operations — create, buy, sell — as atomic state
//! transitions: each either commits all of its effects or returns an
//! error and changes nothing.
//!
//! The registry's well-formedness carries the solvency invariant: each
//! curve's recorded reserve covers the truncated backing of its
//! outstanding supply, so no sequence of buys and sells can drain the
//! reserve below what the supply is entitled to.

use vstd::prelude::*;
use crate::{AccountId, Balance, CurrencyId, Error, NATIVE_CURRENCY};
use crate::ledger::Ledger;
use crate::pricing::{
    backing, backing_fits, can_buy, lemma_backing_monotone, lemma_backing_zero,
    lemma_capped_is_largest, lemma_cost_within_charge, mint_capped, reserve_for_tokens,
    spec_cost, tokens_for_reserve,
};

verus! {

/// One bonding curve: immutable parameters fixed at creation, and the
/// mutable supply and reserve that buys and sells move.
#[derive(Clone, Copy)]
pub struct BondingCurve {
    /// Sequential identifier: the position of the curve in the registry.
    pub id: usize,
    /// The account that created the curve.
    pub creator: AccountId,
    /// The currency this curve mints and burns; bound to it for good.
    pub currency_id: CurrencyId,
    /// Exponent of the power-law price `slope * supply^exponent`.
    pub exponent: u32,
    /// Positive scaling coefficient of the price.
    pub slope: u128,
    /// Initial price seed, recorded at creation for consumers of the
    /// curve; the power-law engine prices from `slope` and `exponent`
    /// alone.
    pub price_seed: Balance,
    /// Reserve-currency units held by the curve.
    pub reserve: Balance,
    /// Curve-token units minted and not yet burned.
    pub supply: Balance,
}

impl BondingCurve {
    /// Well-formedness: the slope is positive, the engine can evaluate the
    /// backing of the current supply, and the reserve covers it.
    pub open spec fn wf(self) -> bool {
        &&& self.slope >= 1
        &&& backing_fits(self.slope, self.exponent, self.supply)
        &&& backing(self.slope, self.exponent, self.supply) <= self.reserve
    }
}

/// What the registry reports to its surroundings: one entry per
/// successful operation, in order.
#[derive(Clone, Copy, Debug, PartialEq, Eq, Structural)]
pub enum Event {
    /// A curve was created.
    CurveCreated { id: usize, currency_id: CurrencyId, creator: AccountId },
    /// Tokens were bought from a curve.
    Bought { curve_id: usize, buyer: AccountId, reserve_in: Balance, tokens_out: Balance },
    /// Tokens were sold back to a curve.
    Sold { curve_id: usize, seller: AccountId, tokens_in: Balance, reserve_out: Balance },
}

/// `d` is the largest number of tokens that `reserve_in` can mint on `c`.
pub open spec fn largest_mint(c: BondingCurve, reserve_in: Balance, d: Balance) -> bool {
    &&& can_buy(c.slope, c.exponent, c.supply, d, reserve_in)
    &&& forall|d2: Balance| d < d2 ==> !can_buy(c.slope, c.exponent, c.supply, d2, reserve_in)
}

/// The registry: the authoritative copy of every curve, the two ledgers,
/// the event log, and the fixed creation deposit it was configured with.
pub struct Registry {
    pub curves: Vec<BondingCurve>,
    /// The multi-currency token ledger (curve tokens, and any other
    /// endowed currencies).
    pub tokens: Ledger,
    /// The native balance ledger: the reserve currency that deposits and
    /// trades settle in. Only `NATIVE_CURRENCY` entries are ever posted.
    pub balances: Ledger,
    /// Events emitted by successful operations, oldest first.
    pub events: Vec<Event>,
    /// The fixed deposit every curve creation moves from the creator
    /// into the new curve's reserve.
    pub curve_deposit: Balance,
}

/// The committed effect of a buy of `d` tokens for `reserve_amount_in` on
/// curve `curve_id`: the whole amount moves from the caller's native
/// balance into the curve's reserve, `d` tokens join the supply and the
/// caller's holding, a `Bought` event is logged, and nothing else moves.
pub open spec fn buy_applied(
    pre: Registry,
    post: Registry,
    caller: AccountId,
    curve_id: usize,
    reserve_amount_in: Balance,
    d: Balance,
) -> bool {
    let c = pre.curves@[curve_id as int];
    let native = pre.balances.spec_balance(caller, NATIVE_CURRENCY);
    let held = pre.tokens.spec_balance(caller, c.currency_id);
    &&& post.curves@ =~= pre.curves@.update(
        curve_id as int,
        (BondingCurve {
            reserve: (c.reserve + reserve_amount_in) as Balance,
            supply: (c.supply + d) as Balance,
            ..c
        }),
    )
    &&& post.balances.spec_balance(caller, NATIVE_CURRENCY) == native - reserve_amount_in
    &&& forall|a: AccountId, c2: CurrencyId| !(a == caller && c2 == NATIVE_CURRENCY)
        ==> post.balances.spec_balance(a, c2) == pre.balances.spec_balance(a, c2)
    &&& post.tokens.spec_balance(caller, c.currency_id) == held + d
    &&& forall|a: AccountId, c2: CurrencyId| !(a == caller && c2 == c.currency_id)
        ==> post.tokens.spec_balance(a, c2) == pre.tokens.spec_balance(a, c2)
    &&& post.events@ =~= pre.events@.push(
        (Event::Bought { curve_id, buyer: caller, reserve_in: reserve_amount_in, tokens_out: d }),
    )
    &&& post.curve_deposit == pre.curve_deposit
}

/// What a buy must return and do once the curve exists, the amount is
/// positive and covered by the caller's native balance, and `d` is the
/// largest affordable mint: a mint of nothing and a mint stopped by the
/// representable range are refused as too small (the engine reported
/// overflow), an overflowing reserve or holding is refused, and
/// otherwise the buy commits.
pub open spec fn buy_case(
    pre: Registry,
    post: Registry,
    caller: AccountId,
    curve_id: usize,
    reserve_amount_in: Balance,
    d: Balance,
    r: Result<Balance, Error>,
) -> bool {
    let c = pre.curves@[curve_id as int];
    let held = pre.tokens.spec_balance(caller, c.currency_id);
    if d == 0 {
        r == Err::<Balance, Error>(Error::AmountTooSmall)
    } else if c.supply + d == u128::MAX
        || !backing_fits(c.slope, c.exponent, (c.supply + d + 1) as Balance) {
        r == Err::<Balance, Error>(Error::AmountTooSmall)
    } else if c.reserve + reserve_amount_in > u128::MAX {
        r == Err::<Balance, Error>(Error::Overflow)
    } else if held + d > u128::MAX {
        r == Err::<Balance, Error>(Error::Overflow)
    } else {
        r == Ok::<Balance, Error>(d) && buy_applied(pre, post, caller, curve_id, reserve_amount_in, d)
    }
}

/// The committed effect of a sell of `tokens_amount` on curve `curve_id`
/// refunding `refund`: the tokens leave the supply and the caller's
/// holding, the refund moves from the curve's reserve to the caller's
/// native balance, a `Sold` event is logged, and nothing else moves.
pub open spec fn sell_applied(
    pre: Registry,
    post: Registry,
    caller: AccountId,
    curve_id: usize,
    tokens_amount: Balance,
    refund: int,
) -> bool {
    let c = pre.curves@[curve_id as int];
    let native = pre.balances.spec_balance(caller, NATIVE_CURRENCY);
    let held = pre.tokens.spec_balance(caller, c.currency_id);
    &&& post.curves@ =~= pre.curves@.update(
        curve_id as int,
        (BondingCurve {
            reserve: (c.reserve - refund) as Balance,
            supply: (c.supply - tokens_amount) as Balance,
            ..c
        }),
    )
    &&& post.balances.spec_balance(caller, NATIVE_CURRENCY) == native + refund
    &&& forall|a: AccountId, c2: CurrencyId| !(a == caller && c2 == NATIVE_CURRENCY)
        ==> post.balances.spec_balance(a, c2) == pre.balances.spec_balance(a, c2)
    &&& post.tokens.spec_balance(caller, c.currency_id) == held - tokens_amount
    &&& forall|a: AccountId, c2: CurrencyId| !(a == caller && c2 == c.currency_id)
        ==> post.tokens.spec_balance(a, c2) == pre.tokens.spec_balance(a, c2)
    &&& post.events@ =~= pre.events@.push(
        (Event::Sold {
            curve_id,
            seller: caller,
            tokens_in: tokens_amount,
            reserve_out: refund as Balance,
        }),
    )
    &&& post.curve_deposit == pre.curve_deposit
}

/// What a sell must return and do once the curve exists, the amount is
/// positive, and the caller's holding and the curve's supply cover it:
/// the once-truncated refund — never more than the recorded reserve — is
/// paid out, unless crediting it would overflow the caller's balance.
pub open spec fn sell_case(
    pre: Registry,
    post: Registry,
    caller: AccountId,
    curve_id: usize,
    tokens_amount: Balance,
    r: Result<Balance, Error>,
) -> bool {
    let c = pre.curves@[curve_id as int];
    let native = pre.balances.spec_balance(caller, NATIVE_CURRENCY);
    let refund = spec_cost(c.slope, c.exponent, (c.supply - tokens_amount) as Balance, c.supply);
    if native + refund > u128::MAX {
        r == Err::<Balance, Error>(Error::Overflow)
    } else {
        &&& 0 <= refund <= c.reserve
        &&& r == Ok::<Balance, Error>(refund as Balance)
        &&& sell_applied(pre, post, caller, curve_id, tokens_amount, refund)
    }
}

impl Registry {
    /// Well-formedness of the whole registry: every curve is well formed,
    /// sits at the index its identifier names, is not on the native
    /// currency, and no two curves share a currency.
    pub open spec fn wf(&self) -> bool {
        &&& forall|i: int| 0 <= i < self.curves@.len() ==> (#[trigger] self.curves@[i]).wf()
        &&& forall|i: int| 0 <= i < self.curves@.len() ==> (#[trigger] self.curves@[i]).id == i
        &&& forall|i: int| 0 <= i < self.curves@.len()
            ==> (#[trigger] self.curves@[i]).currency_id != NATIVE_CURRENCY
        &&& forall|i: int, j: int| 0 <= i < j < self.curves@.len()
            ==> (#[trigger] self.curves@[i]).currency_id != (#[trigger] self.curves@[j]).currency_id
    }

    /// Whether `currency_id` is already spoken for: it is the native
    /// reserve currency, or a curve mints it.
    pub open spec fn currency_bound(&self, currency_id: CurrencyId) -> bool {
        ||| currency_id == NATIVE_CURRENCY
        ||| exists|i: int| 0 <= i < self.curves@.len()
            && (#[trigger] self.curves@[i]).currency_id == currency_id
    }

    /// An empty registry over the given ledgers, configured with the
    /// fixed creation deposit.
    pub fn new(tokens: Ledger, balances: Ledger, curve_deposit: Balance) -> (r: Registry)
        ensures
            r.wf(),
            r.curves@.len() == 0,
            r.events@.len() == 0,
            r.tokens == tokens,
            r.balances == balances,
            r.curve_deposit == curve_deposit,
    {
        Registry { curves: Vec::new(), tokens, balances, events: Vec::new(), curve_deposit }
    }

    /// The curve with identifier `curve_id`, if one was ever created.
    pub fn curve(&self, curve_id: usize) -> (r: Option<BondingCurve>)
        ensures
            match r {
                Some(c) => curve_id < self.curves@.len() && c == self.curves@[curve_id as int],
                None => curve_id >= self.curves@.len(),
            },
    {
        if curve_id < self.curves.len() {
            Some(self.curves[curve_id])
        } else {
            None
        }
    }

    /// The balance of `account` in `currency` on the token ledger.
    pub fn balance_of(&self, account: AccountId, currency: CurrencyId) -> (r: Balance)
        ensures
            r == self.tokens.spec_balance(account, currency),
    {
        self.tokens.balance_of(account, currency)
    }

    /// The native reserve-currency balance of `account`.
    pub fn native_balance_of(&self, account: AccountId) -> (r: Balance)
        ensures
            r == self.balances.spec_balance(account, NATIVE_CURRENCY),
    {
        self.balances.balance_of(account, NATIVE_CURRENCY)
    }

    /// Creates a new bonding curve for `currency_id` with the given price
    /// parameters. The fixed creation deposit the registry was configured
    /// with moves from the caller's native balance into the curve's
    /// reserve; the supply starts at zero. `price_seed` is recorded on
    /// the curve; `_options` is accepted for the call's shape and the
    /// engine defines no options yet. Fails with `CurrencyAlreadyExists`
    /// where the currency is already spoken for, and `BalanceTooLow`
    /// where the caller cannot pay the deposit. On success the new
    /// curve's identifier is returned and a `CurveCreated` event logged.
    pub fn create(
        &mut self,
        caller: AccountId,
        currency_id: CurrencyId,
        exponent: u32,
        slope: u128,
        price_seed: Balance,
        _options: u128,
    ) -> (r: Result<usize, Error>)
        requires
            old(self).wf(),
            slope >= 1,
        ensures
            final(self).wf(),
            r matches Err(_) ==> *final(self) == *old(self),
            (r == Err::<usize, Error>(Error::CurrencyAlreadyExists))
                <==> old(self).currency_bound(currency_id),
            ({
                let native = old(self).balances.spec_balance(caller, NATIVE_CURRENCY);
                &&& (!old(self).currency_bound(currency_id) && native < old(self).curve_deposit
                    ==> r == Err::<usize, Error>(Error::BalanceTooLow))
                &&& (!old(self).currency_bound(currency_id) && native >= old(self).curve_deposit
                    ==> {
                    &&& r == Ok::<usize, Error>(old(self).curves@.len() as usize)
                    &&& final(self).curves@ =~= old(self).curves@.push(
                        (BondingCurve {
                            id: old(self).curves@.len() as usize,
                            creator: caller,
                            currency_id: currency_id,
                            exponent: exponent,
                            slope: slope,
                            price_seed: price_seed,
                            reserve: old(self).curve_deposit,
                            supply: 0,
                        }),
                    )
                    &&& final(self).balances.spec_balance(caller, NATIVE_CURRENCY)
                        == native - old(self).curve_deposit
                    &&& forall|a: AccountId, c: CurrencyId| !(a == caller && c == NATIVE_CURRENCY)
                        ==> final(self).balances.spec_balance(a, c)
                            == old(self).balances.spec_balance(a, c)
                    &&& final(self).tokens == old(self).tokens
                    &&& final(self).events@ =~= old(self).events@.push(
                        (Event::CurveCreated {
                            id: old(self).curves@.len() as usize,
                            currency_id: currency_id,
                            creator: caller,
                        }),
                    )
                    &&& final(self).curve_deposit == old(self).curve_deposit
                })
            }),
    {
        if currency_id == NATIVE_CURRENCY {
            return Err(Error::CurrencyAlreadyExists);
        }
        let mut i: usize = 0;
        while i < self.curves.len()
            invariant
                *self == *old(self),
                old(self).wf(),
                slope >= 1,
                i <= self.curves@.len(),
                forall|j: int| 0 <= j < i
                    ==> (#[trigger] self.curves@[j]).currency_id != currency_id,
            decreases self.curves@.len() - i,
        {
            if self.curves[i].currency_id == currency_id {
                return Err(Error::CurrencyAlreadyExists);
            }
            i = i + 1;
        }
        let native = self.balances.balance_of(caller, NATIVE_CURRENCY);
        if native < self.curve_deposit {
            return Err(Error::BalanceTooLow);
        }
        let id = self.curves.len();
        self.balances.post(caller, NATIVE_CURRENCY, native - self.curve_deposit);
        let curve = BondingCurve {
            id,
            creator: caller,
            currency_id,
            exponent,
            slope,
            price_seed,
            reserve: self.curve_deposit,
            supply: 0,
        };
        self.curves.push(curve);
        self.events.push(Event::CurveCreated { id, currency_id, creator: caller });
        proof {
            lemma_backing_zero(slope, exponent, 0);
            assert forall|k: int| 0 <= k < self.curves@.len() implies (#[trigger] self.curves@[k]).wf()
                && self.curves@[k].id == k && self.curves@[k].currency_id != NATIVE_CURRENCY by {
                if k < self.curves@.len() - 1 {
                    assert(self.curves@[k] == old(self).curves@[k]);
                }
            }
            assert forall|k: int, j: int| 0 <= k < j < self.curves@.len()
                implies (#[trigger] self.curves@[k]).currency_id
                    != (#[trigger] self.curves@[j]).currency_id by {
                if j < self.curves@.len() - 1 {
                    assert(self.curves@[k] == old(self).curves@[k]);
                    assert(self.curves@[j] == old(self).curves@[j]);
                } else {
                    assert(self.curves@[k] == old(self).curves@[k]);
                }
            }
        }
        Ok(id)
    }

    /// Buys curve tokens with `reserve_amount_in` reserve units: the
    /// whole amount moves from the caller's native balance into the
    /// curve's reserve, and the largest affordable number of tokens — the
    /// greatest `d` whose conservative charge
    /// `backing(supply + d) - backing(supply)` the amount covers — is
    /// minted to the caller. The charge, not the once-truncated cost a
    /// sell refunds, is the buy criterion: the pricing module's doc shows
    /// how cost-admitted buys would drain a curve below solvency.
    /// Fails with `CurveNotFound` for an unknown
    /// curve, `AmountTooSmall` where the amount is zero, buys no whole
    /// token, or the pricing engine reports overflow (the affordable mint
    /// ran into the representable range), `BalanceTooLow` where the
    /// caller cannot pay, and `Overflow` where the curve's reserve or the
    /// caller's token balance would leave `u128`. On success the number
    /// of tokens minted is returned and a `Bought` event logged.
    pub fn buy(
        &mut self,
        caller: AccountId,
        curve_id: usize,
        reserve_amount_in: Balance,
    ) -> (r: Result<Balance, Error>)
        requires
            old(self).wf(),
        ensures
            final(self).wf(),
            r matches Err(_) ==> *final(self) == *old(self),
            (r == Err::<Balance, Error>(Error::CurveNotFound))
                <==> curve_id >= old(self).curves@.len(),
            curve_id < old(self).curves@.len() ==> ({
                let c = old(self).curves@[curve_id as int];
                let native = old(self).balances.spec_balance(caller, NATIVE_CURRENCY);
                &&& (reserve_amount_in == 0 ==> r == Err::<Balance, Error>(Error::AmountTooSmall))
                &&& (reserve_amount_in > 0 && native < reserve_amount_in
                    ==> r == Err::<Balance, Error>(Error::BalanceTooLow))
                &&& (reserve_amount_in > 0 && native >= reserve_amount_in
                    ==> exists|d: Balance| #[trigger] largest_mint(c, reserve_amount_in, d))
                &&& (reserve_amount_in > 0 && native >= reserve_amount_in
                    ==> forall|d: Balance| #[trigger] largest_mint(c, reserve_amount_in, d)
                        ==> buy_case(
                            *old(self),
                            *final(self),
                            caller,
                            curve_id,
                            reserve_amount_in,
                            d,
                            r,
                        ))
            }),
    {
        if curve_id >= self.curves.len() {
            return Err(Error::CurveNotFound);
        }
        let c = self.curves[curve_id];
        if reserve_amount_in == 0 {
            return Err(Error::AmountTooSmall);
        }
        let native = self.balances.balance_of(caller, NATIVE_CURRENCY);
        if native < reserve_amount_in {
            return Err(Error::BalanceTooLow);
        }
        let d = match tokens_for_reserve(c.slope, c.exponent, c.supply, reserve_amount_in) {
            Err(_) => {
                proof {
                    let capped = choose|d0: Balance| mint_capped(
                        c.slope,
                        c.exponent,
                        c.supply,
                        d0,
                        reserve_amount_in,
                    );
                    lemma_capped_is_largest(c.slope, c.exponent, c.supply, capped, reserve_amount_in);
                    assert(largest_mint(c, reserve_amount_in, capped));
                }
                return Err(Error::AmountTooSmall);
            },
            Ok(v) => v,
        };
        proof {
            assert forall|d2: Balance| d < d2 implies !can_buy(
                c.slope,
                c.exponent,
                c.supply,
                d2,
                reserve_amount_in,
            ) by {
                if c.supply + d2 <= u128::MAX {
                    assert(crate::pricing::buy_charge(
                        c.slope,
                        c.exponent,
                        c.supply,
                        (c.supply + d2) as Balance,
                    ) > reserve_amount_in);
                }
            }
            assert(largest_mint(c, reserve_amount_in, d));
        }
        if d == 0 {
            return Err(Error::AmountTooSmall);
        }
        let new_reserve = match c.reserve.checked_add(reserve_amount_in) {
            None => {
                return Err(Error::Overflow);
            },
            Some(v) => v,
        };
        let held = self.tokens.balance_of(caller, c.currency_id);
        let held_after = match held.checked_add(d) {
            None => {
                return Err(Error::Overflow);
            },
            Some(v) => v,
        };
        self.balances.post(caller, NATIVE_CURRENCY, native - reserve_amount_in);
        self.tokens.post(caller, c.currency_id, held_after);
        let updated = BondingCurve { reserve: new_reserve, supply: c.supply + d, ..c };
        self.curves[curve_id] = updated;
        self.events.push(Event::Bought {
            curve_id,
            buyer: caller,
            reserve_in: reserve_amount_in,
            tokens_out: d,
        });
        proof {
            assert forall|k: int| 0 <= k < self.curves@.len() implies (#[trigger] self.curves@[k]).wf()
                && self.curves@[k].id == k && self.curves@[k].currency_id != NATIVE_CURRENCY by {
                if k != curve_id {
                    assert(self.curves@[k] == old(self).curves@[k]);
                }
            }
            assert forall|k: int, j: int| 0 <= k < j < self.curves@.len()
                implies (#[trigger] self.curves@[k]).currency_id
                    != (#[trigger] self.curves@[j]).currency_id by {
                assert(old(self).curves@[k].currency_id != old(self).curves@[j].currency_id);
            }
        }
        Ok(d)
    }

    /// Sells `tokens_amount` curve tokens back to the curve: the tokens
    /// are burned, the supply drops by `tokens_amount`, and the
    /// once-truncated refund `spec_cost(supply - tokens_amount, supply)`
    /// — never more than the exact integral — moves from the curve's
    /// reserve to the caller's native balance. Fails with `CurveNotFound`
    /// for an unknown curve, `AmountTooSmall` for a zero amount,
    /// `BalanceTooLow` where the caller holds fewer tokens or the curve
    /// never minted that many, and `Overflow` where the caller's native
    /// balance would leave `u128`. The solvency invariant makes
    /// `InsufficientReserve` — a payout above the recorded reserve —
    /// impossible, which the contract states. On success the refund is
    /// returned and a `Sold` event logged.
    pub fn sell(
        &mut self,
        caller: AccountId,
        curve_id: usize,
        tokens_amount: Balance,
    ) -> (r: Result<Balance, Error>)
        requires
            old(self).wf(),
        ensures
            final(self).wf(),
            r matches Err(_) ==> *final(self) == *old(self),
            r != Err::<Balance, Error>(Error::InsufficientReserve),
            (r == Err::<Balance, Error>(Error::CurveNotFound))
                <==> curve_id >= old(self).curves@.len(),
            curve_id < old(self).curves@.len() ==> ({
                let c = old(self).curves@[curve_id as int];
                let held = old(self).tokens.spec_balance(caller, c.currency_id);
                &&& (tokens_amount == 0 ==> r == Err::<Balance, Error>(Error::AmountTooSmall))
                &&& (tokens_amount > 0 && held < tokens_amount
                    ==> r == Err::<Balance, Error>(Error::BalanceTooLow))
                &&& (tokens_amount > 0 && held >= tokens_amount && tokens_amount > c.supply
                    ==> r == Err::<Balance, Error>(Error::BalanceTooLow))
                &&& (tokens_amount > 0 && held >= tokens_amount && tokens_amount <= c.supply
                    ==> sell_case(*old(self), *final(self), caller, curve_id, tokens_amount, r))
            }),
    {
        if curve_id >= self.curves.len() {
            return Err(Error::CurveNotFound);
        }
        let c = self.curves[curve_id];
        if tokens_amount == 0 {
            return Err(Error::AmountTooSmall);
        }
        let held = self.tokens.balance_of(caller, c.currency_id);
        if held < tokens_amount {
            return Err(Error::BalanceTooLow);
        }
        if tokens_amount > c.supply {
            return Err(Error::BalanceTooLow);
        }
        let refund = match reserve_for_tokens(c.slope, c.exponent, c.supply, tokens_amount) {
            Err(_) => {
                proof {
                    assert(false);
                }
                return Err(Error::Overflow);
            },
            Ok(v) => v,
        };
        proof {
            lemma_cost_within_charge(
                c.slope,
                c.exponent,
                (c.supply - tokens_amount) as Balance,
                c.supply,
            );
            lemma_backing_monotone(
                c.slope,
                c.exponent,
                (c.supply - tokens_amount) as Balance,
                c.supply,
            );
        }
        if refund > c.reserve {
            return Err(Error::InsufficientReserve);
        }
        let native = self.balances.balance_of(caller, NATIVE_CURRENCY);
        let native_after = match native.checked_add(refund) {
            None => {
                return Err(Error::Overflow);
            },
            Some(v) => v,
        };
        self.tokens.post(caller, c.currency_id, held - tokens_amount);
        self.balances.post(caller, NATIVE_CURRENCY, native_after);
        let updated = BondingCurve {
            reserve: c.reserve - refund,
            supply: c.supply - tokens_amount,
            ..c
        };
        self.curves[curve_id] = updated;
        self.events.push(Event::Sold {
            curve_id,
            seller: caller,
            tokens_in: tokens_amount,
            reserve_out: refund,
        });
        proof {
            assert forall|k: int| 0 <= k < self.curves@.len() implies (#[trigger] self.curves@[k]).wf()
                && self.curves@[k].id == k && self.curves@[k].currency_id != NATIVE_CURRENCY by {
                if k != curve_id {
                    assert(self.curves@[k] == old(self).curves@[k]);
                }
            }
            assert forall|k: int, j: int| 0 <= k < j < self.curves@.len()
                implies (#[trigger] self.curves@[k]).currency_id
                    != (#[trigger] self.curves@[j]).currency_id by {
                assert(old(self).curves@[k].currency_id != old(self).curves@[j].currency_id);
            }
        }
        Ok(refund)
    }
}

} // verus!
