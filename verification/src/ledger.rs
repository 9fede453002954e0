//! A multi-currency ledger of account balances.
//!
//! The registry treats currency bookkeeping as its collaborator; this
//! module gives that collaborator a small verified model. Balances are
//! recorded as a journal of postings: the balance of an account in a
//! currency is the amount of the latest posting for that pair, and zero
//! where no posting exists. Every mutation appends a posting, so frame
//! reasoning — every other balance is untouched — is immediate.

use vstd::prelude::*;
use crate::{AccountId, Balance, CurrencyId, Error};

verus! {

/// One journal entry: the balance of `account` in `currency` becomes
/// `amount` from this posting on.
#[derive(Clone, Copy)]
pub struct Posting {
    pub account: AccountId,
    pub currency: CurrencyId,
    pub amount: Balance,
}

/// The balance encoded by a journal: the amount of the latest matching
/// posting, zero if none matches.
pub open spec fn balance_in(journal: Seq<Posting>, account: AccountId, currency: CurrencyId) -> Balance
    decreases journal.len(),
{
    if journal.len() == 0 {
        0
    } else if journal.last().account == account && journal.last().currency == currency {
        journal.last().amount
    } else {
        balance_in(journal.drop_last(), account, currency)
    }
}

/// The ledger: a journal of postings.
pub struct Ledger {
    pub journal: Vec<Posting>,
}

impl Ledger {
    /// The balance of `account` in `currency`.
    pub open spec fn spec_balance(&self, account: AccountId, currency: CurrencyId) -> Balance {
        balance_in(self.journal@, account, currency)
    }

    /// An empty ledger: every balance is zero.
    pub fn new() -> (r: Ledger)
        ensures
            forall|a: AccountId, c: CurrencyId| r.spec_balance(a, c) == 0,
    {
        Ledger { journal: Vec::new() }
    }

    /// Reads the balance of `account` in `currency`.
    pub fn balance_of(&self, account: AccountId, currency: CurrencyId) -> (r: Balance)
        ensures
            r == self.spec_balance(account, currency),
    {
        let mut i: usize = self.journal.len();
        proof {
            assert(self.journal@.take(i as int) =~= self.journal@);
        }
        while i > 0
            invariant
                i <= self.journal@.len(),
                balance_in(self.journal@.take(i as int), account, currency)
                    == self.spec_balance(account, currency),
            decreases i,
        {
            i = i - 1;
            let p = self.journal[i];
            proof {
                assert(self.journal@.take(i + 1).last() == self.journal@[i as int]);
                assert(self.journal@.take(i + 1).drop_last() =~= self.journal@.take(i as int));
            }
            if p.account == account && p.currency == currency {
                return p.amount;
            }
        }
        0
    }

    /// Appends a posting that sets the balance of `account` in `currency`
    /// to `amount`, leaving every other balance as it was.
    pub fn post(&mut self, account: AccountId, currency: CurrencyId, amount: Balance)
        ensures
            final(self).spec_balance(account, currency) == amount,
            forall|a: AccountId, c: CurrencyId|
                !(a == account && c == currency) ==> final(self).spec_balance(a, c) == old(self).spec_balance(a, c),
    {
        self.journal.push(Posting { account, currency, amount });
        proof {
            assert(self.journal@.drop_last() =~= old(self).journal@);
        }
    }

    /// Creates `amount` new units of `currency` for `account`. Fails with
    /// `Overflow`, changing nothing, where the balance would leave `u128`.
    pub fn mint(&mut self, account: AccountId, currency: CurrencyId, amount: Balance) -> (r: Result<(), Error>)
        ensures
            match r {
                Ok(()) => {
                    &&& old(self).spec_balance(account, currency) + amount <= u128::MAX
                    &&& final(self).spec_balance(account, currency)
                        == old(self).spec_balance(account, currency) + amount
                    &&& forall|a: AccountId, c: CurrencyId|
                        !(a == account && c == currency)
                            ==> final(self).spec_balance(a, c) == old(self).spec_balance(a, c)
                },
                Err(e) => {
                    &&& e == Error::Overflow
                    &&& old(self).spec_balance(account, currency) + amount > u128::MAX
                    &&& *final(self) == *old(self)
                },
            },
    {
        let held = self.balance_of(account, currency);
        match held.checked_add(amount) {
            Some(next) => {
                self.post(account, currency, next);
                Ok(())
            },
            None => Err(Error::Overflow),
        }
    }

    /// Destroys `amount` units of `currency` held by `account`. Fails with
    /// `BalanceTooLow`, changing nothing, where the holding is smaller.
    pub fn burn(&mut self, account: AccountId, currency: CurrencyId, amount: Balance) -> (r: Result<(), Error>)
        ensures
            match r {
                Ok(()) => {
                    &&& old(self).spec_balance(account, currency) >= amount
                    &&& final(self).spec_balance(account, currency)
                        == old(self).spec_balance(account, currency) - amount
                    &&& forall|a: AccountId, c: CurrencyId|
                        !(a == account && c == currency)
                            ==> final(self).spec_balance(a, c) == old(self).spec_balance(a, c)
                },
                Err(e) => {
                    &&& e == Error::BalanceTooLow
                    &&& old(self).spec_balance(account, currency) < amount
                    &&& *final(self) == *old(self)
                },
            },
    {
        let held = self.balance_of(account, currency);
        if held < amount {
            Err(Error::BalanceTooLow)
        } else {
            self.post(account, currency, held - amount);
            Ok(())
        }
    }

    /// Moves `amount` units of `currency` from `from` to `to`. Fails with
    /// `BalanceTooLow` where `from` holds less, and with `Overflow` where
    /// the receiving balance would leave `u128`; failure changes nothing.
    /// A transfer to oneself only checks the holding.
    pub fn transfer(&mut self, from: AccountId, to: AccountId, currency: CurrencyId, amount: Balance) -> (r: Result<(), Error>)
        ensures
            match r {
                Ok(()) => {
                    &&& old(self).spec_balance(from, currency) >= amount
                    &&& from != to ==> {
                        &&& old(self).spec_balance(to, currency) + amount <= u128::MAX
                        &&& final(self).spec_balance(from, currency)
                            == old(self).spec_balance(from, currency) - amount
                        &&& final(self).spec_balance(to, currency)
                            == old(self).spec_balance(to, currency) + amount
                    }
                    &&& from == to ==> final(self).spec_balance(from, currency)
                        == old(self).spec_balance(from, currency)
                    &&& forall|a: AccountId, c: CurrencyId|
                        !(a == from && c == currency) && !(a == to && c == currency)
                            ==> final(self).spec_balance(a, c) == old(self).spec_balance(a, c)
                },
                Err(e) => {
                    &&& *final(self) == *old(self)
                    &&& e == Error::BalanceTooLow ==> old(self).spec_balance(from, currency) < amount
                    &&& e == Error::Overflow ==> {
                        &&& from != to
                        &&& old(self).spec_balance(from, currency) >= amount
                        &&& old(self).spec_balance(to, currency) + amount > u128::MAX
                    }
                    &&& (e == Error::BalanceTooLow || e == Error::Overflow)
                },
            },
    {
        let held = self.balance_of(from, currency);
        if held < amount {
            return Err(Error::BalanceTooLow);
        }
        if from == to {
            return Ok(());
        }
        let receiving = self.balance_of(to, currency);
        match receiving.checked_add(amount) {
            None => Err(Error::Overflow),
            Some(next) => {
                self.post(from, currency, held - amount);
                self.post(to, currency, next);
                Ok(())
            },
        }
    }
}

} // verus!
