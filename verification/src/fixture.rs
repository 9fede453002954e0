//! A builder for ready-made registry states: a handful of accounts with
//! genesis balances, convenient for exercising the engine.

use vstd::prelude::*;
use crate::{AccountId, Balance, CurrencyId, NATIVE_CURRENCY};
use crate::ledger::{Ledger, Posting};
use crate::registry::Registry;

verus! {

/// A genesis account for tests and examples.
pub const ALICE: AccountId = 0;

/// A second genesis account for tests and examples.
pub const BOB: AccountId = 1;

/// The fixed creation deposit the stock registry is configured with.
pub const CURVE_DEPOSIT: Balance = 10;

/// Builds a registry with no curves and two ledgers endowed from two
/// lists: the token ledger from arbitrary-currency endowments, the
/// native balance ledger from native-currency balances.
pub struct ExtBuilder {
    /// Genesis token-ledger endowments: account, currency, amount.
    pub endowed_accounts: Vec<(AccountId, CurrencyId, Balance)>,
    /// Genesis native-currency balances: account, amount.
    pub balances: Vec<(AccountId, Balance)>,
}

/// The posting a genesis endowment becomes.
pub open spec fn endowment_posting(t: (AccountId, CurrencyId, Balance)) -> Posting {
    Posting { account: t.0, currency: t.1, amount: t.2 }
}

/// The posting a genesis native balance becomes.
pub open spec fn balance_posting(t: (AccountId, Balance)) -> Posting {
    Posting { account: t.0, currency: NATIVE_CURRENCY, amount: t.1 }
}

impl Default for ExtBuilder {
    /// The stock genesis: both accounts hold 1_000 units of currency 0 on
    /// the token ledger and 1_000_000_000_000 native reserve units.
    fn default() -> (r: Self)
        ensures
            r.endowed_accounts@ =~= seq![
                (ALICE, NATIVE_CURRENCY, 1000u128),
                (BOB, NATIVE_CURRENCY, 1000u128),
            ],
            r.balances@ =~= seq![(ALICE, 1_000_000_000_000u128), (BOB, 1_000_000_000_000u128)],
    {
        let mut endowed_accounts: Vec<(AccountId, CurrencyId, Balance)> = Vec::new();
        endowed_accounts.push((ALICE, NATIVE_CURRENCY, 1000));
        endowed_accounts.push((BOB, NATIVE_CURRENCY, 1000));
        let mut balances: Vec<(AccountId, Balance)> = Vec::new();
        balances.push((ALICE, 1_000_000_000_000));
        balances.push((BOB, 1_000_000_000_000));
        Self { endowed_accounts, balances }
    }
}

impl ExtBuilder {
    /// Builds the registry: no curves, no events, the fixed creation
    /// deposit, a token ledger holding one posting per endowment, and a
    /// native ledger holding one posting per balance.
    pub fn build(self) -> (r: Registry)
        ensures
            r.wf(),
            r.curves@.len() == 0,
            r.events@.len() == 0,
            r.curve_deposit == CURVE_DEPOSIT,
            r.tokens.journal@ =~= self.endowed_accounts@.map_values(
                |t: (AccountId, CurrencyId, Balance)| endowment_posting(t),
            ),
            r.balances.journal@ =~= self.balances@.map_values(
                |t: (AccountId, Balance)| balance_posting(t),
            ),
    {
        let ghost endowed = self.endowed_accounts@;
        let ghost natives = self.balances@;
        let mut token_journal: Vec<Posting> = Vec::new();
        let mut i: usize = 0;
        while i < self.endowed_accounts.len()
            invariant
                i <= endowed.len(),
                self.endowed_accounts@ == endowed,
                token_journal@ =~= endowed.take(i as int).map_values(
                    |t: (AccountId, CurrencyId, Balance)| endowment_posting(t),
                ),
            decreases endowed.len() - i,
        {
            let (account, currency, amount) = self.endowed_accounts[i];
            token_journal.push(Posting { account, currency, amount });
            i = i + 1;
        }
        let mut native_journal: Vec<Posting> = Vec::new();
        let mut j: usize = 0;
        while j < self.balances.len()
            invariant
                j <= natives.len(),
                self.balances@ == natives,
                native_journal@ =~= natives.take(j as int).map_values(
                    |t: (AccountId, Balance)| balance_posting(t),
                ),
            decreases natives.len() - j,
        {
            let (account, amount) = self.balances[j];
            native_journal.push(Posting { account, currency: NATIVE_CURRENCY, amount });
            j = j + 1;
        }
        Registry::new(
            Ledger { journal: token_journal },
            Ledger { journal: native_journal },
            CURVE_DEPOSIT,
        )
    }
}

} // verus!
