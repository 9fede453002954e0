//! A bonding-curve token-issuance engine.
//!
//! Any account may create a tradable token whose price is a power-law
//! function of its total supply, and other accounts may buy or sell that
//! token against a reserve currency at prices derived from the integral of
//! that function. All arithmetic is integer arithmetic with explicit
//! truncation, and the central solvency invariant — the recorded reserve of
//! a curve always covers the truncated integral backing its outstanding
//! supply — is proved to hold across every operation.

pub mod fixture;
pub mod laws;
pub mod ledger;
pub mod pricing;
pub mod registry;

use vstd::prelude::*;

verus! {

/// An account identifier in the ledger.
pub type AccountId = u128;

/// A currency identifier; one currency may be bound to at most one curve.
pub type CurrencyId = u128;

/// A quantity of reserve-currency units or of curve-token units.
pub type Balance = u128;

/// The identifier of the native reserve currency: the currency deposits are
/// paid in and trades settle in. It can never be bound to a curve.
pub const NATIVE_CURRENCY: CurrencyId = 0;

/// Why an operation was refused. Every failure leaves all state untouched.
#[derive(Clone, Copy, Debug, PartialEq, Eq, Structural)]
pub enum Error {
    /// Curve creation named a currency that is already bound to a curve
    /// (or is the native reserve currency itself).
    CurrencyAlreadyExists,
    /// An operation referenced a curve identifier that was never assigned.
    CurveNotFound,
    /// A buy offered too little reserve to mint even one token unit, a
    /// trade was given a zero amount, or the pricing engine reported
    /// overflow for the requested mint.
    AmountTooSmall,
    /// The caller does not hold enough of the currency the operation
    /// spends, or asked to sell more tokens than the curve ever minted.
    BalanceTooLow,
    /// A sell payout would exceed the curve's recorded reserve. The
    /// registry's solvency invariant rules this out; the variant records
    /// the fatal case distinctly all the same.
    InsufficientReserve,
    /// Arithmetic left the representable range.
    Overflow,
}

} // verus!
