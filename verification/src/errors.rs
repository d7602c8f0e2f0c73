//! Failures surfaced by the position-entry call and the transfer ledger.

use vstd::prelude::*;

verus! {

/// Why a single-caller operation was rejected. The batch settlement passes
/// never return errors: their arithmetic saturates or clamps instead.
#[derive(Clone, Copy, Debug, PartialEq, Eq, Structural)]
pub enum Error {
    /// A checked arithmetic step would leave the representable numeric range.
    Overflow,
    /// A magnitude conversion between the unsigned and the signed numeric
    /// domain exceeds what the signed domain can hold.
    AmountConvertFailed,
    /// Post-call collateral would be below the required initial margin.
    NotEnoughIM,
    /// The reference price has never been established.
    PriceNotSet,
    /// Caller or escrow balance is too low for a requested movement. On
    /// withdrawal this can legitimately occur while other accounts'
    /// unrealized losses have not yet been liquidated into the escrow.
    InsufficientBalance,
}

} // verus!
