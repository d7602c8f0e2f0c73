//! Notifications recorded by the position-entry call; delivery is owned by
//! the host.

use vstd::prelude::*;

verus! {

/// Fire-and-forget notifications appended on each successful position entry.
#[derive(Clone, Copy, Debug, PartialEq, Eq, Structural)]
pub enum Event {
    /// Collateral moved by the given signed amount.
    CollateralUpdated(i128),
    /// The raw position of the account was set to the given value.
    BalanceUpdated(u64, i128),
}

} // verus!
