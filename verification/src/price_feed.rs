//! A settable stand-in for the external oracle feed.

use vstd::prelude::*;

verus! {

/// A price source whose reported price is set by hand; it stands in for
/// the oracle feed, which may report no price at any time.
pub struct MockPriceSource {
    /// The price currently reported, as a raw fixed-point value.
    pub price: Option<u128>,
}

impl MockPriceSource {
    /// A source reporting `price`.
    pub fn new(price: Option<u128>) -> (r: MockPriceSource)
        ensures
            r.price == price,
    {
        MockPriceSource { price }
    }

    /// Sets the reported price, or clears it.
    pub fn set_price(&mut self, price: Option<u128>)
        ensures
            final(self).price == price,
    {
        self.price = price;
    }

    /// The currently reported price, if any.
    pub fn get_price(&self) -> (r: Option<u128>)
        ensures
            r == self.price,
    {
        self.price
    }
}

} // verus!
