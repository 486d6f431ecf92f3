//! What an exchange says of one trade.

use vstd::prelude::*;

verus! {

/// The side of a trade: the base currency was bought, or it was sold.
#[derive(Debug, Clone, Copy, PartialEq, Eq, Structural)]
pub enum BuySell {
    Buy,
    Sell,
}

} // verus!
