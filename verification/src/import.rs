//! Which tables a trade goes to, and under whose name.

use crate::account::BuySell;
use crate::scan::same_text;
use vstd::prelude::*;
use vstd::string::*;

verus! {

/// What a trade becomes in the tables of a report.
#[derive(Debug, Clone, Copy, PartialEq, Eq, Structural)]
pub enum Booking {
    /// The trade was paid in an asset of the report: that asset goes out and
    /// the base currency comes in.
    Convert,
    /// The base currency comes in.
    Buy,
    /// The base currency goes out.
    Sell,
}

/// Whether one of `names` is the text with the bytes `t`.
pub open spec fn listed(names: Seq<String>, t: Seq<u8>) -> bool {
    exists|i: int| 0 <= i < names.len() && vstd::utf8::encode_utf8((#[trigger] names[i])@) == t
}

/// Whether one of `names` is `name`.
pub fn is_listed(names: &Vec<String>, name: &str) -> (r: bool)
    ensures
        r == listed(names@, name.spec_bytes()),
{
    let mut i: usize = 0;
    while i < names.len()
        invariant
            i <= names@.len(),
            forall|j: int|
                0 <= j < i ==> vstd::utf8::encode_utf8((#[trigger] names@[j])@)
                    != name.spec_bytes(),
        decreases names@.len() - i,
    {
        if same_text(names[i].as_str(), name) {
            return true;
        }
        i += 1;
    }
    false
}

/// What a trade becomes: a conversion where its quote currency is one of the
/// report's assets, else a purchase or a sale by its side.
pub fn booking(assets: &Vec<String>, quote: &str, side: BuySell) -> (r: Booking)
    ensures
        r == if listed(assets@, quote.spec_bytes()) {
            Booking::Convert
        } else if side == BuySell::Buy {
            Booking::Buy
        } else {
            Booking::Sell
        },
{
    if is_listed(assets, quote) {
        Booking::Convert
    } else {
        match side {
            BuySell::Buy => Booking::Buy,
            BuySell::Sell => Booking::Sell,
        }
    }
}

/// The holder under whose name trades are booked: the first of the report's
/// holders, and `_UNKNOWN` where it names none.
pub fn holder<'a>(holders: &'a Vec<String>) -> (r: &'a str)
    ensures
        r@ == if holders@.len() > 0 {
            holders@[0]@
        } else {
            "_UNKNOWN"@
        },
{
    if holders.len() > 0 {
        holders[0].as_str()
    } else {
        "_UNKNOWN"
    }
}

} // verus!
