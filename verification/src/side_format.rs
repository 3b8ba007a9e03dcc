//! The wire form of an order side: the broker takes and returns lowercase
//! "buy" and "sell".

use vstd::prelude::*;
use crate::domain::Side;

verus! {

/// The wire word for a side.
pub fn serialize(side: &Side) -> (r: &'static str)
    ensures
        *side is Buy ==> r@ == "buy"@,
        *side is Sell ==> r@ == "sell"@,
{
    match side {
        Side::Buy => "buy",
        Side::Sell => "sell",
    }
}

/// The side a wire word means: "buy" buys; anything else sells.
pub fn deserialize(s: &str) -> (r: Side)
    ensures
        r == (if s@ == "buy"@ {
            Side::Buy
        } else {
            Side::Sell
        }),
{
    let lhs = String::from_str(s);
    let rhs = String::from_str("buy");
    if lhs == rhs {
        Side::Buy
    } else {
        Side::Sell
    }
}

} // verus!
