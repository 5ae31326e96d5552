//! The fields of a market order as the exchange's order endpoint takes them.
use vstd::prelude::*;

verus! {

/// A new order, every field in the exchange's textual form.
#[derive(Debug)]
pub struct RawOrderPayload {
    pub symbol: String,
    pub amount: String,
    pub price: String,
    pub exchange: String,
    pub side: String,
    pub typ: String,
}

/// The side of an order: `buy` or `sell`.
pub open spec fn side_text(buy: bool) -> Seq<char> {
    if buy {
        "buy"@
    } else {
        "sell"@
    }
}

/// The payload of a market order for `symbol` (the exchange's pair symbol)
/// of size `amount` (the order size's absolute value, as text), on the
/// buying side when `buy` holds. A market order carries the nominal price
/// `1`.
pub fn market_order(symbol: String, amount: String, buy: bool) -> (r: RawOrderPayload)
    ensures
        r.symbol == symbol,
        r.amount == amount,
        r.price@ == "1"@,
        r.exchange@ == "bitfinex"@,
        r.side@ == side_text(buy),
        r.typ@ == "exchange market"@,
{
    let side = if buy {
        "buy".to_owned()
    } else {
        "sell".to_owned()
    };
    RawOrderPayload {
        symbol,
        amount,
        price: "1".to_owned(),
        exchange: "bitfinex".to_owned(),
        side,
        typ: "exchange market".to_owned(),
    }
}

} // verus!
