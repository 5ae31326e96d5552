use tradebot::order::market_order;

#[test]
fn buy_order_fields() {
    let p = market_order("tBTCUSD".to_string(), "0.5".to_string(), true);
    assert_eq!(p.symbol, "tBTCUSD");
    assert_eq!(p.amount, "0.5");
    assert_eq!(p.price, "1");
    assert_eq!(p.exchange, "bitfinex");
    assert_eq!(p.side, "buy");
    assert_eq!(p.typ, "exchange market");
}

#[test]
fn sell_order_side() {
    let p = market_order("tETHUSD".to_string(), "2".to_string(), false);
    assert_eq!(p.side, "sell");
    assert_eq!(p.price, "1");
}
