use tradebot::decision::{
    eval_retry_policy, Assignment, Decider, Dispatch, OhlcUpdate, RetryDecision, TradingRequestSpec,
};
use tradebot::eval::{EvalError, EvalRequest};
use tradebot::market::{OhlcSpec, Trader, TradingDecision};
use tradebot::node::RemoteError;

fn spec(exchange: &str, pair: &str, period: &str) -> OhlcSpec {
    OhlcSpec::new(exchange.to_string(), pair.to_string(), period.to_string())
}

fn assignment(exchange: &str, pair: &str, period: &str, user_id: i32, strategy_id: i32) -> Assignment {
    Assignment {
        exchange: exchange.to_string(),
        pair: pair.to_string(),
        period: period.to_string(),
        user_id,
        strategy_id,
    }
}

fn update(exchange: &str, pair: &str, period: &str, time: i64, stable: bool) -> OhlcUpdate {
    OhlcUpdate { spec: spec(exchange, pair, period), time, stable }
}

#[test]
fn search_prefix_joins_exchange_pair_and_period() {
    assert_eq!(spec("bitfinex", "BTC:USD", "Min1").search_prefix(), "/bitfinex/BTC:USD/Min1");
    assert_eq!(spec("", "", "").search_prefix(), "///");
}

#[test]
fn from_db_copies_the_assignment() {
    let a = assignment("binance", "ETH:BTC", "Hour1", 7, 42);
    let r = TradingRequestSpec::from_db(&a, Some(Trader { id: 3 }));
    assert_eq!(r.ohlc.exchange, "binance");
    assert_eq!(r.ohlc.pair, "ETH:BTC");
    assert_eq!(r.ohlc.period, "Hour1");
    assert_eq!(r.user_id, 7);
    assert_eq!(r.strat_id, 42);
    assert_eq!(r.trader, Some(Trader { id: 3 }));
    assert_eq!(r.search_prefix(), "/binance/ETH:BTC/Hour1");
}

fn loaded() -> Decider {
    let mut d = Decider::new();
    let entries = vec![
        (assignment("bitfinex", "BTC:USD", "Min1", 1, 10), Some(Trader { id: 100 })),
        (assignment("bitfinex", "ETH:USD", "Min1", 2, 20), None),
        (assignment("bitfinex", "BTC:USD", "Min1", 3, 30), None),
        (assignment("bitfinex", "BTC:USD", "Min5", 4, 40), None),
    ];
    d.reload(&entries);
    d
}

#[test]
fn stable_update_dispatches_every_strategy_on_its_stream_in_order() {
    let d = loaded();
    let out = d.handle(&update("bitfinex", "BTC:USD", "Min1", 1_600_000_000, true));
    assert_eq!(out.len(), 2);
    assert_eq!(out[0].request.strat_id, 10);
    assert_eq!(out[0].user_id, 1);
    assert_eq!(out[0].trader, Some(Trader { id: 100 }));
    assert_eq!(out[0].request.last, 1_600_000_000);
    assert_eq!(out[0].request.spec.search_prefix(), "/bitfinex/BTC:USD/Min1");
    assert_eq!(out[1].request.strat_id, 30);
    assert_eq!(out[1].user_id, 3);
    assert_eq!(out[1].trader, None);
}

#[test]
fn unstable_update_dispatches_nothing() {
    let d = loaded();
    let out = d.handle(&update("bitfinex", "BTC:USD", "Min1", 5, false));
    assert!(out.is_empty());
}

#[test]
fn update_on_unwatched_stream_dispatches_nothing() {
    let d = loaded();
    assert!(d.handle(&update("kraken", "BTC:USD", "Min1", 5, true)).is_empty());
    assert!(d.handle(&update("bitfinex", "BTC:USD", "Hour1", 5, true)).is_empty());
}

#[test]
fn reload_replaces_earlier_requests() {
    let mut d = loaded();
    d.reload(&vec![(assignment("bitfinex", "ETH:USD", "Min1", 9, 90), None)]);
    assert!(d.handle(&update("bitfinex", "BTC:USD", "Min1", 5, true)).is_empty());
    let out = d.handle(&update("bitfinex", "ETH:USD", "Min1", 5, true));
    assert_eq!(out.len(), 1);
    assert_eq!(out[0].request.strat_id, 90);
    d.reload(&vec![]);
    assert!(d.handle(&update("bitfinex", "ETH:USD", "Min1", 5, true)).is_empty());
}

#[test]
fn timeouts_are_forwarded_and_other_failures_retried() {
    assert_eq!(eval_retry_policy(RemoteError::Timeout), RetryDecision::ForwardError(RemoteError::Timeout));
    assert_eq!(eval_retry_policy(RemoteError::MailboxClosed), RetryDecision::Repeat);
}

fn dispatch(trader: Option<Trader>) -> Dispatch {
    Dispatch {
        request: EvalRequest::new(5, spec("bitfinex", "BTC:USD", "Min15"), 1000),
        user_id: 8,
        trader,
    }
}

#[test]
fn decided_evaluation_with_trader_requests_a_position() {
    let d = dispatch(Some(Trader { id: 77 }));
    let (pos, rec) = d.conclude_with(&Ok(TradingDecision::Long), [1u8; 16], 123, 45);
    let pos = pos.expect("a position request");
    assert_eq!(pos.trader_id, Trader { id: 77 });
    assert_eq!(pos.pair, "BTC:USD");
    assert_eq!(pos.position, TradingDecision::Long);
    assert_eq!(rec.id, [1u8; 16]);
    assert_eq!(rec.strategy_id, 5);
    assert_eq!(rec.user_id, 8);
    assert_eq!(rec.exchange, "bitfinex");
    assert_eq!(rec.pair, "BTC:USD");
    assert_eq!(rec.period, "Min15");
    assert!(rec.status);
    assert_eq!(rec.time_ms, 123);
    assert_eq!(rec.duration_ms, 45);
    assert_eq!(rec.ok.as_deref(), Some("Long"));
    assert_eq!(rec.error, None);
}

#[test]
fn decided_evaluation_without_trader_only_logs() {
    let d = dispatch(None);
    let (pos, rec) = d.conclude_with(&Ok(TradingDecision::Short), [0u8; 16], 1, 2);
    assert!(pos.is_none());
    assert!(rec.status);
    assert_eq!(rec.ok.as_deref(), Some("Short"));
}

#[test]
fn failed_evaluation_logs_the_error() {
    let d = dispatch(Some(Trader { id: 1 }));
    let err = EvalError { message: "no data".to_string() };
    let (pos, rec) = d.conclude_with(&Err(err), [0u8; 16], 1, 2);
    assert!(pos.is_none());
    assert!(!rec.status);
    assert_eq!(rec.ok, None);
    assert_eq!(rec.error.as_deref(), Some("no data"));
}

#[test]
fn conclude_stamps_a_random_version_four_id() {
    let d = dispatch(None);
    let (_, a) = d.conclude(&Ok(TradingDecision::Indeterminate), 3);
    let (_, b) = d.conclude(&Ok(TradingDecision::Indeterminate), 3);
    assert_eq!(a.id[6] >> 4, 4);
    assert_eq!(a.id[8] >> 6, 2);
    assert_ne!(a.id, b.id);
    assert!(a.time_ms > 1_500_000_000_000);
    assert_eq!(a.ok.as_deref(), Some("Indeterminate"));
    assert_eq!(a.duration_ms, 3);
}

#[test]
fn remote_failure_after_retries_leads_to_nothing() {
    let d = dispatch(Some(Trader { id: 4 }));
    assert!(d.settle(&Err(RemoteError::Timeout), 10).is_none());
    let (pos, rec) = d.settle(&Ok(Ok(TradingDecision::Long)), 10).expect("a conclusion");
    assert_eq!(pos.expect("a position request").position, TradingDecision::Long);
    assert!(rec.status);
    assert_eq!(rec.id[6] >> 4, 4);
    let (pos, rec) = d
        .settle(&Ok(Err(EvalError { message: "bad".to_string() })), 10)
        .expect("a conclusion");
    assert!(pos.is_none());
    assert_eq!(rec.error.as_deref(), Some("bad"));
}

#[test]
fn reload_stores_each_assignment_once() {
    let d = loaded();
    let a = d.handle(&update("bitfinex", "BTC:USD", "Min1", 1, true)).len();
    let b = d.handle(&update("bitfinex", "ETH:USD", "Min1", 1, true)).len();
    let c = d.handle(&update("bitfinex", "BTC:USD", "Min5", 1, true)).len();
    assert_eq!(a + b + c, 4);
}

#[test]
fn reload_interval_is_five_seconds() {
    assert_eq!(tradebot::decision::RELOAD_INTERVAL_SECS, 5);
}
