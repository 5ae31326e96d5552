use tradebot::eval::{candles_by_time, EvalError, EvalRequest, EvalService, HISTORY_WINDOW_SECS};
use tradebot::market::{OhlcSpec, TradingDecision};

fn request(last: i64) -> EvalRequest {
    EvalRequest::new(
        3,
        OhlcSpec::new("bitfinex".to_string(), "BTC:USD".to_string(), "Min1".to_string()),
        last,
    )
}

#[test]
fn endpoint_is_the_ingest_eval_address() {
    assert_eq!(EvalService::endpoint(), "actix://ingest:42044/eval");
}

#[test]
fn history_starts_twelve_hours_back() {
    assert_eq!(HISTORY_WINDOW_SECS, 12 * 60 * 60);
    assert_eq!(request(1_600_000_000).history_start(), 1_600_000_000 - 43_200);
    assert_eq!(request(0).history_start(), -43_200);
    assert_eq!(request(i64::MIN + 43_200).history_start(), i64::MIN);
}

#[test]
fn answer_pairs_decision_with_the_requested_stream() {
    let r = request(10).answer(Ok(TradingDecision::Short)).expect("a response");
    assert_eq!(r.decision, TradingDecision::Short);
    assert_eq!(r.spec.search_prefix(), "/bitfinex/BTC:USD/Min1");
}

#[test]
fn answer_passes_the_evaluator_error_on() {
    let e = request(10).answer(Err(EvalError { message: "bad strategy".to_string() }));
    assert_eq!(e.unwrap_err().message, "bad strategy");
}

#[test]
fn candles_are_keyed_by_time_with_the_last_one_kept() {
    let m = candles_by_time(vec![(60, "a"), (0, "b"), (60, "c"), (120, "d")]);
    let entries: Vec<(i64, &str)> = m.into_iter().collect();
    assert_eq!(entries, vec![(0, "b"), (60, "c"), (120, "d")]);
}

#[test]
fn empty_history_stays_empty() {
    let m = candles_by_time(Vec::<(i64, u8)>::new());
    assert!(m.is_empty());
}
