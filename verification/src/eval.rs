//! The strategy evaluation service: its request and response, the history
//! window it evaluates over, and how a candle history is keyed by time.
use vstd::prelude::*;

use std::collections::BTreeMap;

use crate::market::{OhlcSpec, TradingDecision};

verus! {

/// Asks for strategy `strat_id` to be evaluated on stream `spec` up to the
/// candle that opens at `last` (seconds).
#[derive(Debug)]
pub struct EvalRequest {
    pub strat_id: i32,
    pub spec: OhlcSpec,
    pub last: i64,
}

/// The decision that an evaluation reached on stream `spec`.
#[derive(Debug)]
pub struct EvalResponse {
    pub decision: TradingDecision,
    pub spec: OhlcSpec,
}

/// Why an evaluation failed, as the evaluator words it.
#[derive(Debug)]
pub struct EvalError {
    pub message: String,
}

/// The remote evaluation service.
#[derive(Debug)]
pub struct EvalService;

/// How far back (in seconds) the candle history of an evaluation reaches:
/// twelve hours.
pub const HISTORY_WINDOW_SECS: i64 = 43200;

impl EvalService {
    /// Where the service listens.
    pub fn endpoint() -> (r: &'static str)
        ensures
            r@ == "actix://ingest:42044/eval"@,
    {
        "actix://ingest:42044/eval"
    }
}

impl EvalRequest {
    pub fn new(strat_id: i32, spec: OhlcSpec, last: i64) -> (r: EvalRequest)
        ensures
            r == (EvalRequest { strat_id, spec, last }),
    {
        EvalRequest { strat_id, spec, last }
    }

    /// The first candle time that the evaluation reads: twelve hours before
    /// `last`.
    pub fn history_start(&self) -> (r: i64)
        requires
            self.last >= i64::MIN + HISTORY_WINDOW_SECS,
        ensures
            r == self.last - HISTORY_WINDOW_SECS,
    {
        self.last - HISTORY_WINDOW_SECS
    }

    /// The service's answer to this request, given what the evaluator made
    /// of it: the decision together with the request's stream, or the
    /// evaluator's error.
    pub fn answer(self, outcome: Result<TradingDecision, EvalError>) -> (r: Result<
        EvalResponse,
        EvalError,
    >)
        ensures
            match outcome {
                Ok(d) => r == Ok::<EvalResponse, EvalError>(EvalResponse { decision: d, spec: self.spec }),
                Err(e) => r == Err::<EvalResponse, EvalError>(e),
            },
    {
        match outcome {
            Ok(decision) => Ok(EvalResponse { decision, spec: self.spec }),
            Err(e) => Err(e),
        }
    }
}

/// The candle history keyed by candle time: each time maps to the last
/// candle of `s` with that time.
pub open spec fn by_time<T>(s: Seq<(i64, T)>) -> Map<i64, T>
    decreases s.len(),
{
    if s.len() == 0 {
        Map::empty()
    } else {
        by_time(s.drop_last()).insert(s.last().0, s.last().1)
    }
}

/// Where several candles share a time, the history keeps the last of them.
pub proof fn law_last_candle_wins<T>(s: Seq<(i64, T)>, i: int)
    requires
        0 <= i < s.len(),
        forall|j: int| i < j < s.len() ==> (#[trigger] s[j]).0 != s[i].0,
    ensures
        by_time(s).contains_key(s[i].0),
        by_time(s)[s[i].0] == s[i].1,
    decreases s.len(),
{
    if i < s.len() - 1 {
        let t = s.drop_last();
        assert forall|j: int| i < j < t.len() implies (#[trigger] t[j]).0 != t[i].0 by {
            assert(t[j] == s[j]);
        }
        law_last_candle_wins(t, i);
    }
}

/// The history holds exactly the times of the candles.
pub proof fn law_only_candle_times<T>(s: Seq<(i64, T)>, time: i64)
    ensures
        by_time(s).contains_key(time) <==> exists|j: int| 0 <= j < s.len() && (#[trigger] s[j]).0 == time,
    decreases s.len(),
{
    if s.len() > 0 {
        let t = s.drop_last();
        law_only_candle_times(t, time);
        if by_time(s).contains_key(time) && s.last().0 != time {
            let j = choose|j: int| 0 <= j < t.len() && (#[trigger] t[j]).0 == time;
            assert(s[j] == t[j]);
        }
        if exists|j: int| 0 <= j < s.len() && (#[trigger] s[j]).0 == time {
            let j = choose|j: int| 0 <= j < s.len() && (#[trigger] s[j]).0 == time;
            if j < t.len() {
                assert(t[j] == s[j]);
            }
        }
    }
}

/// Keys a candle history by candle time; where two candles share a time,
/// the later one is kept.
pub fn candles_by_time<T>(candles: Vec<(i64, T)>) -> (r: BTreeMap<i64, T>)
    ensures
        r@ == by_time(candles@),
{
    let ghost all = candles@;
    let mut r: BTreeMap<i64, T> = BTreeMap::new();
    proof {
        assert(by_time(all.take(0)) =~= Map::<i64, T>::empty());
    }
    for entry in it: candles.into_iter()
        invariant
            it.seq() == all,
            r@ == by_time(all.take(it.index() as int)),
    {
        proof {
            let i = it.index() as int;
            assert(all.take(i + 1).drop_last() =~= all.take(i));
        }
        r.insert(entry.0, entry.1);
    }
    proof {
        assert(all.take(all.len() as int) =~= all);
    }
    r
}

} // verus!
