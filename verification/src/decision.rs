//! The decider: which strategies to evaluate when a candle stream updates,
//! how an evaluation is retried, and what is done with its outcome.
use vstd::prelude::*;

use crate::eval::{EvalError, EvalRequest};
use crate::ids::{now_millis, fresh_evaluation_id};
use crate::market::{OhlcSpec, Trader, TradingDecision};
use crate::node::RemoteError;
use crate::request_index::{RequestIndex, requests_at, matching, lemma_matching_keys};

verus! {

/// How often (in seconds) the decider reloads the assignments.
pub const RELOAD_INTERVAL_SECS: u64 = 5;

/// A strategy assignment as stored: a user runs a strategy on a stream.
#[derive(Debug)]
pub struct Assignment {
    pub exchange: String,
    pub pair: String,
    pub period: String,
    pub user_id: i32,
    pub strategy_id: i32,
}

/// A strategy to evaluate whenever its stream produces a stable candle,
/// with the trader (if any) that acts on its decisions.
#[derive(Debug)]
pub struct TradingRequestSpec {
    pub ohlc: OhlcSpec,
    pub user_id: i32,
    pub strat_id: i32,
    pub trader: Option<Trader>,
}

impl TradingRequestSpec {
    /// The search key of the watched stream.
    pub open spec fn key(&self) -> Seq<char> {
        self.ohlc.key()
    }

    /// The request that an assignment stands for.
    pub open spec fn assigned(d: Assignment, t: Option<Trader>) -> TradingRequestSpec {
        TradingRequestSpec {
            ohlc: OhlcSpec { exchange: d.exchange, pair: d.pair, period: d.period },
            user_id: d.user_id,
            strat_id: d.strategy_id,
            trader: t,
        }
    }

    /// The request for assignment `d`, acted on by trader `t`.
    pub fn from_db(d: &Assignment, t: Option<Trader>) -> (r: TradingRequestSpec)
        ensures
            r == Self::assigned(*d, t),
    {
        TradingRequestSpec {
            ohlc: OhlcSpec::new(d.exchange.clone(), d.pair.clone(), d.period.clone()),
            user_id: d.user_id,
            strat_id: d.strategy_id,
            trader: t,
        }
    }

    /// The search key of the watched stream, `/exchange/pair/period`.
    pub fn search_prefix(&self) -> (r: String)
        ensures
            r@ == self.key(),
    {
        self.ohlc.search_prefix()
    }
}

/// The requests that a list of assignments stands for, in list order.
pub open spec fn assigned_all(e: Seq<(Assignment, Option<Trader>)>) -> Seq<TradingRequestSpec> {
    e.map_values(|x: (Assignment, Option<Trader>)| TradingRequestSpec::assigned(x.0, x.1))
}

/// The requests filed after a reload with `e`: each stream key with an
/// assignment maps to the requests of its assignments, in list order.
pub open spec fn reloaded(e: Seq<(Assignment, Option<Trader>)>) -> Map<Seq<char>, Seq<TradingRequestSpec>> {
    Map::new(
        |p: Seq<char>| matching(assigned_all(e), p).len() > 0,
        |p: Seq<char>| matching(assigned_all(e), p),
    )
}

/// A new candle on a stream; only a stable (closed) candle is acted upon.
#[derive(Debug)]
pub struct OhlcUpdate {
    pub spec: OhlcSpec,
    pub time: i64,
    pub stable: bool,
}

impl OhlcUpdate {
    /// The search key of the updated stream.
    pub fn search_prefix(&self) -> (r: String)
        ensures
            r@ == self.spec.key(),
    {
        self.spec.search_prefix()
    }
}

/// One evaluation to run for an update, and what its outcome is for.
#[derive(Debug)]
pub struct Dispatch {
    pub request: EvalRequest,
    pub user_id: i32,
    pub trader: Option<Trader>,
}

/// The evaluation of request `s` on the candle of `u`.
pub open spec fn dispatch_for(s: TradingRequestSpec, u: OhlcUpdate) -> Dispatch {
    Dispatch {
        request: EvalRequest { strat_id: s.strat_id, spec: s.ohlc, last: u.time },
        user_id: s.user_id,
        trader: s.trader,
    }
}

/// What an update sets off, given the filed requests `m`: nothing for an
/// unstable candle; otherwise one evaluation per request filed under the
/// stream's key, in filing order.
pub open spec fn dispatches(m: Map<Seq<char>, Seq<TradingRequestSpec>>, u: OhlcUpdate) -> Seq<
    Dispatch,
> {
    if !u.stable {
        Seq::empty()
    } else {
        requests_at(m, u.spec.key()).map_values(|s: TradingRequestSpec| dispatch_for(s, u))
    }
}

/// Holds the strategy requests, filed by the stream they watch.
pub struct Decider {
    requests: RequestIndex,
}

impl Decider {
    pub closed spec fn wf(&self) -> bool {
        self.requests.wf()
    }

    /// The filed requests: each stream key maps to its requests.
    pub closed spec fn filed(&self) -> Map<Seq<char>, Seq<TradingRequestSpec>> {
        self.requests@
    }

    /// A decider with no requests.
    pub fn new() -> (r: Decider)
        ensures
            r.wf(),
            r.filed() == Map::<Seq<char>, Seq<TradingRequestSpec>>::empty(),
    {
        Decider { requests: RequestIndex::new() }
    }

    /// Replaces all requests with those of `entries`.
    pub fn reload(&mut self, entries: &Vec<(Assignment, Option<Trader>)>)
        requires
            old(self).wf(),
        ensures
            final(self).wf(),
            final(self).filed() == reloaded(entries@),
    {
        let ghost all = assigned_all(entries@);
        let mut index = RequestIndex::new();
        let mut i: usize = 0;
        while i < entries.len()
            invariant
                i <= entries@.len(),
                all == assigned_all(entries@),
                index.wf(),
                forall|p: Seq<char>| #[trigger]
                    requests_at(index@, p) == matching(all.take(i as int), p),
            decreases entries@.len() - i,
        {
            let spec = TradingRequestSpec::from_db(&entries[i].0, entries[i].1);
            let ghost before = index@;
            index.add(spec);
            proof {
                assert(all.take(i + 1).drop_last() =~= all.take(i as int));
                assert(all.take(i + 1).last() == spec);
                assert forall|p: Seq<char>| #[trigger]
                    requests_at(index@, p) == matching(all.take(i + 1), p) by {
                    assert(requests_at(before, p) == matching(all.take(i as int), p));
                }
            }
            i = i + 1;
        }
        proof {
            assert(all.take(entries@.len() as int) =~= all);
            assert forall|p: Seq<char>| #[trigger] index@.contains_key(p) <==> matching(all, p).len() > 0 by {
                index.lemma_filed_under_own_key(p);
                assert(requests_at(index@, p) == matching(all.take(entries@.len() as int), p));
            }
            assert forall|p: Seq<char>| index@.contains_key(p) implies #[trigger] index@[p] == matching(all, p) by {
                assert(requests_at(index@, p) == matching(all.take(entries@.len() as int), p));
            }
            assert(index@ =~= reloaded(entries@));
        }
        self.requests = index;
    }

    /// The evaluations that update `msg` sets off.
    pub fn handle(&self, msg: &OhlcUpdate) -> (r: Vec<Dispatch>)
        requires
            self.wf(),
        ensures
            r@ == dispatches(self.filed(), *msg),
    {
        let mut r: Vec<Dispatch> = Vec::new();
        if !msg.stable {
            proof {
                assert(r@ =~= dispatches(self.filed(), *msg));
            }
            return r;
        }
        let key = msg.search_prefix();
        let found = self.requests.get(&key);
        match found {
            None => {
                proof {
                    assert(r@ =~= dispatches(self.filed(), *msg));
                }
                r
            },
            Some(specs) => {
                let ghost want = dispatches(self.filed(), *msg);
                let mut i: usize = 0;
                while i < specs.len()
                    invariant
                        i <= specs@.len(),
                        specs@ == requests_at(self.filed(), msg.spec.key()),
                        want == dispatches(self.filed(), *msg),
                        msg.stable,
                        r@ == want.take(i as int),
                    decreases specs@.len() - i,
                {
                    let s = &specs[i];
                    let d = Dispatch {
                        request: EvalRequest {
                            strat_id: s.strat_id,
                            spec: s.ohlc.duplicate(),
                            last: msg.time,
                        },
                        user_id: s.user_id,
                        trader: s.trader,
                    };
                    r.push(d);
                    proof {
                        assert(r@ =~= want.take(i + 1));
                    }
                    i = i + 1;
                }
                proof {
                    assert(want.take(specs@.len() as int) =~= want);
                }
                r
            },
        }
    }
}

/// What to do when a call to the evaluation service fails.
#[derive(Debug, PartialEq, Eq, Structural)]
pub enum RetryDecision {
    /// Send the same request again.
    Repeat,
    /// Give up and pass the error on.
    ForwardError(RemoteError),
}

/// The retry policy of evaluation calls: a timeout is passed on, any other
/// failure is retried.
pub fn eval_retry_policy(e: RemoteError) -> (r: RetryDecision)
    ensures
        r == (match e {
            RemoteError::Timeout => RetryDecision::ForwardError(e),
            _ => RetryDecision::Repeat,
        }),
{
    match e {
        RemoteError::Timeout => RetryDecision::ForwardError(e),
        _ => RetryDecision::Repeat,
    }
}

/// Asks trader `trader_id` to take `position` on `pair`.
#[derive(Debug)]
pub struct PositionRequest {
    pub trader_id: Trader,
    pub pair: String,
    pub position: TradingDecision,
}

/// The log record of one evaluation.
#[derive(Debug)]
pub struct Evaluation {
    pub id: [u8; 16],
    pub strategy_id: i32,
    pub exchange: String,
    pub pair: String,
    pub period: String,
    pub user_id: i32,
    pub status: bool,
    pub time_ms: i64,
    pub ok: Option<String>,
    pub error: Option<String>,
    pub duration_ms: u64,
}

/// The position request that an outcome leads to: one exactly when the
/// evaluation decided and a trader acts on the strategy.
pub open spec fn position_for(d: Dispatch, outcome: Result<TradingDecision, EvalError>) -> Option<
    PositionRequest,
> {
    match (outcome, d.trader) {
        (Ok(decision), Some(t)) => Some(
            PositionRequest { trader_id: t, pair: d.request.spec.pair, position: decision },
        ),
        _ => None,
    }
}

/// Whether `e` records dispatch `d` with `outcome`, logged at `time_ms`
/// after `duration_ms` under `id`.
pub open spec fn records(
    e: Evaluation,
    d: Dispatch,
    outcome: Result<TradingDecision, EvalError>,
    id: Seq<u8>,
    time_ms: i64,
    duration_ms: u64,
) -> bool {
    &&& e.id@ == id
    &&& e.strategy_id == d.request.strat_id
    &&& e.exchange@ == d.request.spec.exchange@
    &&& e.pair@ == d.request.spec.pair@
    &&& e.period@ == d.request.spec.period@
    &&& e.user_id == d.user_id
    &&& e.status == outcome is Ok
    &&& e.time_ms == time_ms
    &&& e.duration_ms == duration_ms
    &&& match outcome {
        Ok(decision) => e.ok.is_some() && e.ok.unwrap()@ == decision.text() && e.error.is_none(),
        Err(err) => e.ok.is_none() && e.error.is_some() && e.error.unwrap()@ == err.message@,
    }
}

impl Dispatch {
    /// What follows an evaluation's outcome, with the log record's id and
    /// time given: the position request, if the evaluation decided and a
    /// trader acts on it, and the log record.
    pub fn conclude_with(
        &self,
        outcome: &Result<TradingDecision, EvalError>,
        id: [u8; 16],
        time_ms: i64,
        duration_ms: u64,
    ) -> (r: (Option<PositionRequest>, Evaluation))
        ensures
            r.0 == position_for(*self, *outcome),
            records(r.1, *self, *outcome, id@, time_ms, duration_ms),
    {
        let position = match (outcome, self.trader) {
            (Ok(decision), Some(t)) => Some(
                PositionRequest {
                    trader_id: t,
                    pair: self.request.spec.pair.clone(),
                    position: *decision,
                },
            ),
            _ => None,
        };
        let (ok, error) = match outcome {
            Ok(decision) => (Some(decision.to_text()), None),
            Err(e) => (None, Some(e.message.clone())),
        };
        let record = Evaluation {
            id,
            strategy_id: self.request.strat_id,
            exchange: self.request.spec.exchange.clone(),
            pair: self.request.spec.pair.clone(),
            period: self.request.spec.period.clone(),
            user_id: self.user_id,
            status: outcome.is_ok(),
            time_ms,
            ok,
            error,
            duration_ms,
        };
        (position, record)
    }

    /// What follows an evaluation's outcome: as `conclude_with`, with a
    /// fresh random (version 4) id and the current time for the record.
    pub fn conclude(&self, outcome: &Result<TradingDecision, EvalError>, duration_ms: u64) -> (r: (
        Option<PositionRequest>,
        Evaluation,
    ))
        ensures
            r.0 == position_for(*self, *outcome),
            records(r.1, *self, *outcome, r.1.id@, r.1.time_ms, duration_ms),
            r.1.id@[6] / 16 == 4,
            r.1.id@[8] / 64 == 2,
            r.1.time_ms >= 0,
    {
        let id = fresh_evaluation_id();
        let time_ms = now_millis();
        self.conclude_with(outcome, id, time_ms, duration_ms)
    }

    /// What follows a call to the evaluation service once its retries are
    /// over: nothing (no position request, no log record) when the call
    /// ended in a remote error; otherwise what `conclude` gives for the
    /// evaluation's outcome.
    pub fn settle(
        &self,
        result: &Result<Result<TradingDecision, EvalError>, RemoteError>,
        duration_ms: u64,
    ) -> (r: Option<(Option<PositionRequest>, Evaluation)>)
        ensures
            result is Err <==> r is None,
            match (*result, r) {
                (Ok(outcome), Some(c)) => {
                    &&& c.0 == position_for(*self, outcome)
                    &&& records(c.1, *self, outcome, c.1.id@, c.1.time_ms, duration_ms)
                    &&& c.1.id@[6] / 16 == 4
                    &&& c.1.id@[8] / 64 == 2
                    &&& c.1.time_ms >= 0
                },
                _ => true,
            },
    {
        match result {
            Ok(outcome) => Some(self.conclude(outcome, duration_ms)),
            Err(_) => None,
        }
    }
}

/// The request made from an assignment keeps all it was given: the
/// assignment's stream, user and strategy, and the trader given with it.
pub proof fn law_assigned_keeps_fields(d: Assignment, t: Option<Trader>)
    ensures
        TradingRequestSpec::assigned(d, t).trader == t,
        TradingRequestSpec::assigned(d, t).user_id == d.user_id,
        TradingRequestSpec::assigned(d, t).strat_id == d.strategy_id,
        TradingRequestSpec::assigned(d, t).ohlc.exchange == d.exchange,
        TradingRequestSpec::assigned(d, t).ohlc.pair == d.pair,
        TradingRequestSpec::assigned(d, t).ohlc.period == d.period,
{
}

/// Each evaluation a stable update sets off runs the filed request at the
/// same place under the stream's key: the same strategy, stream, user and
/// trader, evaluated up to the updated candle; there is one per filed
/// request.
pub proof fn law_dispatch_carries_request(m: Map<Seq<char>, Seq<TradingRequestSpec>>, u: OhlcUpdate)
    requires
        u.stable,
    ensures
        dispatches(m, u).len() == requests_at(m, u.spec.key()).len(),
        forall|i: int|
            0 <= i < dispatches(m, u).len() ==> {
                let s = requests_at(m, u.spec.key())[i];
                let d = #[trigger] dispatches(m, u)[i];
                &&& d.trader == s.trader
                &&& d.user_id == s.user_id
                &&& d.request.strat_id == s.strat_id
                &&& d.request.spec == s.ohlc
                &&& d.request.last == u.time
            },
{
}

/// After a reload, a stable candle on a stream sets off one evaluation for
/// each assignment on that stream, in list order, and an unstable candle
/// sets off none.
pub proof fn law_reload_then_update(e: Seq<(Assignment, Option<Trader>)>, u: OhlcUpdate)
    ensures
        u.stable ==> dispatches(reloaded(e), u) == matching(assigned_all(e), u.spec.key()).map_values(
            |s: TradingRequestSpec| dispatch_for(s, u),
        ),
        !u.stable ==> dispatches(reloaded(e), u).len() == 0,
{
    let p = u.spec.key();
    if matching(assigned_all(e), p).len() == 0 {
        assert(matching(assigned_all(e), p) =~= Seq::<TradingRequestSpec>::empty());
    }
}

/// A reload files each assignment under the key of the stream it watches,
/// and only there.
pub proof fn law_reload_files_by_stream(e: Seq<(Assignment, Option<Trader>)>, p: Seq<char>)
    ensures
        requests_at(reloaded(e), p) == matching(assigned_all(e), p),
        forall|k: int| 0 <= k < requests_at(reloaded(e), p).len() ==> (#[trigger] requests_at(reloaded(e), p)[k]).key() == p,
{
    lemma_matching_keys(assigned_all(e), p);
    if matching(assigned_all(e), p).len() == 0 {
        assert(matching(assigned_all(e), p) =~= Seq::<TradingRequestSpec>::empty());
    }
}

/// Every evaluation that an update sets off runs a strategy watching the
/// updated stream, up to the updated candle.
pub proof fn law_dispatch_on_updated_stream(d: &Decider, u: OhlcUpdate)
    requires
        d.wf(),
    ensures
        forall|i: int|
            0 <= i < dispatches(d.filed(), u).len() ==> {
                &&& (#[trigger] dispatches(d.filed(), u)[i]).request.spec.key() == u.spec.key()
                &&& dispatches(d.filed(), u)[i].request.last == u.time
            },
{
    let p = u.spec.key();
    d.requests.lemma_filed_under_own_key(p);
    assert forall|i: int| 0 <= i < dispatches(d.filed(), u).len() implies {
        &&& (#[trigger] dispatches(d.filed(), u)[i]).request.spec.key() == p
        &&& dispatches(d.filed(), u)[i].request.last == u.time
    } by {
        assert(requests_at(d.filed(), p)[i].key() == p);
    }
}

/// A position request goes out exactly when the evaluation decided and a
/// trader acts on the strategy; it carries that trader, the stream's pair
/// and the decision.
pub proof fn law_position_only_when_decided(d: Dispatch, outcome: Result<TradingDecision, EvalError>)
    ensures
        position_for(d, outcome) is Some <==> (outcome is Ok && d.trader is Some),
        position_for(d, outcome) is Some ==> {
            let p = position_for(d, outcome)->Some_0;
            &&& p.trader_id == d.trader->Some_0
            &&& p.position == outcome->Ok_0
            &&& p.pair == d.request.spec.pair
        },
{
}

/// The total number of requests filed under the keys `ks` in `m`.
pub open spec fn total_filed(ks: Seq<Seq<char>>, m: Map<Seq<char>, Seq<TradingRequestSpec>>) -> int
    decreases ks.len(),
{
    if ks.len() == 0 {
        0
    } else {
        total_filed(ks.drop_last(), m) + requests_at(m, ks.last()).len()
    }
}

/// The number of times `p` occurs in `ks`.
spec fn occurrences(ks: Seq<Seq<char>>, p: Seq<char>) -> int
    decreases ks.len(),
{
    if ks.len() == 0 {
        0
    } else {
        occurrences(ks.drop_last(), p) + if ks.last() == p { 1int } else { 0int }
    }
}

proof fn lemma_occurs_once(ks: Seq<Seq<char>>, p: Seq<char>)
    requires
        ks.no_duplicates(),
    ensures
        occurrences(ks, p) == if ks.contains(p) { 1int } else { 0int },
    decreases ks.len(),
{
    if ks.len() > 0 {
        let t = ks.drop_last();
        assert(t.no_duplicates()) by {
            assert forall|i: int, j: int| 0 <= i < t.len() && 0 <= j < t.len() && i != j implies t[i] != t[j] by {
                assert(t[i] == ks[i] && t[j] == ks[j]);
            }
        }
        lemma_occurs_once(t, p);
        if ks.last() == p {
            if t.contains(p) {
                let i = choose|i: int| 0 <= i < t.len() && t[i] == p;
                assert(ks[i] == p && ks[ks.len() - 1] == p);
            }
        }
        if ks.contains(p) && ks.last() != p {
            let i = choose|i: int| 0 <= i < ks.len() && ks[i] == p;
            assert(t[i] == p);
        }
        if t.contains(p) {
            let i = choose|i: int| 0 <= i < t.len() && t[i] == p;
            assert(ks[i] == p);
        }
    }
}

/// Adding one request with key `q` to the requests of `s` adds one to the
/// total over `ks` for each time `q` occurs in `ks`.
proof fn lemma_total_push(
    ks: Seq<Seq<char>>,
    s: Seq<TradingRequestSpec>,
    x: TradingRequestSpec,
)
    ensures
        total_filed(ks, reloaded_from(s.push(x))) == total_filed(ks, reloaded_from(s)) + occurrences(ks, x.key()),
    decreases ks.len(),
{
    if ks.len() > 0 {
        lemma_total_push(ks.drop_last(), s, x);
        let k = ks.last();
        assert(s.push(x).drop_last() =~= s);
        lemma_requests_at_reloaded(s.push(x), k);
        lemma_requests_at_reloaded(s, k);
    }
}

/// The requests filed from `s`, grouped by key.
spec fn reloaded_from(s: Seq<TradingRequestSpec>) -> Map<Seq<char>, Seq<TradingRequestSpec>> {
    Map::new(|p: Seq<char>| matching(s, p).len() > 0, |p: Seq<char>| matching(s, p))
}

proof fn lemma_requests_at_reloaded(s: Seq<TradingRequestSpec>, p: Seq<char>)
    ensures
        requests_at(reloaded_from(s), p) == matching(s, p),
{
    if matching(s, p).len() == 0 {
        assert(matching(s, p) =~= Seq::<TradingRequestSpec>::empty());
    }
}

proof fn lemma_total_is_count(ks: Seq<Seq<char>>, s: Seq<TradingRequestSpec>)
    requires
        ks.no_duplicates(),
        forall|i: int| 0 <= i < s.len() ==> ks.contains(#[trigger] s[i].key()),
    ensures
        total_filed(ks, reloaded_from(s)) == s.len(),
    decreases s.len(),
{
    if s.len() == 0 {
        lemma_total_empty(ks, s);
    } else {
        let t = s.drop_last();
        assert forall|i: int| 0 <= i < t.len() implies ks.contains(#[trigger] t[i].key()) by {
            assert(t[i] == s[i]);
        }
        lemma_total_is_count(ks, t);
        assert(t.push(s.last()) =~= s);
        lemma_total_push(ks, t, s.last());
        assert(ks.contains(s[s.len() - 1].key()));
        lemma_occurs_once(ks, s.last().key());
    }
}

proof fn lemma_total_empty(ks: Seq<Seq<char>>, s: Seq<TradingRequestSpec>)
    requires
        s.len() == 0,
    ensures
        total_filed(ks, reloaded_from(s)) == 0,
    decreases ks.len(),
{
    if ks.len() > 0 {
        lemma_total_empty(ks.drop_last(), s);
        lemma_requests_at_reloaded(s, ks.last());
    }
}

/// A reload stores each assignment exactly once: whatever list `ks` names
/// each filed stream key once, the requests filed under its keys number as
/// many as the assignments.
pub proof fn law_reload_stores_each_once(e: Seq<(Assignment, Option<Trader>)>, ks: Seq<Seq<char>>)
    requires
        ks.no_duplicates(),
        ks.to_set() == reloaded(e).dom(),
    ensures
        total_filed(ks, reloaded(e)) == e.len(),
{
    let s = assigned_all(e);
    assert(reloaded(e) =~= reloaded_from(s));
    assert forall|i: int| 0 <= i < s.len() implies ks.contains(#[trigger] s[i].key()) by {
        lemma_matching_contains(s, i);
        assert(reloaded(e).dom().contains(s[i].key()));
        assert(ks.to_set().contains(s[i].key()));
    }
    lemma_total_is_count(ks, s);
}

/// Every request of `s` is among those that `matching` keeps for its key.
proof fn lemma_matching_contains(s: Seq<TradingRequestSpec>, i: int)
    requires
        0 <= i < s.len(),
    ensures
        matching(s, s[i].key()).len() > 0,
    decreases s.len(),
{
    if i < s.len() - 1 {
        lemma_matching_contains(s.drop_last(), i);
        assert(s.drop_last()[i] == s[i]);
    }
}

} // verus!
