//! Market vocabulary shared by the evaluation service and the decider:
//! which candle stream a strategy watches, and what a strategy decides.
use vstd::prelude::*;

verus! {

/// Identifies one candle (OHLC) stream: an exchange, a trade pair on it,
/// and the candle period.
///
/// The pair is held as its canonical text (as it is written in a strategy
/// assignment) and the period as its name; the decider only formats and
/// compares them.
#[derive(Debug)]
pub struct OhlcSpec {
    pub exchange: String,
    pub pair: String,
    pub period: String,
}

/// What a strategy decided for the latest candle.
#[derive(Debug, Clone, Copy, PartialEq, Eq, Structural)]
pub enum TradingDecision {
    Long,
    Short,
    Indeterminate,
}

/// The key of a trader account that may act on a decision.
#[derive(Debug, Clone, Copy, PartialEq, Eq, Structural)]
pub struct Trader {
    pub id: i32,
}

/// The text of a `/`-separated stream key.
pub open spec fn prefix_of(exchange: Seq<char>, pair: Seq<char>, period: Seq<char>) -> Seq<char> {
    seq!['/'] + exchange + seq!['/'] + pair + seq!['/'] + period
}

/// `x` holds no `/`.
pub open spec fn slash_free(x: Seq<char>) -> bool {
    forall|i: int| 0 <= i < x.len() ==> x[i] != '/'
}

/// A slash-free head before the first `/` is determined, and so is the rest.
proof fn lemma_split_at_slash(x1: Seq<char>, r1: Seq<char>, x2: Seq<char>, r2: Seq<char>)
    requires
        slash_free(x1),
        slash_free(x2),
        x1 + seq!['/'] + r1 == x2 + seq!['/'] + r2,
    ensures
        x1 == x2,
        r1 == r2,
{
    let s = x1 + seq!['/'] + r1;
    let t = x2 + seq!['/'] + r2;
    if x1.len() < x2.len() {
        assert(s[x1.len() as int] == '/');
        assert(t[x1.len() as int] == x2[x1.len() as int]);
    } else if x2.len() < x1.len() {
        assert(t[x2.len() as int] == '/');
        assert(s[x2.len() as int] == x1[x2.len() as int]);
    }
    assert(x1 =~= s.subrange(0, x1.len() as int));
    assert(x2 =~= t.subrange(0, x2.len() as int));
    assert(r1 =~= s.subrange(x1.len() as int + 1, s.len() as int));
    assert(r2 =~= t.subrange(x2.len() as int + 1, t.len() as int));
}

/// The search key determines the stream: streams whose exchange and pair
/// hold no `/` have the same key only when exchange, pair and period are
/// all the same. The key starts with `/` and is as long as its three
/// fields and three slashes.
pub proof fn law_key_determines_stream(
    e1: Seq<char>,
    p1: Seq<char>,
    q1: Seq<char>,
    e2: Seq<char>,
    p2: Seq<char>,
    q2: Seq<char>,
)
    requires
        slash_free(e1),
        slash_free(p1),
        slash_free(e2),
        slash_free(p2),
    ensures
        prefix_of(e1, p1, q1) == prefix_of(e2, p2, q2) <==> (e1 == e2 && p1 == p2 && q1 == q2),
        prefix_of(e1, p1, q1).len() == e1.len() + p1.len() + q1.len() + 3,
        prefix_of(e1, p1, q1)[0] == '/',
        prefix_of(e1, p1, q1).subrange(1, e1.len() as int + 1) == e1,
        prefix_of(e1, p1, q1).subrange(e1.len() as int + 2, e1.len() as int + p1.len() + 2) == p1,
        prefix_of(e1, p1, q1).subrange(
            e1.len() as int + p1.len() + 3,
            e1.len() as int + p1.len() + q1.len() + 3,
        ) == q1,
{
    let k1 = prefix_of(e1, p1, q1);
    assert(k1.subrange(1, e1.len() as int + 1) =~= e1);
    assert(k1.subrange(e1.len() as int + 2, e1.len() as int + p1.len() + 2) =~= p1);
    assert(k1.subrange(e1.len() as int + p1.len() + 3, e1.len() as int + p1.len() + q1.len() + 3) =~= q1);
    if prefix_of(e1, p1, q1) == prefix_of(e2, p2, q2) {
        let a1 = e1 + seq!['/'] + (p1 + seq!['/'] + q1);
        let a2 = e2 + seq!['/'] + (p2 + seq!['/'] + q2);
        assert(prefix_of(e1, p1, q1) =~= seq!['/'] + a1);
        assert(prefix_of(e2, p2, q2) =~= seq!['/'] + a2);
        assert(a1 =~= prefix_of(e1, p1, q1).subrange(1, prefix_of(e1, p1, q1).len() as int));
        assert(a2 =~= prefix_of(e2, p2, q2).subrange(1, prefix_of(e2, p2, q2).len() as int));
        lemma_split_at_slash(e1, p1 + seq!['/'] + q1, e2, p2 + seq!['/'] + q2);
        lemma_split_at_slash(p1, q1, p2, q2);
    }
}

impl OhlcSpec {
    /// The search key of this stream, `/exchange/pair/period`.
    pub open spec fn key(&self) -> Seq<char> {
        prefix_of(self.exchange@, self.pair@, self.period@)
    }

    pub fn new(exchange: String, pair: String, period: String) -> (r: OhlcSpec)
        ensures
            r.exchange == exchange,
            r.pair == pair,
            r.period == period,
    {
        OhlcSpec { exchange, pair, period }
    }

    /// A field-for-field copy.
    pub fn duplicate(&self) -> (r: OhlcSpec)
        ensures
            r == *self,
    {
        OhlcSpec {
            exchange: self.exchange.clone(),
            pair: self.pair.clone(),
            period: self.period.clone(),
        }
    }

    /// Formats the stream's search key: `/exchange/pair/period`.
    pub fn search_prefix(&self) -> (r: String)
        ensures
            r@ == self.key(),
    {
        let mut r = String::new();
        r.append("/");
        r.append(self.exchange.as_str());
        r.append("/");
        r.append(self.pair.as_str());
        r.append("/");
        r.append(self.period.as_str());
        proof {
            reveal_strlit("/");
            assert(r@ =~= self.key());
        }
        r
    }
}

impl TradingDecision {
    /// The decision's display text.
    pub open spec fn text(self) -> Seq<char> {
        match self {
            TradingDecision::Long => "Long"@,
            TradingDecision::Short => "Short"@,
            TradingDecision::Indeterminate => "Indeterminate"@,
        }
    }

    /// Renders the decision as text.
    pub fn to_text(&self) -> (r: String)
        ensures
            r@ == self.text(),
    {
        match self {
            TradingDecision::Long => "Long".to_owned(),
            TradingDecision::Short => "Short".to_owned(),
            TradingDecision::Indeterminate => "Indeterminate".to_owned(),
        }
    }
}

} // verus!
