//! The decider's index of trading requests, grouped by the search key of
//! the candle stream that they watch.
use vstd::prelude::*;

use crate::decision::TradingRequestSpec;

verus! {

/// Requests grouped by stream key. `keys[i]` is the key of every request
/// in `groups[i]`; no key occurs twice and no group is empty.
pub struct RequestIndex {
    keys: Vec<String>,
    groups: Vec<Vec<TradingRequestSpec>>,
}

/// Whether `p` is one of `keys`.
pub open spec fn has_key(keys: Seq<String>, p: Seq<char>) -> bool {
    exists|i: int| 0 <= i < keys.len() && #[trigger] keys[i]@ == p
}

/// The position of `p` among `keys` (meaningful where `has_key` holds).
pub open spec fn slot(keys: Seq<String>, p: Seq<char>) -> int {
    choose|i: int| 0 <= i < keys.len() && #[trigger] keys[i]@ == p
}

/// No key text occurs twice.
pub open spec fn distinct_keys(keys: Seq<String>) -> bool {
    forall|i: int, j: int|
        0 <= i < keys.len() && 0 <= j < keys.len() && i != j ==> #[trigger] keys[i]@
            != #[trigger] keys[j]@
}

/// The requests filed under `p` in `m`, or none.
pub open spec fn requests_at(
    m: Map<Seq<char>, Seq<TradingRequestSpec>>,
    p: Seq<char>,
) -> Seq<TradingRequestSpec> {
    if m.contains_key(p) {
        m[p]
    } else {
        Seq::empty()
    }
}

/// The requests of `s` whose stream key is `p`, in their order in `s`.
pub open spec fn matching(s: Seq<TradingRequestSpec>, p: Seq<char>) -> Seq<TradingRequestSpec>
    decreases s.len(),
{
    if s.len() == 0 {
        Seq::empty()
    } else {
        let rest = matching(s.drop_last(), p);
        if s.last().key() == p {
            rest.push(s.last())
        } else {
            rest
        }
    }
}

/// Every request that `matching` keeps is filed under `p`.
pub proof fn lemma_matching_keys(s: Seq<TradingRequestSpec>, p: Seq<char>)
    ensures
        forall|k: int| 0 <= k < matching(s, p).len() ==> (#[trigger] matching(s, p)[k]).key() == p,
    decreases s.len(),
{
    if s.len() > 0 {
        lemma_matching_keys(s.drop_last(), p);
        let rest = matching(s.drop_last(), p);
        assert forall|k: int| 0 <= k < matching(s, p).len() implies (#[trigger] matching(s, p)[k]).key() == p by {
            if k < rest.len() {
                assert(matching(s, p)[k] == rest[k]);
            }
        }
    }
}

proof fn lemma_slot_is(keys: Seq<String>, i: int)
    requires
        distinct_keys(keys),
        0 <= i < keys.len(),
    ensures
        has_key(keys, keys[i]@),
        slot(keys, keys[i]@) == i,
{
    let p = keys[i]@;
    assert(has_key(keys, p));
    let j = slot(keys, p);
    assert(keys[j]@ == p);
}

impl View for RequestIndex {
    type V = Map<Seq<char>, Seq<TradingRequestSpec>>;

    /// Each key present maps to the requests filed under it, in filing order.
    closed spec fn view(&self) -> Map<Seq<char>, Seq<TradingRequestSpec>> {
        Map::new(
            |p: Seq<char>| has_key(self.keys@, p),
            |p: Seq<char>| self.groups@[slot(self.keys@, p)]@,
        )
    }
}

impl RequestIndex {
    pub closed spec fn wf(&self) -> bool {
        &&& self.keys@.len() == self.groups@.len()
        &&& distinct_keys(self.keys@)
        &&& forall|i: int| 0 <= i < self.groups@.len() ==> #[trigger] self.groups@[i]@.len() > 0
        &&& forall|i: int, k: int|
            0 <= i < self.groups@.len() && 0 <= k < self.groups@[i]@.len()
                ==> #[trigger] self.groups@[i]@[k].key() == self.keys@[i]@
    }

    /// Every request in the index is filed under its own stream key, and no
    /// key is present without a request.
    pub proof fn lemma_filed_under_own_key(&self, p: Seq<char>)
        requires
            self.wf(),
        ensures
            self@.contains_key(p) ==> self@[p].len() > 0,
            forall|k: int| 0 <= k < requests_at(self@, p).len() ==> #[trigger] requests_at(
                self@,
                p,
            )[k].key() == p,
    {
        if self@.contains_key(p) {
            let i = slot(self.keys@, p);
            assert(self.groups@[i]@.len() > 0);
            assert forall|k: int| 0 <= k < requests_at(self@, p).len() implies #[trigger] requests_at(
                self@,
                p,
            )[k].key() == p by {
                assert(self.groups@[i]@[k].key() == self.keys@[i]@);
            }
        }
    }

    /// An index with no requests.
    pub fn new() -> (r: RequestIndex)
        ensures
            r.wf(),
            r@ == Map::<Seq<char>, Seq<TradingRequestSpec>>::empty(),
    {
        let r = RequestIndex { keys: Vec::new(), groups: Vec::new() };
        assert(r@ =~= Map::<Seq<char>, Seq<TradingRequestSpec>>::empty());
        r
    }

    /// The position of `key` among the keys, if it is there.
    fn find(&self, key: &String) -> (r: Option<usize>)
        requires
            self.wf(),
        ensures
            match r {
                Some(i) => i < self.keys@.len() && self.keys@[i as int]@ == key@ && slot(
                    self.keys@,
                    key@,
                ) == i && has_key(self.keys@, key@),
                None => !has_key(self.keys@, key@),
            },
    {
        let mut i: usize = 0;
        while i < self.keys.len()
            invariant
                i <= self.keys@.len(),
                self.wf(),
                forall|j: int| 0 <= j < i ==> #[trigger] self.keys@[j]@ != key@,
            decreases self.keys@.len() - i,
        {
            if self.keys[i] == *key {
                proof {
                    lemma_slot_is(self.keys@, i as int);
                }
                return Some(i);
            }
            i = i + 1;
        }
        None
    }

    /// Files `spec` under its stream key, after the requests already there.
    pub fn add(&mut self, spec: TradingRequestSpec)
        requires
            old(self).wf(),
        ensures
            final(self).wf(),
            final(self)@ == old(self)@.insert(
                spec.key(),
                requests_at(old(self)@, spec.key()).push(spec),
            ),
    {
        let key = spec.search_prefix();
        let ghost p = spec.key();
        let ghost old_keys = self.keys@;
        let ghost old_groups = self.groups@;
        match self.find(&key) {
            Some(i) => {
                let ghost before = self.groups@[i as int]@;
                self.groups[i].push(spec);
                proof {
                    assert(self.keys@ == old_keys);
                    assert(self.groups@ == old_groups.update(i as int, self.groups@[i as int]));
                    assert(self.groups@[i as int]@ == before.push(spec));
                    assert(requests_at(old(self)@, p) == before);
                    assert forall|a: int, k: int|
                        0 <= a < self.groups@.len() && 0 <= k < self.groups@[a]@.len()
                            implies #[trigger] self.groups@[a]@[k].key() == self.keys@[a]@ by {
                        if a != i as int {
                            assert(self.groups@[a] == old_groups[a]);
                            assert(old_groups[a]@[k].key() == old_keys[a]@);
                        } else if k < before.len() {
                            assert(self.groups@[a]@[k] == before[k]);
                            assert(old_groups[a]@[k].key() == old_keys[a]@);
                        } else {
                            assert(self.groups@[a]@[k] == spec);
                        }
                    }
                    assert forall|a: int| 0 <= a < self.groups@.len() implies #[trigger] self.groups@[a]@.len() > 0 by {
                        if a != i as int {
                            assert(self.groups@[a] == old_groups[a]);
                        }
                    }
                    let m = self@;
                    let target = old(self)@.insert(p, requests_at(old(self)@, p).push(spec));
                    assert forall|q: Seq<char>| #[trigger] m.contains_key(q) == target.contains_key(q) by {
                        if q == p {
                            assert(has_key(self.keys@, q));
                        }
                    }
                    assert forall|q: Seq<char>| m.contains_key(q) implies #[trigger] m[q] == target[q] by {
                        let j = slot(self.keys@, q);
                        lemma_slot_is(self.keys@, j);
                        if j != i as int {
                            assert(self.groups@[j] == old_groups[j]);
                            assert(q != p);
                        }
                    }
                    assert(m =~= target);
                }
            },
            None => {
                let mut group: Vec<TradingRequestSpec> = Vec::new();
                group.push(spec);
                self.keys.push(key);
                self.groups.push(group);
                proof {
                    let n = old_keys.len() as int;
                    assert(self.keys@[n]@ == p);
                    assert forall|a: int, b: int|
                        0 <= a < self.keys@.len() && 0 <= b < self.keys@.len() && a != b
                            implies #[trigger] self.keys@[a]@ != #[trigger] self.keys@[b]@ by {
                        if a < n && b < n {
                            assert(self.keys@[a] == old_keys[a]);
                            assert(self.keys@[b] == old_keys[b]);
                        } else if a < n {
                            assert(self.keys@[a] == old_keys[a]);
                        } else {
                            assert(self.keys@[b] == old_keys[b]);
                        }
                    }
                    assert forall|a: int, k: int|
                        0 <= a < self.groups@.len() && 0 <= k < self.groups@[a]@.len()
                            implies #[trigger] self.groups@[a]@[k].key() == self.keys@[a]@ by {
                        if a < n {
                            assert(self.groups@[a] == old_groups[a]);
                            assert(self.keys@[a] == old_keys[a]);
                            assert(old_groups[a]@[k].key() == old_keys[a]@);
                        } else {
                            assert(self.groups@[a]@ =~= seq![spec]);
                        }
                    }
                    assert forall|a: int| 0 <= a < self.groups@.len() implies #[trigger] self.groups@[a]@.len() > 0 by {
                        if a < n {
                            assert(self.groups@[a] == old_groups[a]);
                        }
                    }
                    let m = self@;
                    let target = old(self)@.insert(p, requests_at(old(self)@, p).push(spec));
                    assert forall|q: Seq<char>| #[trigger] m.contains_key(q) == target.contains_key(q) by {
                        if q == p {
                            assert(self.keys@[n]@ == p);
                        } else if has_key(self.keys@, q) {
                            let j = slot(self.keys@, q);
                            assert(j < n);
                            assert(old_keys[j] == self.keys@[j]);
                        } else if has_key(old_keys, q) {
                            let j = slot(old_keys, q);
                            assert(self.keys@[j] == old_keys[j]);
                        }
                    }
                    assert forall|q: Seq<char>| m.contains_key(q) implies #[trigger] m[q] == target[q] by {
                        let j = slot(self.keys@, q);
                        lemma_slot_is(self.keys@, j);
                        if q != p {
                            assert(j < n);
                            assert(old_keys[j] == self.keys@[j]);
                            lemma_slot_is(old_keys, j);
                            assert(self.groups@[j] == old_groups[j]);
                        } else {
                            lemma_slot_is(self.keys@, n);
                            assert(self.groups@[n]@ =~= seq![spec]);
                        }
                    }
                    assert(m =~= target);
                }
            },
        }
    }

    /// The requests filed under `prefix`, if any.
    pub fn get(&self, prefix: &String) -> (r: Option<&Vec<TradingRequestSpec>>)
        requires
            self.wf(),
        ensures
            match r {
                Some(v) => self@.contains_key(prefix@) && v@ == self@[prefix@],
                None => !self@.contains_key(prefix@),
            },
    {
        match self.find(prefix) {
            Some(i) => Some(&self.groups[i]),
            None => None,
        }
    }
}

} // verus!
