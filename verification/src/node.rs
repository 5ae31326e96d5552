//! The request bookkeeping of a connection to one remote node: requests
//! are numbered as they are sent and wait for their response by number.
use vstd::prelude::*;

use std::collections::HashMap;

verus! {

/// Why a remote call failed.
#[derive(Debug, Clone, Copy, PartialEq, Eq, Structural)]
pub enum RemoteError {
    Timeout,
    MailboxClosed,
}

/// The abstract state of a connection: the number given to the last request
/// sent, and the responder of each request still waiting for its response.
pub type PendingView<R> = (u64, Map<u64, R>);

/// Every waiting request carries a number already given out: numbering
/// starts at 1 and goes up to the last number given.
pub open spec fn pending_wf<R>(v: PendingView<R>) -> bool {
    forall|k: u64| #[trigger] v.1.contains_key(k) ==> 1 <= k <= v.0
}

/// The state after sending a request answered through `responder`, and the
/// number it gets: one more than the last.
pub open spec fn begun<R>(v: PendingView<R>, responder: R) -> (PendingView<R>, u64) {
    let id = (v.0 + 1) as u64;
    ((id, v.1.insert(id, responder)), id)
}

/// The state after response `id` arrives, and the responder that takes it
/// (none when no request `id` is waiting).
pub open spec fn resolved<R>(v: PendingView<R>, id: u64) -> (PendingView<R>, Option<R>) {
    if v.1.contains_key(id) {
        ((v.0, v.1.remove(id)), Some(v.1[id]))
    } else {
        (v, None)
    }
}

/// A message from the remote node.
#[derive(Debug)]
pub enum Incoming<P, C> {
    /// The node names itself.
    Identify,
    /// The node is alive.
    Heartbeat,
    /// The response to request `id`.
    Response(u64, P),
    /// The message kinds the node serves.
    Capabilities(C),
}

/// What the connection does about an incoming message.
#[derive(Debug)]
pub enum Reaction<R, P, C> {
    /// Nothing.
    Ignore,
    /// Note the time of the node's last sign of life.
    TouchHeartbeat,
    /// Hand the response to the responder of its request.
    Deliver(R, P),
    /// Replace the known capabilities of the node.
    SetCapabilities(C),
}

/// The reaction to `msg` in state `v`, and the state after it.
pub open spec fn reaction<R, P, C>(v: PendingView<R>, msg: Incoming<P, C>) -> (
    PendingView<R>,
    Reaction<R, P, C>,
) {
    match msg {
        Incoming::Identify => (v, Reaction::Ignore),
        Incoming::Heartbeat => (v, Reaction::TouchHeartbeat),
        Incoming::Response(id, p) => {
            let (w, got) = resolved(v, id);
            match got {
                Some(responder) => (w, Reaction::Deliver(responder, p)),
                None => (w, Reaction::Ignore),
            }
        },
        Incoming::Capabilities(c) => (v, Reaction::SetCapabilities(c)),
    }
}

/// The requests sent over one connection that still wait for a response,
/// each with the responder that takes its response.
pub struct PendingRequests<R> {
    msg_id: u64,
    requests: HashMap<u64, R>,
}

impl<R> View for PendingRequests<R> {
    type V = PendingView<R>;

    closed spec fn view(&self) -> PendingView<R> {
        (self.msg_id, self.requests@)
    }
}

impl<R> PendingRequests<R> {
    /// Every waiting request carries a number from 1 up to the last
    /// number given.
    pub open spec fn wf(&self) -> bool {
        pending_wf(self@)
    }

    /// No request sent yet.
    pub fn new() -> (r: PendingRequests<R>)
        ensures
            r.wf(),
            r@ == (0u64, Map::<u64, R>::empty()),
    {
        PendingRequests { msg_id: 0, requests: HashMap::new() }
    }

    /// The number given to the last request sent.
    pub fn last_id(&self) -> (r: u64)
        ensures
            r == self@.0,
    {
        self.msg_id
    }

    /// Numbers a request about to be sent and files its responder.
    pub fn begin(&mut self, responder: R) -> (id: u64)
        requires
            old(self).wf(),
            old(self)@.0 < u64::MAX,
        ensures
            final(self).wf(),
            (final(self)@, id) == begun(old(self)@, responder),
            !old(self)@.1.contains_key(id),
    {
        self.msg_id = self.msg_id + 1;
        let id: u64 = self.msg_id;
        self.requests.insert(id, responder);
        proof {
            assert(self@.1 == old(self)@.1.insert(id, responder));
        }
        id
    }

    /// Takes the responder of request `id`, which is no longer waiting.
    pub fn resolve(&mut self, id: u64) -> (r: Option<R>)
        requires
            old(self).wf(),
        ensures
            final(self).wf(),
            (final(self)@, r) == resolved(old(self)@, id),
    {
        let r = self.requests.remove(&id);
        proof {
            if old(self)@.1.contains_key(id) {
                assert(self@.1 == old(self)@.1.remove(id));
            } else {
                assert(self@.1 =~= old(self)@.1);
            }
        }
        r
    }

    /// Withdraws request `id`, whose message could not be sent: its
    /// responder, if it still waits, is to be told that the mailbox closed.
    pub fn send_failed(&mut self, id: u64) -> (r: Option<(R, RemoteError)>)
        requires
            old(self).wf(),
        ensures
            final(self).wf(),
            final(self)@ == resolved(old(self)@, id).0,
            r == match resolved(old(self)@, id).1 {
                Some(responder) => Some((responder, RemoteError::MailboxClosed)),
                None => None,
            },
    {
        match self.resolve(id) {
            Some(responder) => Some((responder, RemoteError::MailboxClosed)),
            None => None,
        }
    }

    /// Reacts to a message from the node.
    pub fn on_message<P, C>(&mut self, msg: Incoming<P, C>) -> (r: Reaction<R, P, C>)
        requires
            old(self).wf(),
        ensures
            final(self).wf(),
            (final(self)@, r) == reaction(old(self)@, msg),
    {
        match msg {
            Incoming::Identify => Reaction::Ignore,
            Incoming::Heartbeat => Reaction::TouchHeartbeat,
            Incoming::Response(id, p) => match self.resolve(id) {
                Some(responder) => Reaction::Deliver(responder, p),
                None => Reaction::Ignore,
            },
            Incoming::Capabilities(c) => Reaction::SetCapabilities(c),
        }
    }
}

/// Request numbers only grow: each request sent gets a number above every
/// number given before, so no number is given twice.
pub proof fn law_numbers_increase<R>(v: PendingView<R>, responder: R)
    requires
        pending_wf(v),
        v.0 < u64::MAX,
    ensures
        begun(v, responder).1 > v.0,
        begun(v, responder).0.0 == begun(v, responder).1,
        !v.1.contains_key(begun(v, responder).1),
        pending_wf(begun(v, responder).0),
{
}

/// A request is answered once: the response to a request just sent reaches
/// its responder, and a second response with the same number reaches no one
/// and changes nothing.
pub proof fn law_answered_once<R>(v: PendingView<R>, responder: R)
    requires
        pending_wf(v),
        v.0 < u64::MAX,
    ensures
        ({
            let (w, id) = begun(v, responder);
            let (x, first) = resolved(w, id);
            let (y, second) = resolved(x, id);
            &&& first == Some(responder)
            &&& second.is_none()
            &&& y == x
            &&& x.1 =~= v.1
        }),
{
    let (w, id) = begun(v, responder);
    assert(w.1.remove(id) =~= v.1);
}

/// A response to one request leaves every other waiting request as it was.
pub proof fn law_other_requests_untouched<R>(v: PendingView<R>, id: u64, other: u64)
    requires
        pending_wf(v),
        other != id,
    ensures
        resolved(v, id).0.1.contains_key(other) == v.1.contains_key(other),
        v.1.contains_key(other) ==> resolved(v, id).0.1[other] == v.1[other],
        resolved(v, id).0.0 == v.0,
{
}

/// A response takes away only its own request: the waiting requests after
/// it are those before it less number `id`, the numbering is untouched, and
/// a response whose number no request waits for changes nothing and is
/// ignored.
pub proof fn law_response_removes_only_its_request<R, P, C>(v: PendingView<R>, id: u64, p: P)
    ensures
        reaction(v, Incoming::<P, C>::Response(id, p)).0 == (v.0, v.1.remove(id)),
        !v.1.contains_key(id) ==> reaction(v, Incoming::<P, C>::Response(id, p)) == (
            v,
            Reaction::<R, P, C>::Ignore,
        ),
        v.1.contains_key(id) ==> reaction(v, Incoming::<P, C>::Response(id, p)).1
            == Reaction::<R, P, C>::Deliver(v.1[id], p),
{
    if !v.1.contains_key(id) {
        assert(v.1.remove(id) =~= v.1);
    }
}

/// A response reaches its own requester: a request waiting under number
/// `id` with responder `r` stays so while other requests are sent, and the
/// response numbered `id` is handed to `r`, leaving every other waiting
/// request as it was.
pub proof fn law_response_reaches_requester<R, P, C>(
    v: PendingView<R>,
    id: u64,
    r: R,
    other: R,
    payload: P,
)
    requires
        pending_wf(v),
        v.0 < u64::MAX,
        v.1.contains_key(id),
        v.1[id] == r,
    ensures
        ({
            let (w, new_id) = begun(v, other);
            &&& new_id != id
            &&& w.1.contains_key(id) && w.1[id] == r
        }),
        ({
            let (x, reply) = reaction(v, Incoming::<P, C>::Response(id, payload));
            &&& reply == Reaction::<R, P, C>::Deliver(r, payload)
            &&& x.0 == v.0
            &&& x.1 == v.1.remove(id)
        }),
{
}

} // verus!
