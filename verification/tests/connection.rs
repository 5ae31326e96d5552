use tradebot::node::{Incoming, PendingRequests, Reaction, RemoteError};

#[test]
fn requests_are_numbered_from_one_upwards() {
    let mut t: PendingRequests<&str> = PendingRequests::new();
    assert_eq!(t.last_id(), 0);
    assert_eq!(t.begin("a"), 1);
    assert_eq!(t.begin("b"), 2);
    assert_eq!(t.last_id(), 2);
}

#[test]
fn a_response_reaches_its_responder_once() {
    let mut t: PendingRequests<&str> = PendingRequests::new();
    let a = t.begin("a");
    let b = t.begin("b");
    assert_eq!(t.resolve(b), Some("b"));
    assert_eq!(t.resolve(b), None);
    assert_eq!(t.resolve(a), Some("a"));
    assert_eq!(t.resolve(99), None);
}

#[test]
fn messages_get_their_reactions() {
    let mut t: PendingRequests<u8> = PendingRequests::new();
    let id = t.begin(7);
    match t.on_message::<&str, Vec<u32>>(Incoming::Heartbeat) {
        Reaction::TouchHeartbeat => {}
        other => panic!("unexpected {:?}", other),
    }
    match t.on_message::<&str, Vec<u32>>(Incoming::Identify) {
        Reaction::Ignore => {}
        other => panic!("unexpected {:?}", other),
    }
    match t.on_message::<&str, Vec<u32>>(Incoming::Capabilities(vec![1, 2])) {
        Reaction::SetCapabilities(c) => assert_eq!(c, vec![1, 2]),
        other => panic!("unexpected {:?}", other),
    }
    match t.on_message::<&str, Vec<u32>>(Incoming::Response(id, "payload")) {
        Reaction::Deliver(r, p) => {
            assert_eq!(r, 7);
            assert_eq!(p, "payload");
        }
        other => panic!("unexpected {:?}", other),
    }
    match t.on_message::<&str, Vec<u32>>(Incoming::Response(id, "again")) {
        Reaction::Ignore => {}
        other => panic!("unexpected {:?}", other),
    }
}

#[test]
fn a_request_that_could_not_be_sent_is_told_the_mailbox_closed() {
    let mut t: PendingRequests<&str> = PendingRequests::new();
    let id = t.begin("a");
    assert_eq!(t.send_failed(id), Some(("a", RemoteError::MailboxClosed)));
    assert_eq!(t.send_failed(id), None);
    assert_eq!(t.resolve(id), None);
}

#[test]
fn a_response_reaches_its_requester_while_others_wait() {
    let mut t: PendingRequests<&str> = PendingRequests::new();
    let a = t.begin("a");
    let _b = t.begin("b");
    match t.on_message::<u32, ()>(Incoming::Response(a, 11)) {
        Reaction::Deliver(r, p) => {
            assert_eq!(r, "a");
            assert_eq!(p, 11);
        }
        other => panic!("unexpected {:?}", other),
    }
    assert_eq!(t.resolve(2), Some("b"));
}
