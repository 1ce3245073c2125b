use signal_relay::broadcast::Broadcaster;
use signal_relay::messages::{
    ClientId, IncomingMessage, OutgoingMessage, Payload, RejectionReason,
};

fn cid(value: u128) -> ClientId {
    ClientId { value }
}

fn ping_to(recipient: ClientId) -> IncomingMessage {
    IncomingMessage { recipient: Some(recipient), payload: Payload::CameraPing }
}

#[test]
fn lookup_follows_register_and_unregister() {
    let mut b = Broadcaster::create();
    let a = cid(1);
    let c = cid(2);
    assert!(!b.lookup(a));
    b.new_client(a);
    assert!(b.lookup(a));
    b.new_client(c);
    assert!(b.lookup(a));
    assert!(b.lookup(c));
    b.unregister(a);
    assert!(!b.lookup(a));
    assert!(b.lookup(c));
    b.unregister(a);
    assert!(!b.lookup(a));
}

#[test]
fn welcome_is_first_and_only_message() {
    let mut b = Broadcaster::create();
    let a = cid(7);
    b.new_client(a);
    let first = b.next_message(a);
    assert_eq!(
        first,
        Some(OutgoingMessage { sender: cid(0), payload: Payload::Welcome })
    );
    assert_eq!(b.next_message(a), None);
}

#[test]
fn broadcast_reaches_everyone_but_the_sender() {
    let mut b = Broadcaster::create();
    let a = cid(1);
    let c = cid(2);
    b.new_client(a);
    b.new_client(c);
    assert!(b.next_message(a).is_some());
    assert!(b.next_message(c).is_some());
    let r = b.submit(a, IncomingMessage { recipient: None, payload: Payload::NewCamera });
    assert_eq!(r, Ok(()));
    assert_eq!(
        b.next_message(c),
        Some(OutgoingMessage { sender: a, payload: Payload::NewCamera })
    );
    assert_eq!(b.next_message(c), None);
    assert_eq!(b.next_message(a), None);
}

#[test]
fn camera_discovery_broadcasts_like_new_camera() {
    let mut b = Broadcaster::create();
    let a = cid(1);
    let c = cid(2);
    b.new_client(a);
    b.new_client(c);
    b.next_message(a);
    b.next_message(c);
    let r = b.submit(
        a,
        IncomingMessage { recipient: None, payload: Payload::CameraDiscovery },
    );
    assert_eq!(r, Ok(()));
    assert_eq!(
        b.next_message(c),
        Some(OutgoingMessage { sender: a, payload: Payload::CameraDiscovery })
    );
    assert_eq!(b.next_message(a), None);
}

#[test]
fn directed_message_reaches_only_its_recipient() {
    let mut b = Broadcaster::create();
    let a = cid(1);
    let c = cid(2);
    let d = cid(3);
    b.new_client(a);
    b.new_client(c);
    b.new_client(d);
    b.next_message(a);
    b.next_message(c);
    b.next_message(d);
    let r = b.submit(a, ping_to(c));
    assert_eq!(r, Ok(()));
    assert_eq!(
        b.next_message(c),
        Some(OutgoingMessage { sender: a, payload: Payload::CameraPing })
    );
    assert_eq!(b.next_message(d), None);
    assert_eq!(b.next_message(a), None);
}

#[test]
fn self_addressed_directed_message_is_rejected() {
    let mut b = Broadcaster::create();
    let a = cid(1);
    let c = cid(2);
    b.new_client(a);
    b.new_client(c);
    b.next_message(a);
    b.next_message(c);
    let r = b.submit(a, ping_to(a));
    assert_eq!(r, Err(RejectionReason::SelfAddressed));
    assert_eq!(b.next_message(a), None);
    assert_eq!(b.next_message(c), None);
}

#[test]
fn announcements_with_a_recipient_are_rejected() {
    let mut b = Broadcaster::create();
    let a = cid(1);
    let c = cid(2);
    b.new_client(a);
    b.new_client(c);
    b.next_message(a);
    b.next_message(c);
    let r = b.submit(
        a,
        IncomingMessage { recipient: Some(c), payload: Payload::NewCamera },
    );
    assert_eq!(r, Err(RejectionReason::MalformedBroadcast));
    let r = b.submit(
        a,
        IncomingMessage { recipient: Some(c), payload: Payload::CameraDiscovery },
    );
    assert_eq!(r, Err(RejectionReason::MalformedBroadcast));
    assert_eq!(b.next_message(c), None);
}

#[test]
fn directed_payloads_without_a_recipient_are_rejected() {
    let mut b = Broadcaster::create();
    let a = cid(1);
    b.new_client(a);
    b.next_message(a);
    for payload in [
        Payload::CameraPing,
        Payload::CallInit,
        Payload::SDP { description: String::from("offer") },
        Payload::ICE { i: 0, candidate: String::from("host") },
    ] {
        let r = b.submit(a, IncomingMessage { recipient: None, payload });
        assert_eq!(r, Err(RejectionReason::MalformedDirected));
    }
    assert_eq!(b.next_message(a), None);
}

#[test]
fn client_welcome_submission_is_accepted_but_never_delivered() {
    let mut b = Broadcaster::create();
    let a = cid(1);
    let c = cid(2);
    b.new_client(a);
    b.new_client(c);
    b.next_message(a);
    b.next_message(c);
    let r = b.submit(a, IncomingMessage { recipient: None, payload: Payload::Welcome });
    assert_eq!(r, Ok(()));
    let r = b.submit(a, IncomingMessage { recipient: Some(c), payload: Payload::Welcome });
    assert_eq!(r, Ok(()));
    assert_eq!(b.next_message(c), None);
}

#[test]
fn probe_failure_evicts_and_later_sends_are_dropped_without_error() {
    let mut b = Broadcaster::create();
    let a = cid(1);
    let c = cid(2);
    b.new_client(a);
    b.new_client(c);
    // Fill a's queue to the bound: the greeting plus nine pings.
    for _ in 0..9 {
        assert_eq!(b.submit(c, ping_to(a)), Ok(()));
    }
    b.remove_stale_clients();
    assert!(!b.lookup(a));
    assert!(b.lookup(c));
    // The drop is silent: the sender still gets an acknowledgment.
    assert_eq!(b.submit(c, ping_to(a)), Ok(()));
    assert_eq!(b.next_message(a), None);
}

#[test]
fn probes_never_reach_the_stream() {
    let mut b = Broadcaster::create();
    let a = cid(1);
    b.new_client(a);
    assert!(b.next_message(a).is_some());
    b.remove_stale_clients();
    b.remove_stale_clients();
    assert!(b.lookup(a));
    assert_eq!(b.next_message(a), None);
}

#[test]
fn same_queue_messages_arrive_in_submission_order() {
    let mut b = Broadcaster::create();
    let a = cid(1);
    let c = cid(2);
    b.new_client(a);
    b.new_client(c);
    b.next_message(a);
    let first = IncomingMessage {
        recipient: Some(a),
        payload: Payload::SDP { description: String::from("offer") },
    };
    let second = IncomingMessage {
        recipient: Some(a),
        payload: Payload::ICE { i: 1, candidate: String::from("candidate-1") },
    };
    assert_eq!(b.submit(c, first), Ok(()));
    assert_eq!(b.submit(c, second), Ok(()));
    assert_eq!(
        b.next_message(a),
        Some(OutgoingMessage {
            sender: c,
            payload: Payload::SDP { description: String::from("offer") },
        })
    );
    assert_eq!(
        b.next_message(a),
        Some(OutgoingMessage {
            sender: c,
            payload: Payload::ICE { i: 1, candidate: String::from("candidate-1") },
        })
    );
    assert_eq!(b.next_message(a), None);
}

#[test]
fn a_full_queue_drops_the_overflow_silently() {
    let mut b = Broadcaster::create();
    let a = cid(1);
    let c = cid(2);
    b.new_client(a);
    b.new_client(c);
    // The greeting plus nine pings fill the queue; the tenth ping overflows.
    for _ in 0..10 {
        assert_eq!(b.submit(c, ping_to(a)), Ok(()));
    }
    let mut observed: usize = 0;
    while b.next_message(a).is_some() {
        observed += 1;
    }
    assert_eq!(observed, 10);
}

#[test]
fn call_init_is_delivered_directed() {
    let mut b = Broadcaster::create();
    let a = cid(1);
    let c = cid(2);
    b.new_client(a);
    b.new_client(c);
    b.next_message(a);
    b.next_message(c);
    let r = b.submit(
        a,
        IncomingMessage { recipient: Some(c), payload: Payload::CallInit },
    );
    assert_eq!(r, Ok(()));
    assert_eq!(
        b.next_message(c),
        Some(OutgoingMessage { sender: a, payload: Payload::CallInit })
    );
}

#[test]
fn directed_message_to_an_absent_recipient_is_dropped() {
    let mut b = Broadcaster::create();
    let a = cid(1);
    b.new_client(a);
    b.next_message(a);
    let r = b.submit(a, ping_to(cid(99)));
    assert_eq!(r, Ok(()));
    assert_eq!(b.next_message(a), None);
}

#[test]
fn reconnection_gets_a_fresh_greeting_and_no_stale_messages() {
    let mut b = Broadcaster::create();
    let a = cid(1);
    let c = cid(2);
    b.new_client(a);
    b.new_client(c);
    b.next_message(a);
    // A message queued for a before it disconnects must not survive.
    assert_eq!(b.submit(c, ping_to(a)), Ok(()));
    b.unregister(a);
    assert_eq!(b.next_message(a), None);
    b.new_client(a);
    assert_eq!(
        b.next_message(a),
        Some(OutgoingMessage { sender: cid(0), payload: Payload::Welcome })
    );
    assert_eq!(b.next_message(a), None);
}

#[test]
fn re_registration_replaces_the_old_queue() {
    let mut b = Broadcaster::create();
    let a = cid(1);
    let c = cid(2);
    b.new_client(a);
    b.new_client(c);
    b.next_message(a);
    assert_eq!(b.submit(c, ping_to(a)), Ok(()));
    // Reconnect without an explicit disconnect: the entry is replaced.
    b.new_client(a);
    assert!(b.lookup(a));
    assert_eq!(
        b.next_message(a),
        Some(OutgoingMessage { sender: cid(0), payload: Payload::Welcome })
    );
    assert_eq!(b.next_message(a), None);
}

#[test]
fn unknown_clients_produce_no_messages() {
    let mut b = Broadcaster::create();
    assert_eq!(b.next_message(cid(5)), None);
    assert!(!b.lookup(cid(5)));
}
