use ws_relay::reader::{step, Action, CloseReason, Frame, Payload, ReadEvent, ReaderState};
use ws_relay::registry::Registry;
use ws_relay::relay::{accept_client, dispatch, Admission, Dispatch, Handshake};

fn sorted(mut v: Vec<u64>) -> Vec<u64> {
    v.sort();
    v
}

fn text(s: &str) -> ReadEvent {
    ReadEvent::Frame(Frame::Text(s.to_string()))
}

fn targets_of(d: Dispatch<&'static str>) -> (Payload, Vec<u64>) {
    match d {
        Dispatch::Deliver { payload, targets } => (payload, sorted(targets)),
        other => panic!("expected a delivery, got {:?}", other),
    }
}

#[test]
fn new_registry_is_empty() {
    let r: Registry<u8> = Registry::new();
    assert!(r.snapshot().is_empty());
    assert!(!r.contains(0));
    assert_eq!(r.get(0), None);
}

#[test]
fn insert_hands_out_increasing_identities() {
    let mut r = Registry::new();
    assert_eq!(r.insert("a"), 0);
    assert_eq!(r.insert("b"), 1);
    assert_eq!(r.insert("c"), 2);
    assert_eq!(sorted(r.snapshot()), vec![0, 1, 2]);
    assert_eq!(r.get(1), Some(&"b"));
    assert!(r.contains(2));
}

#[test]
fn identities_are_not_reused_after_removal() {
    let mut r = Registry::new();
    let a = r.insert("a");
    assert_eq!(r.remove(a), Some("a"));
    let b = r.insert("b");
    assert_ne!(a, b);
    assert_eq!(b, 1);
    assert!(!r.contains(a));
    assert_eq!(r.snapshot(), vec![1]);
}

#[test]
fn remove_releases_the_handle() {
    let mut r = Registry::new();
    r.insert("a");
    let b = r.insert("b");
    r.insert("c");
    assert_eq!(r.remove(b), Some("b"));
    assert_eq!(sorted(r.snapshot()), vec![0, 2]);
    assert_eq!(r.get(0), Some(&"a"));
    assert_eq!(r.get(2), Some(&"c"));
}

#[test]
fn removing_twice_equals_removing_once() {
    let mut r = Registry::new();
    let a = r.insert("a");
    r.insert("b");
    assert_eq!(r.remove(a), Some("a"));
    let once = sorted(r.snapshot());
    assert_eq!(r.remove(a), None);
    assert_eq!(sorted(r.snapshot()), once);
    assert_eq!(once, vec![1]);
}

#[test]
fn removing_a_never_registered_identity_is_a_no_op() {
    let mut r = Registry::new();
    r.insert("a");
    assert_eq!(r.remove(7), None);
    assert_eq!(r.snapshot(), vec![0]);
}

#[test]
fn broadcast_targets_exclude_the_sender() {
    let mut r = Registry::new();
    for name in ["a", "b", "c", "d"] {
        r.insert(name);
    }
    assert_eq!(sorted(r.broadcast_targets(2)), vec![0, 1, 3]);
    assert_eq!(sorted(r.broadcast_targets(9)), vec![0, 1, 2, 3]);
}

#[test]
fn text_and_binary_frames_carry_their_payload() {
    assert_eq!(Frame::Text("hi".to_string()).into_payload(), Some(Payload::Text("hi".to_string())));
    assert_eq!(Frame::Binary(vec![1, 2, 3]).into_payload(), Some(Payload::Binary(vec![1, 2, 3])));
    assert_eq!(Frame::Other.into_payload(), None);
    assert_eq!(Frame::Close(None).into_payload(), None);
}

#[test]
fn reader_transitions() {
    assert_eq!(step(ReaderState::Open, text("x")), (ReaderState::Open, Action::Broadcast(Payload::Text("x".to_string()))));
    assert_eq!(
        step(ReaderState::Open, ReadEvent::Frame(Frame::Binary(vec![0, 255]))),
        (ReaderState::Open, Action::Broadcast(Payload::Binary(vec![0, 255])))
    );
    assert_eq!(step(ReaderState::Open, ReadEvent::Frame(Frame::Other)), (ReaderState::Open, Action::Ignore));
    let close = Frame::Close(Some(CloseReason { code: 1000, reason: "bye".to_string() }));
    assert_eq!(step(ReaderState::Open, ReadEvent::Frame(close)), (ReaderState::Terminated, Action::Teardown));
    assert_eq!(step(ReaderState::Open, ReadEvent::Frame(Frame::Close(None))), (ReaderState::Terminated, Action::Teardown));
    assert_eq!(step(ReaderState::Open, ReadEvent::Error), (ReaderState::Terminated, Action::Teardown));
    assert_eq!(step(ReaderState::Open, ReadEvent::End), (ReaderState::Terminated, Action::Teardown));
}

#[test]
fn terminated_reader_never_resumes() {
    assert_eq!(step(ReaderState::Terminated, text("x")), (ReaderState::Terminated, Action::Ignore));
    assert_eq!(step(ReaderState::Terminated, ReadEvent::End), (ReaderState::Terminated, Action::Ignore));
    let mut r = Registry::new();
    let a = r.insert("a");
    let (s, d) = dispatch(&mut r, a, ReaderState::Terminated, ReadEvent::Error);
    assert_eq!(s, ReaderState::Terminated);
    assert_eq!(d, Dispatch::Idle);
    assert!(r.contains(a));
}

#[test]
fn fan_out_reaches_every_other_client() {
    let mut r = Registry::new();
    let ids: Vec<u64> = ["a", "b", "c", "d", "e"].into_iter().map(|n| r.insert(n)).collect();
    for &from in &ids {
        let (s, d) = dispatch(&mut r, from, ReaderState::Open, ReadEvent::Frame(Frame::Binary(vec![7])));
        assert_eq!(s, ReaderState::Open);
        let (payload, targets) = targets_of(d);
        assert_eq!(payload, Payload::Binary(vec![7]));
        let expected: Vec<u64> = ids.iter().copied().filter(|&i| i != from).collect();
        assert_eq!(targets, expected);
    }
    assert_eq!(sorted(r.snapshot()), ids);
}

#[test]
fn fan_out_with_two_clients() {
    let mut r = Registry::new();
    let a = r.insert("a");
    let b = r.insert("b");
    let (_, d) = dispatch(&mut r, a, ReaderState::Open, text("x"));
    assert_eq!(targets_of(d), (Payload::Text("x".to_string()), vec![b]));
}

#[test]
fn closed_client_is_isolated() {
    let mut r = Registry::new();
    let a = r.insert("a");
    let b = r.insert("b");
    let c = r.insert("c");
    let (s, d) = dispatch(&mut r, b, ReaderState::Open, ReadEvent::Error);
    assert_eq!(s, ReaderState::Terminated);
    assert_eq!(d, Dispatch::Released(Some("b")));
    assert!(!r.contains(b));
    let (_, d) = dispatch(&mut r, a, ReaderState::Open, text("after"));
    assert_eq!(targets_of(d).1, vec![c]);
    let (_, d) = dispatch(&mut r, c, ReaderState::Open, text("after"));
    assert_eq!(targets_of(d).1, vec![a]);
    let d2 = r.insert("d");
    assert_ne!(d2, b);
}

#[test]
fn teardown_of_unregistered_client_is_safe() {
    let mut r: Registry<&'static str> = Registry::new();
    r.insert("a");
    let (s, d) = dispatch(&mut r, 42, ReaderState::Open, ReadEvent::End);
    assert_eq!(s, ReaderState::Terminated);
    assert_eq!(d, Dispatch::Released(None));
    assert_eq!(r.snapshot(), vec![0]);
}

#[test]
fn control_frames_are_not_broadcast() {
    let mut r = Registry::new();
    let a = r.insert("a");
    r.insert("b");
    let (s, d) = dispatch(&mut r, a, ReaderState::Open, ReadEvent::Frame(Frame::Other));
    assert_eq!(s, ReaderState::Open);
    assert_eq!(d, Dispatch::Idle);
    assert_eq!(sorted(r.snapshot()), vec![0, 1]);
}

#[test]
fn interleaved_membership_changes_keep_identities_unique() {
    let mut r = Registry::new();
    let mut live: Vec<u64> = Vec::new();
    let mut issued: Vec<u64> = Vec::new();
    for round in 0..20u64 {
        let id = r.insert(round);
        assert!(!issued.contains(&id));
        issued.push(id);
        live.push(id);
        if round % 3 == 2 {
            let gone = live.remove(0);
            assert_eq!(r.remove(gone), Some(gone));
            assert_eq!(r.remove(gone), None);
        }
        let from = live[live.len() - 1];
        let targets = sorted(r.broadcast_targets(from));
        let expected: Vec<u64> = live.iter().copied().filter(|&i| i != from).collect();
        assert_eq!(targets, expected);
    }
    assert_eq!(sorted(r.snapshot()), live);
}

#[test]
fn three_clients_hello_then_ping() {
    let mut r = Registry::new();
    let a = r.insert("A");
    let b = r.insert("B");
    let c = r.insert("C");
    let (_, d) = dispatch(&mut r, a, ReaderState::Open, text("hello"));
    let (payload, targets) = targets_of(d);
    assert_eq!(payload, Payload::Text("hello".to_string()));
    assert_eq!(targets, vec![b, c]);
    let (s, d) = dispatch(&mut r, a, ReaderState::Open, ReadEvent::Frame(Frame::Close(None)));
    assert_eq!(s, ReaderState::Terminated);
    assert_eq!(d, Dispatch::Released(Some("A")));
    let (_, d) = dispatch(&mut r, b, ReaderState::Open, text("ping"));
    let (payload, targets) = targets_of(d);
    assert_eq!(payload, Payload::Text("ping".to_string()));
    assert_eq!(targets, vec![c]);
}

#[test]
fn failed_handshake_is_rejected_and_next_is_accepted() {
    let mut r = Registry::new();
    assert_eq!(accept_client(&mut r, Handshake::Refused), Admission::Rejected);
    assert!(r.snapshot().is_empty());
    assert_eq!(accept_client(&mut r, Handshake::Upgraded("next")), Admission::Registered(0));
    assert_eq!(accept_client(&mut r, Handshake::Refused), Admission::Rejected);
    assert_eq!(accept_client(&mut r, Handshake::Upgraded("after")), Admission::Registered(1));
    assert_eq!(sorted(r.snapshot()), vec![0, 1]);
    assert_eq!(r.get(1), Some(&"after"));
}

#[test]
fn fresh_registry_has_capacity() {
    let mut r = Registry::new();
    assert!(r.has_capacity());
    r.insert(1u8);
    assert!(r.has_capacity());
}
