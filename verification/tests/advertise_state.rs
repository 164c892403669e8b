//! State-machine tests of the advertise behaviour.

use owlnest::advertise::{Action, Behaviour, FromBehaviour, InEvent, OutEvent, ToBehaviour};
use owlnest::advertise::Error;
use owlnest::peer::PeerId;

fn pid(n: u8) -> PeerId {
    PeerId::new(vec![n])
}

#[test]
fn provider_state_round_trip() {
    let mut b = Behaviour::new();
    assert!(!b.get_provider_status());
    b.set_provider_status(true);
    assert!(b.get_provider_status());
    b.set_provider_status(false);
    assert!(!b.get_provider_status());
}

#[test]
fn is_advertising_matches_set() {
    let mut b = Behaviour::new();
    let p = pid(1);
    assert!(!b.is_advertising(&p));
    b.on_connection_handler_event(p.clone(), ToBehaviour::IncomingAdvertiseReq(true));
    assert!(b.is_advertising(&p));
    assert!(!b.is_advertising(&pid(2)));
    let removed = b.remove_advertised(&p);
    assert!(removed);
    assert!(!b.is_advertising(&p));
    let removed_again = b.remove_advertised(&p);
    assert!(!removed_again);
}

#[test]
fn remote_advertisement_idempotent() {
    let mut b = Behaviour::new();
    let p = pid(7);
    b.on_connection_handler_event(p.clone(), ToBehaviour::IncomingAdvertiseReq(true));
    b.on_connection_handler_event(p.clone(), ToBehaviour::IncomingAdvertiseReq(true));
    assert!(b.is_advertising(&p));
    assert_eq!(b.advertised_peers().len(), 1);
    b.on_connection_handler_event(p.clone(), ToBehaviour::IncomingAdvertiseReq(false));
    assert!(!b.is_advertising(&p));
    assert_eq!(b.advertised_peers().len(), 0);
    b.on_connection_handler_event(p.clone(), ToBehaviour::IncomingAdvertiseReq(false));
    assert!(!b.is_advertising(&p));
    assert_eq!(b.advertised_peers().len(), 0);
}

#[test]
fn connection_closed_evicts_peer() {
    let mut b = Behaviour::new();
    let p = pid(3);
    b.on_connection_established(&p);
    b.on_connection_handler_event(p.clone(), ToBehaviour::IncomingAdvertiseReq(true));
    assert!(b.is_advertising(&p));
    b.on_connection_closed(&p, 1);
    assert!(b.is_advertising(&p));
    b.on_connection_closed(&p, 0);
    assert!(!b.is_advertising(&p));
    let connected = match b.handle_in_event(InEvent::ListConnected) {
        Some(Action::GenerateEvent(OutEvent::Connected(l))) => l,
        _ => panic!("expected a connected snapshot"),
    };
    assert_eq!(connected.len(), 0);
}

#[test]
fn query_unconnected_peer_fails_locally() {
    let mut b = Behaviour::new();
    let relay = pid(9);
    let r = b.handle_in_event(InEvent::QueryAdvertisedPeer(relay.clone()));
    assert!(r.is_none());
    match b.poll() {
        Some(Action::GenerateEvent(OutEvent::Error(Error::NotProviding(p)))) => {
            assert!(p == relay);
        },
        _ => panic!("expected the local error"),
    }
    assert!(b.poll().is_none());
}

#[test]
fn query_connected_peer_reaches_handler() {
    let mut b = Behaviour::new();
    let relay = pid(4);
    b.on_connection_established(&relay);
    match b.handle_in_event(InEvent::QueryAdvertisedPeer(relay.clone())) {
        Some(Action::NotifyHandler { peer, event }) => {
            assert!(peer == relay);
            assert!(matches!(event, FromBehaviour::QueryAdvertisedPeer));
        },
        _ => panic!("expected a handler command"),
    }
}

#[test]
fn advertise_provider_toggle() {
    // Two nodes: a provides, b is advertised on it and queries it.
    let mut a = Behaviour::new();
    let b_id = pid(2);
    a.on_connection_established(&b_id);
    a.set_provider_status(true);
    a.on_connection_handler_event(b_id.clone(), ToBehaviour::IncomingAdvertiseReq(true));
    // b queries: the answer names b.
    a.new_pending_query(&b_id);
    match a.poll() {
        Some(Action::NotifyHandler { peer, event }) => {
            assert!(peer == b_id);
            match event {
                FromBehaviour::AnswerAdvertisedPeer(Some(list)) => {
                    assert!(list.iter().any(|p| *p == b_id));
                },
                _ => panic!("expected a full answer"),
            }
        },
        _ => panic!("expected an answer"),
    }
    // The provider stops: the answer is absent.
    a.set_provider_status(false);
    a.new_pending_query(&b_id);
    match a.poll() {
        Some(Action::NotifyHandler { event, .. }) => {
            assert!(matches!(event, FromBehaviour::AnswerAdvertisedPeer(None)));
        },
        _ => panic!("expected an answer"),
    }
    // b retracts its advertisement, the provider returns: the answer is
    // an empty list, since the advertisement was not re-sent.
    a.on_connection_handler_event(b_id.clone(), ToBehaviour::IncomingAdvertiseReq(false));
    a.set_provider_status(true);
    a.new_pending_query(&b_id);
    match a.poll() {
        Some(Action::NotifyHandler { event, .. }) => match event {
            FromBehaviour::AnswerAdvertisedPeer(Some(list)) => {
                assert_eq!(list.len(), 0);
            },
            _ => panic!("expected a full, empty answer"),
        },
        _ => panic!("expected an answer"),
    }
}

#[test]
fn unsupported_peer_is_surfaced() {
    // The handler's one-shot report reaches the advertise application
    // layer, so a query to such a peer can never end successfully.
    let mut b = Behaviour::new();
    let p = pid(6);
    b.on_connection_handler_event(p.clone(), ToBehaviour::Unsupported);
    match b.poll() {
        Some(Action::GenerateEvent(OutEvent::Unsupported(q))) => assert!(q == p),
        _ => panic!("expected the unsupported notice"),
    }
    assert!(b.poll().is_none());
}
