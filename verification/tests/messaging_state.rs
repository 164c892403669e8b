//! State-machine tests of the messaging behaviour and the handler.

use owlnest::handler::{Handler, OutboundState, PollResult, State, ToBehaviour as HandlerEvent};
use owlnest::messaging::{Action, Behaviour, Error, InEvent, Message, OutEvent, Packet, ToBehaviour};
use owlnest::peer::PeerId;
use owlnest::swarm;

fn pid(n: u8) -> PeerId {
    PeerId::new(vec![n])
}

#[test]
fn send_to_unconnected_peer_fails() {
    let mut b = Behaviour::new();
    let to = pid(5);
    let msg = Message::new(pid(1), to.clone(), 0, b"hello".to_vec());
    let r = b.handle_in_event(InEvent::SendMessage(to.clone(), msg, 1));
    assert!(r.is_none());
    match b.poll() {
        Some(Action::GenerateEvent(OutEvent::Error(Error::PeerNotFound(p)))) => {
            assert!(p == to);
        },
        _ => panic!("expected the local error"),
    }
}

#[test]
fn send_to_connected_peer_becomes_packet() {
    let mut b = Behaviour::new();
    let to = pid(5);
    b.on_connection_established(&to);
    let msg = Message::new(pid(1), to.clone(), 7, b"hello".to_vec());
    match b.handle_in_event(InEvent::SendMessage(to.clone(), msg, 1)) {
        Some(Action::SendPacket { peer, packet }) => {
            assert!(peer == to);
            let Packet::Msg(m) = packet;
            assert_eq!(m.body, b"hello".to_vec());
        },
        _ => panic!("expected a packet"),
    }
}

#[test]
fn test_sigle_send_recv() {
    // One message from a to b, carried through the real codec, must
    // arrive exactly once with the same sender, recipient and body.
    let a_id = pid(1);
    let b_id = pid(2);
    let mut a = Behaviour::new();
    let mut b = Behaviour::new();
    a.on_connection_established(&b_id);
    b.on_connection_established(&a_id);
    let body = "Test MESSAGE \u{6d4b}\u{8bd5}\u{4fe1}\u{606f}\u{3002}".as_bytes().to_vec();
    let msg = Message::new(a_id.clone(), b_id.clone(), 42, body.clone());
    let packet = match a.handle_in_event(InEvent::SendMessage(b_id.clone(), msg, 1)) {
        Some(Action::SendPacket { packet, .. }) => packet,
        _ => panic!("expected a packet"),
    };
    let wire = packet.as_bytes();
    let received = Packet::from_bytes(&wire).expect("the packet decodes");
    let Packet::Msg(m) = received;
    b.on_connection_handler_event(a_id.clone(), ToBehaviour::IncomingMessage(m));
    match b.poll() {
        Some(Action::GenerateEvent(OutEvent::IncomingMessage { from, msg })) => {
            assert!(from == a_id);
            assert!(msg.from == a_id);
            assert!(msg.to == b_id);
            assert_eq!(msg.body, body);
        },
        _ => panic!("expected the incoming message"),
    }
    assert!(b.poll().is_none());
}

#[test]
fn handler_walks_the_outbound_states() {
    let mut h = Handler::new(20000);
    assert_eq!(h.outbound, OutboundState::NoStream);
    assert!(matches!(h.poll(), PollResult::RequestOutboundStream));
    assert_eq!(h.outbound, OutboundState::OpenStream);
    h.on_fully_negotiated_outbound();
    assert_eq!(h.outbound, OutboundState::Idle);
    h.on_behaviour_event(vec![1, 2, 3]);
    match h.poll() {
        PollResult::StartSend(frame) => assert_eq!(frame, vec![1, 2, 3]),
        _ => panic!("expected a send"),
    }
    assert_eq!(h.outbound, OutboundState::Busy);
    h.on_send_success();
    assert_eq!(h.outbound, OutboundState::Idle);
    // With nothing to send, queued events drain.
    match h.poll() {
        PollResult::NotifyBehaviour(HandlerEvent::OutboundNegotiated) => {},
        _ => panic!("expected the negotiation notice"),
    }
    assert!(matches!(h.poll(), PollResult::Idle));
}

#[test]
fn handler_timeout_drops_the_stream() {
    let mut h = Handler::new(20000);
    let _ = h.poll();
    h.on_fully_negotiated_outbound();
    h.on_behaviour_event(vec![9]);
    let _ = h.poll();
    assert_eq!(h.outbound, OutboundState::Busy);
    h.on_send_timeout();
    assert_eq!(h.outbound, OutboundState::NoStream);
    // The next poll requests a fresh substream.
    assert!(matches!(h.poll(), PollResult::RequestOutboundStream));
}

#[test]
fn handler_reports_unsupported_once() {
    let mut h = Handler::new(20000);
    h.on_dial_upgrade_error(true);
    assert_eq!(h.state, State::Inactive { reported: false });
    assert!(!h.connection_keep_alive());
    match h.poll() {
        PollResult::NotifyBehaviour(HandlerEvent::Unsupported) => {},
        _ => panic!("expected the one report"),
    }
    assert!(matches!(h.poll(), PollResult::Idle));
    assert!(matches!(h.poll(), PollResult::Idle));
}

#[test]
fn swarm_defaults_and_backpressure() {
    let config = swarm::SwarmConfig::default();
    assert_eq!(config.swarm.swarm_event_buffer_size, 16);
    assert_eq!(config.swarm.swarm_event_timeout, 200);
    assert_eq!(config.blob.chunk_size, 16384);
    assert_eq!(swarm::event_buffer_upper_bound(16), 16);
    assert_eq!(swarm::event_buffer_upper_bound(18), 16);
    assert_eq!(swarm::event_buffer_upper_bound(3), 0);
    assert!(swarm::should_poll_swarm(15, 16));
    assert!(!swarm::should_poll_swarm(16, 16));
    assert!(!swarm::slow_receiver_warning(8, 16));
    assert!(swarm::slow_receiver_warning(9, 16));
}

#[test]
fn setup_peer_starts_fresh() {
    let node = owlnest::setup_peer();
    assert!(!node.advertise.is_providing);
    assert_eq!(node.blob.next_send_id, 0);
    assert_eq!(node.blob.list_pending_send().len(), 0);
    assert_eq!(node.messaging.connected_peers.items.len(), 0);
}

#[test]
fn handler_events_surface_in_order() {
    let mut b = Behaviour::new();
    let p = pid(3);
    b.on_connection_handler_event(p.clone(), ToBehaviour::OutboundNegotiated);
    b.on_connection_handler_event(p.clone(), ToBehaviour::SuccessfulSend(41));
    b.on_connection_handler_event(p.clone(), ToBehaviour::Unsupported);
    match b.poll() {
        Some(Action::GenerateEvent(OutEvent::OutboundNegotiated(q))) => assert!(q == p),
        _ => panic!("expected the negotiation notice first"),
    }
    match b.poll() {
        Some(Action::GenerateEvent(OutEvent::SuccessfulSend(id))) => assert_eq!(id, 41),
        _ => panic!("expected the send result next"),
    }
    match b.poll() {
        Some(Action::GenerateEvent(OutEvent::Unsupported(q))) => assert!(q == p),
        _ => panic!("expected the unsupported notice last"),
    }
    assert!(b.poll().is_none());
}
