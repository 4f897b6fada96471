use room_relay::connection::{ConnectionEvent, ConnectionHandler, Outcome};
use room_relay::message::{JoinPayload, SignalingMessage};
use room_relay::registry::ChannelId;
use room_relay::relay::{Action, SignalingRelay};

fn s(text: &str) -> String {
    text.to_string()
}

fn join(room: &str) -> SignalingMessage {
    SignalingMessage::Join(JoinPayload {
        user_id: 1,
        user_color: s("blue"),
        room_id: s(room),
        encrypted_data: None,
    })
}

#[test]
fn accepted_connections_get_distinct_identities() {
    let first = ConnectionHandler::accept(ChannelId(1));
    let second = ConnectionHandler::accept(ChannelId(2));
    assert!(first.is_open());
    assert_eq!(first.channel(), ChannelId(1));
    assert_eq!(second.channel(), ChannelId(2));
    assert_eq!(first.client_id().len(), 36);
    assert_eq!(first.client_id().matches('-').count(), 4);
    assert_ne!(first.client_id(), second.client_id());
}

#[test]
fn with_identity_keeps_what_it_is_given() {
    let handler = ConnectionHandler::with_identity(s("me"), ChannelId(4));
    assert_eq!(handler.client_id(), "me");
    assert_eq!(handler.channel(), ChannelId(4));
    assert!(handler.is_open());
}

#[test]
fn frames_go_to_the_relay_under_the_connection_identity() {
    let mut relay = SignalingRelay::new();
    let mut a = ConnectionHandler::with_identity(s("a"), ChannelId(1));
    let mut b = ConnectionHandler::with_identity(s("b"), ChannelId(2));
    a.on_frame(&mut relay, Some(join("doc1")), 1);
    let actions = b.on_frame(&mut relay, Some(join("doc1")), 2);
    assert_eq!(relay.rooms().members_of(&s("doc1")), vec![s("a"), s("b")]);
    match &actions[0] {
        Action::Broadcast { recipients, .. } => {
            assert_eq!(recipients.len(), 1);
            assert_eq!(recipients[0].client_id, "a");
            assert_eq!(recipients[0].channel, ChannelId(1));
        }
        other => panic!("expected a broadcast, got {:?}", other),
    }
}

#[test]
fn malformed_frame_is_dropped_and_connection_stays_open() {
    let mut relay = SignalingRelay::new();
    let mut a = ConnectionHandler::with_identity(s("a"), ChannelId(1));
    let outcome = a.step(&mut relay, ConnectionEvent::Frame(None), 1);
    assert_eq!(outcome, Outcome { actions: vec![], torn_down: false });
    assert!(a.is_open());
    assert!(relay.rooms().list_rooms().is_empty());
    assert_eq!(relay.peers().lookup(&s("a")), None);
}

#[test]
fn close_tears_down_exactly_once() {
    let mut relay = SignalingRelay::new();
    let mut a = ConnectionHandler::with_identity(s("a"), ChannelId(1));
    let mut b = ConnectionHandler::with_identity(s("b"), ChannelId(2));
    a.on_frame(&mut relay, Some(join("doc1")), 1);
    b.on_frame(&mut relay, Some(join("doc1")), 2);

    assert!(a.close(&mut relay));
    assert!(!a.is_open());
    assert_eq!(relay.rooms().members_of(&s("doc1")), vec![s("b")]);
    assert_eq!(relay.peers().lookup(&s("a")), None);

    // A second client takes the same identity; a late, repeated close of the
    // first connection must not touch it.
    let mut reused = ConnectionHandler::with_identity(s("a"), ChannelId(9));
    reused.on_frame(&mut relay, Some(join("doc1")), 3);
    assert!(!a.close(&mut relay));
    assert_eq!(relay.rooms().members_of(&s("doc1")), vec![s("b"), s("a")]);
    assert_eq!(relay.peers().lookup(&s("a")), Some(ChannelId(9)));
}

#[test]
fn every_ending_event_closes_and_only_the_first_tears_down() {
    let mut relay = SignalingRelay::new();
    let mut a = ConnectionHandler::with_identity(s("a"), ChannelId(1));
    a.on_frame(&mut relay, Some(join("doc1")), 1);
    let first = a.step(&mut relay, ConnectionEvent::WriteFailed, 2);
    assert_eq!(first, Outcome { actions: vec![], torn_down: true });
    let second = a.step(&mut relay, ConnectionEvent::ReadClosed, 3);
    assert_eq!(second, Outcome { actions: vec![], torn_down: false });
    let third = a.step(&mut relay, ConnectionEvent::OutboundDropped, 4);
    assert_eq!(third, Outcome { actions: vec![], torn_down: false });
    assert!(relay.rooms().members_of(&s("doc1")).is_empty());
}

#[test]
fn frames_after_close_are_dropped() {
    let mut relay = SignalingRelay::new();
    let mut a = ConnectionHandler::with_identity(s("a"), ChannelId(1));
    assert!(a.step(&mut relay, ConnectionEvent::ReadClosed, 1).torn_down);
    let outcome = a.step(&mut relay, ConnectionEvent::Frame(Some(join("doc1"))), 2);
    assert_eq!(outcome, Outcome { actions: vec![], torn_down: false });
    assert!(relay.rooms().list_rooms().is_empty());
    assert_eq!(relay.peers().lookup(&s("a")), None);
}

fn register(name: &str) -> SignalingMessage {
    SignalingMessage::Register { peer_id: s(name) }
}

fn offer(from: &str, to: &str) -> SignalingMessage {
    SignalingMessage::Offer { sdp: s("v=0"), from_peer: s(from), to_peer: s(to) }
}

#[test]
fn registered_name_is_addressable_from_another_connection() {
    let mut relay = SignalingRelay::new();
    let mut first = ConnectionHandler::with_identity(s("conn-1"), ChannelId(1));
    let mut second = ConnectionHandler::with_identity(s("conn-2"), ChannelId(2));

    assert!(first.on_frame(&mut relay, Some(register("alice")), 0).is_empty());
    assert_eq!(relay.peers().lookup(&s("alice")), Some(ChannelId(1)));
    assert_eq!(first.client_id(), "conn-1");
    assert_eq!(first.origin(), "alice");

    let actions = second.on_frame(&mut relay, Some(offer("whoever", "alice")), 0);
    assert_eq!(
        actions,
        vec![Action::Unicast {
            to: room_relay::registry::Recipient { client_id: s("alice"), channel: ChannelId(1) },
            message: offer("conn-2", "alice"),
        }]
    );
}

#[test]
fn accepted_connection_registers_a_name_and_receives_offers() {
    let mut relay = SignalingRelay::new();
    let mut first = ConnectionHandler::accept(ChannelId(1));
    let mut second = ConnectionHandler::accept(ChannelId(2));
    first.step(&mut relay, ConnectionEvent::Frame(Some(register("alice"))), 0);
    second.step(&mut relay, ConnectionEvent::Frame(Some(register("bob"))), 0);
    let outcome = second.step(&mut relay, ConnectionEvent::Frame(Some(offer("", "alice"))), 0);
    assert_eq!(
        outcome.actions,
        vec![Action::Unicast {
            to: room_relay::registry::Recipient { client_id: s("alice"), channel: ChannelId(1) },
            message: offer("bob", "alice"),
        }]
    );
    let answer = SignalingMessage::Answer { sdp: s("ok"), from_peer: s("?"), to_peer: s("bob") };
    let outcome = first.step(&mut relay, ConnectionEvent::Frame(Some(answer)), 0);
    assert_eq!(
        outcome.actions,
        vec![Action::Unicast {
            to: room_relay::registry::Recipient { client_id: s("bob"), channel: ChannelId(2) },
            message: SignalingMessage::Answer {
                sdp: s("ok"),
                from_peer: s("alice"),
                to_peer: s("bob")
            },
        }]
    );
}

#[test]
fn signals_go_out_under_the_name_registered_last() {
    let mut relay = SignalingRelay::new();
    let mut first = ConnectionHandler::with_identity(s("conn-1"), ChannelId(1));
    let mut second = ConnectionHandler::with_identity(s("conn-2"), ChannelId(2));
    second.on_frame(&mut relay, Some(register("bob")), 0);

    first.on_frame(&mut relay, Some(register("alice")), 0);
    first.on_frame(&mut relay, Some(register("al")), 0);
    first.on_frame(&mut relay, Some(register("alice")), 0);
    assert_eq!(first.origin(), "alice");
    assert_eq!(relay.peers().lookup(&s("al")), Some(ChannelId(1)));
    assert_eq!(relay.peers().lookup(&s("alice")), Some(ChannelId(1)));

    let actions = first.on_frame(&mut relay, Some(offer("conn-1", "bob")), 0);
    assert_eq!(
        actions,
        vec![Action::Unicast {
            to: room_relay::registry::Recipient { client_id: s("bob"), channel: ChannelId(2) },
            message: offer("alice", "bob"),
        }]
    );
}

#[test]
fn rooms_know_a_connection_by_its_accept_identity() {
    let mut relay = SignalingRelay::new();
    let mut first = ConnectionHandler::with_identity(s("conn-1"), ChannelId(1));
    first.on_frame(&mut relay, Some(register("alice")), 0);
    first.on_frame(&mut relay, Some(join("doc1")), 1);
    assert_eq!(relay.rooms().members_of(&s("doc1")), vec![s("conn-1")]);
    assert_eq!(relay.peers().lookup(&s("conn-1")), Some(ChannelId(1)));
}

#[test]
fn close_removes_every_name_and_the_accept_identity() {
    let mut relay = SignalingRelay::new();
    let mut first = ConnectionHandler::with_identity(s("conn-1"), ChannelId(1));
    let mut second = ConnectionHandler::with_identity(s("conn-2"), ChannelId(2));
    first.on_frame(&mut relay, Some(register("alice")), 0);
    first.on_frame(&mut relay, Some(register("al")), 0);
    first.on_frame(&mut relay, Some(join("doc1")), 1);
    second.on_frame(&mut relay, Some(register("bob")), 1);

    assert!(first.close(&mut relay));
    assert_eq!(relay.peers().lookup(&s("alice")), None);
    assert_eq!(relay.peers().lookup(&s("al")), None);
    assert_eq!(relay.peers().lookup(&s("conn-1")), None);
    assert!(relay.rooms().members_of(&s("doc1")).is_empty());
    assert_eq!(relay.peers().lookup(&s("bob")), Some(ChannelId(2)));
    assert!(second.on_frame(&mut relay, Some(offer("bob", "alice")), 2).is_empty());

    // A registration that arrives after the close is dropped.
    assert!(first.on_frame(&mut relay, Some(register("alice")), 3).is_empty());
    assert_eq!(relay.peers().lookup(&s("alice")), None);
    assert!(!first.close(&mut relay));
}

#[test]
fn connection_without_a_name_signals_under_its_accept_identity() {
    let mut relay = SignalingRelay::new();
    let mut first = ConnectionHandler::with_identity(s("conn-1"), ChannelId(1));
    let mut second = ConnectionHandler::with_identity(s("conn-2"), ChannelId(2));
    second.on_frame(&mut relay, Some(register("bob")), 0);
    assert_eq!(first.origin(), "conn-1");
    let actions = first.on_frame(&mut relay, Some(offer("alice", "bob")), 0);
    assert_eq!(
        actions,
        vec![Action::Unicast {
            to: room_relay::registry::Recipient { client_id: s("bob"), channel: ChannelId(2) },
            message: offer("conn-1", "bob"),
        }]
    );
}
