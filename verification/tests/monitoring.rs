use room_relay::monitoring::{Monitoring, WebSocketStats};

fn s(text: &str) -> String {
    text.to_string()
}

#[test]
fn new_monitoring_is_all_zero() {
    let monitoring = Monitoring::new();
    let (network, websocket) = monitoring.get_all_stats();
    assert_eq!(network.connected_peers, 0);
    assert_eq!(network.messages_sent, 0);
    assert_eq!(network.messages_received, 0);
    assert_eq!(network.bytes_sent, 0);
    assert_eq!(network.bytes_received, 0);
    assert_eq!(network.uptime_secs, 0);
    assert_eq!(network.peer_connections.len(), 0);
    assert_eq!(websocket.active_connections, 0);
    assert_eq!(websocket.total_connections, 0);
    assert_eq!(websocket.messages_sent, 0);
    assert_eq!(websocket.messages_received, 0);
}

#[test]
fn websocket_stats_start_at_zero() {
    let stats = WebSocketStats::new();
    assert_eq!(stats.active_connections, 0);
    assert_eq!(stats.total_connections, 0);
}

#[test]
fn websocket_counters_follow_connections() {
    let mut monitoring = Monitoring::new();
    monitoring.record_websocket_connected();
    monitoring.record_websocket_connected();
    monitoring.record_websocket_disconnected();
    monitoring.record_websocket_message(true, 10);
    monitoring.record_websocket_message(true, 10);
    monitoring.record_websocket_message(false, 99);
    let (_, websocket) = monitoring.get_all_stats();
    assert_eq!(websocket.active_connections, 1);
    assert_eq!(websocket.total_connections, 2);
    assert_eq!(websocket.messages_sent, 2);
    assert_eq!(websocket.messages_received, 1);
}

#[test]
fn peer_counters_follow_messages() {
    let mut monitoring = Monitoring::new();
    monitoring.record_peer_connected(&s("peer-1"), &s("direct"), 1700000000);
    monitoring.record_message_sent(&s("peer-1"), 100);
    monitoring.record_message_sent(&s("peer-1"), 50);
    monitoring.record_message_received(&s("peer-1"), 7);
    monitoring.record_message_sent(&s("stranger"), 1);
    monitoring.record_message_received(&s("stranger"), 2);
    let (network, _) = monitoring.get_all_stats();
    assert_eq!(network.connected_peers, 1);
    assert_eq!(network.messages_sent, 3);
    assert_eq!(network.bytes_sent, 151);
    assert_eq!(network.messages_received, 2);
    assert_eq!(network.bytes_received, 9);
    assert_eq!(network.peer_connections.len(), 1);
    let peer = network.peer_connections.get(&s("peer-1")).unwrap();
    assert_eq!(peer.peer_id, "peer-1");
    assert_eq!(peer.connection_type, "direct");
    assert_eq!(peer.connected_since, 1700000000);
    assert_eq!(peer.messages_sent, 2);
    assert_eq!(peer.bytes_sent, 150);
    assert_eq!(peer.messages_received, 1);
    assert_eq!(peer.bytes_received, 7);
}

#[test]
fn peer_record_is_created_and_destroyed() {
    let mut monitoring = Monitoring::new();
    monitoring.record_peer_connected(&s("p"), &s("turn"), 5);
    monitoring.record_peer_connected(&s("q"), &s("stun"), 6);
    monitoring.record_peer_disconnected(&s("p"));
    let (network, _) = monitoring.get_all_stats();
    assert_eq!(network.connected_peers, 1);
    assert!(network.peer_connections.get(&s("p")).is_none());
    assert!(network.peer_connections.get(&s("q")).is_some());
}

#[test]
fn reconnecting_peer_starts_from_zero() {
    let mut monitoring = Monitoring::new();
    monitoring.record_peer_connected(&s("p"), &s("direct"), 5);
    monitoring.record_message_sent(&s("p"), 10);
    monitoring.record_peer_connected(&s("p"), &s("turn"), 9);
    let (network, _) = monitoring.get_all_stats();
    assert_eq!(network.connected_peers, 2);
    let peer = network.peer_connections.get(&s("p")).unwrap();
    assert_eq!(peer.messages_sent, 0);
    assert_eq!(peer.connected_since, 9);
    assert_eq!(peer.connection_type, "turn");
    assert_eq!(network.messages_sent, 1);
}

#[test]
fn disconnect_reported_twice_counts_down_once() {
    let mut monitoring = Monitoring::new();
    monitoring.record_websocket_connected();
    monitoring.record_websocket_disconnected();
    monitoring.record_websocket_disconnected();
    let (_, websocket) = monitoring.get_all_stats();
    assert_eq!(websocket.active_connections, 0);
    assert_eq!(websocket.total_connections, 1);
    assert_eq!(websocket.messages_sent, 0);
    assert_eq!(websocket.messages_received, 0);
}

#[test]
fn disconnect_at_zero_leaves_everything_as_it_was() {
    let mut monitoring = Monitoring::new();
    monitoring.record_websocket_disconnected();
    let (_, websocket) = monitoring.get_all_stats();
    assert_eq!(websocket.active_connections, 0);
    assert_eq!(websocket.total_connections, 0);
}
