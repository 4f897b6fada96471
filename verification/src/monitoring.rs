//! Counters that follow the life of connections and messages.
//!
//! The counters are plain numbers; exporting them is the caller's business.
//! A counter that has reached the top of its type cannot be raised, and the
//! number of connected overlay peers cannot be lowered below zero: the
//! recording functions ask for room. The gauge of socket connections is
//! more forgiving: a disconnect that is reported once too often leaves it at
//! zero.

use crate::keyed::{lemma_update_view, StrMap};
use vstd::prelude::*;

verus! {

/// What is known of one connected overlay peer.
pub struct PeerStats {
    pub peer_id: String,
    /// Seconds since the Unix epoch at which the peer connected.
    pub connected_since: u64,
    pub messages_sent: u64,
    pub messages_received: u64,
    pub bytes_sent: u64,
    pub bytes_received: u64,
    /// "direct", "stun" or "turn".
    pub connection_type: String,
}

#[verifier::ext_equal]
pub struct PeerStatsView {
    pub peer_id: Seq<char>,
    pub connected_since: u64,
    pub messages_sent: u64,
    pub messages_received: u64,
    pub bytes_sent: u64,
    pub bytes_received: u64,
    pub connection_type: Seq<char>,
}

impl View for PeerStats {
    type V = PeerStatsView;

    open spec fn view(&self) -> PeerStatsView {
        PeerStatsView {
            peer_id: self.peer_id@,
            connected_since: self.connected_since,
            messages_sent: self.messages_sent,
            messages_received: self.messages_received,
            bytes_sent: self.bytes_sent,
            bytes_received: self.bytes_received,
            connection_type: self.connection_type@,
        }
    }
}

impl PeerStatsView {
    /// A peer that has just connected.
    pub open spec fn fresh(peer_id: Seq<char>, connection_type: Seq<char>, now: u64) -> PeerStatsView {
        PeerStatsView {
            peer_id,
            connected_since: now,
            messages_sent: 0,
            messages_received: 0,
            bytes_sent: 0,
            bytes_received: 0,
            connection_type,
        }
    }

    pub open spec fn sent(self, bytes: u64) -> PeerStatsView {
        PeerStatsView {
            messages_sent: (self.messages_sent + 1) as u64,
            bytes_sent: (self.bytes_sent + bytes) as u64,
            ..self
        }
    }

    pub open spec fn received(self, bytes: u64) -> PeerStatsView {
        PeerStatsView {
            messages_received: (self.messages_received + 1) as u64,
            bytes_received: (self.bytes_received + bytes) as u64,
            ..self
        }
    }
}

/// The views of the peers of a table, under the same names.
pub open spec fn peer_views(peers: Map<Seq<char>, PeerStats>) -> Map<Seq<char>, PeerStatsView> {
    Map::new(|id: Seq<char>| peers.contains_key(id), |id: Seq<char>| peers[id]@)
}

/// Traffic with the overlay, in total and peer by peer.
pub struct NetworkStats {
    pub connected_peers: usize,
    pub messages_sent: u64,
    pub messages_received: u64,
    pub bytes_sent: u64,
    pub bytes_received: u64,
    pub uptime_secs: u64,
    pub peer_connections: StrMap<PeerStats>,
}

impl NetworkStats {
    /// The peers, each under its identity.
    pub open spec fn peers(&self) -> Map<Seq<char>, PeerStatsView> {
        peer_views(self.peer_connections@)
    }

    /// Whether `peer` has sent and received no more than was sent and
    /// received in total.
    pub open spec fn covers(&self, peer: PeerStats) -> bool {
        &&& peer.messages_sent <= self.messages_sent
        &&& peer.bytes_sent <= self.bytes_sent
        &&& peer.messages_received <= self.messages_received
        &&& peer.bytes_received <= self.bytes_received
    }

    /// The table is sound, and no peer has sent or received more than was
    /// sent or received in total.
    pub open spec fn wf(&self) -> bool {
        &&& self.peer_connections.wf()
        &&& forall|id: Seq<char>| #[trigger]
            self.peer_connections@.contains_key(id) ==> self.covers(self.peer_connections@[id])
    }

    pub fn new() -> (stats: Self)
        ensures
            stats.wf(),
            stats.connected_peers == 0,
            stats.messages_sent == 0,
            stats.messages_received == 0,
            stats.bytes_sent == 0,
            stats.bytes_received == 0,
            stats.uptime_secs == 0,
            stats.peers() == Map::<Seq<char>, PeerStatsView>::empty(),
    {
        let stats = NetworkStats {
            connected_peers: 0,
            messages_sent: 0,
            messages_received: 0,
            bytes_sent: 0,
            bytes_received: 0,
            uptime_secs: 0,
            peer_connections: StrMap::new(),
        };
        assert(stats.peers() =~= Map::<Seq<char>, PeerStatsView>::empty());
        stats
    }
}

/// Counters stay sound when the totals do not fall and every peer but
/// `changed` is as it was, provided that the totals cover `changed` if it is
/// still there.
pub proof fn lemma_totals_cover_peers(before: NetworkStats, after: NetworkStats, changed: Seq<char>)
    requires
        before.wf(),
        after.peer_connections.wf(),
        after.messages_sent >= before.messages_sent,
        after.bytes_sent >= before.bytes_sent,
        after.messages_received >= before.messages_received,
        after.bytes_received >= before.bytes_received,
        forall|id: Seq<char>| #[trigger]
            after.peer_connections@.contains_key(id) && id != changed
                ==> before.peer_connections@.contains_key(id) && after.peer_connections@[id]
                == before.peer_connections@[id],
        after.peer_connections@.contains_key(changed) ==> after.covers(
            after.peer_connections@[changed],
        ),
    ensures
        after.wf(),
{
    assert forall|id: Seq<char>| #[trigger] after.peer_connections@.contains_key(id) implies after.covers(
        after.peer_connections@[id],
    ) by {
        if id != changed {
            assert(before.peer_connections@.contains_key(id));
        }
    }
}

/// Traffic with socket clients.
#[derive(Clone, Copy, Debug)]
pub struct WebSocketStats {
    pub active_connections: usize,
    pub total_connections: u64,
    pub messages_sent: u64,
    pub messages_received: u64,
}

impl WebSocketStats {
    pub fn new() -> (stats: Self)
        ensures
            stats.active_connections == 0,
            stats.total_connections == 0,
            stats.messages_sent == 0,
            stats.messages_received == 0,
    {
        WebSocketStats {
            active_connections: 0,
            total_connections: 0,
            messages_sent: 0,
            messages_received: 0,
        }
    }
}

/// The counters of one node.
pub struct Monitoring {
    network_stats: NetworkStats,
    websocket_stats: WebSocketStats,
}

impl Monitoring {
    /// The overlay counters.
    pub closed spec fn network(&self) -> NetworkStats {
        self.network_stats
    }

    /// The socket counters.
    pub closed spec fn websocket(&self) -> WebSocketStats {
        self.websocket_stats
    }

    pub open spec fn wf(&self) -> bool {
        self.network().wf()
    }

    pub fn new() -> (monitoring: Self)
        ensures
            monitoring.wf(),
            monitoring.network().connected_peers == 0,
            monitoring.network().messages_sent == 0,
            monitoring.network().messages_received == 0,
            monitoring.network().bytes_sent == 0,
            monitoring.network().bytes_received == 0,
            monitoring.network().uptime_secs == 0,
            monitoring.network().peers() == Map::<Seq<char>, PeerStatsView>::empty(),
            monitoring.websocket().active_connections == 0,
            monitoring.websocket().total_connections == 0,
            monitoring.websocket().messages_sent == 0,
            monitoring.websocket().messages_received == 0,
    {
        Monitoring { network_stats: NetworkStats::new(), websocket_stats: WebSocketStats::new() }
    }

    /// An overlay peer has connected at time `now`: one more peer is
    /// connected, and the peer's own counters start at zero, in place of
    /// whatever was held under its identity.
    pub fn record_peer_connected(&mut self, peer_id: &String, connection_type: &String, now: u64)
        requires
            old(self).wf(),
            old(self).network().connected_peers < usize::MAX,
        ensures
            final(self).wf(),
            final(self).websocket() == old(self).websocket(),
            final(self).network().connected_peers == old(self).network().connected_peers + 1,
            final(self).network().peers() == old(self).network().peers().insert(
                peer_id@,
                PeerStatsView::fresh(peer_id@, connection_type@, now),
            ),
            final(self).network().messages_sent == old(self).network().messages_sent,
            final(self).network().messages_received == old(self).network().messages_received,
            final(self).network().bytes_sent == old(self).network().bytes_sent,
            final(self).network().bytes_received == old(self).network().bytes_received,
            final(self).network().uptime_secs == old(self).network().uptime_secs,
    {
        let ghost before = self.network_stats;
        self.network_stats.connected_peers += 1;
        self.network_stats.peer_connections.insert(
            peer_id.clone(),
            PeerStats {
                peer_id: peer_id.clone(),
                connected_since: now,
                messages_sent: 0,
                messages_received: 0,
                bytes_sent: 0,
                bytes_received: 0,
                connection_type: connection_type.clone(),
            },
        );
        proof {
            assert(self.network_stats.peers() =~= before.peers().insert(
                peer_id@,
                PeerStatsView::fresh(peer_id@, connection_type@, now),
            ));
            lemma_totals_cover_peers(before, self.network_stats, peer_id@);
        }
    }

    /// An overlay peer has disconnected: one peer fewer is connected, and
    /// nothing is held under the peer's identity any more.
    pub fn record_peer_disconnected(&mut self, peer_id: &String)
        requires
            old(self).wf(),
            old(self).network().connected_peers > 0,
        ensures
            final(self).wf(),
            final(self).websocket() == old(self).websocket(),
            final(self).network().connected_peers == old(self).network().connected_peers - 1,
            final(self).network().peers() == old(self).network().peers().remove(peer_id@),
            final(self).network().messages_sent == old(self).network().messages_sent,
            final(self).network().messages_received == old(self).network().messages_received,
            final(self).network().bytes_sent == old(self).network().bytes_sent,
            final(self).network().bytes_received == old(self).network().bytes_received,
            final(self).network().uptime_secs == old(self).network().uptime_secs,
    {
        let ghost before = self.network_stats;
        self.network_stats.connected_peers -= 1;
        self.network_stats.peer_connections.remove(peer_id);
        proof {
            assert(self.network_stats.peers() =~= before.peers().remove(peer_id@));
            lemma_totals_cover_peers(before, self.network_stats, peer_id@);
        }
    }

    /// A message of `bytes` bytes went out to an overlay peer: it counts in
    /// the totals, and in the peer's own counters if the peer is connected.
    pub fn record_message_sent(&mut self, peer_id: &String, bytes: u64)
        requires
            old(self).wf(),
            old(self).network().messages_sent < u64::MAX,
            old(self).network().bytes_sent + bytes <= u64::MAX,
        ensures
            final(self).wf(),
            final(self).websocket() == old(self).websocket(),
            final(self).network().messages_sent == old(self).network().messages_sent + 1,
            final(self).network().bytes_sent == old(self).network().bytes_sent + bytes,
            final(self).network().peers() == if old(self).network().peers().contains_key(peer_id@) {
                old(self).network().peers().insert(
                    peer_id@,
                    old(self).network().peers()[peer_id@].sent(bytes),
                )
            } else {
                old(self).network().peers()
            },
            final(self).network().connected_peers == old(self).network().connected_peers,
            final(self).network().messages_received == old(self).network().messages_received,
            final(self).network().bytes_received == old(self).network().bytes_received,
            final(self).network().uptime_secs == old(self).network().uptime_secs,
    {
        let ghost before = self.network_stats;
        self.network_stats.messages_sent += 1;
        self.network_stats.bytes_sent += bytes;
        match self.network_stats.peer_connections.find(peer_id) {
            Some(i) => {
                proof {
                    before.peer_connections.lemma_entry_at(i as int);
                }
                let peer = self.network_stats.peer_connections.value_at_mut(i);
                peer.messages_sent += 1;
                peer.bytes_sent += bytes;
                proof {
                    lemma_update_view(
                        before.peer_connections,
                        self.network_stats.peer_connections,
                        i as int,
                        self.network_stats.peer_connections.values()[i as int],
                    );
                    assert(self.network_stats.peers() =~= before.peers().insert(
                        peer_id@,
                        before.peers()[peer_id@].sent(bytes),
                    ));
                }
            },
            None => {},
        }
        proof {
            lemma_totals_cover_peers(before, self.network_stats, peer_id@);
        }
    }

    /// A message of `bytes` bytes came in from an overlay peer: it counts in
    /// the totals, and in the peer's own counters if the peer is connected.
    pub fn record_message_received(&mut self, peer_id: &String, bytes: u64)
        requires
            old(self).wf(),
            old(self).network().messages_received < u64::MAX,
            old(self).network().bytes_received + bytes <= u64::MAX,
        ensures
            final(self).wf(),
            final(self).websocket() == old(self).websocket(),
            final(self).network().messages_received == old(self).network().messages_received + 1,
            final(self).network().bytes_received == old(self).network().bytes_received + bytes,
            final(self).network().peers() == if old(self).network().peers().contains_key(peer_id@) {
                old(self).network().peers().insert(
                    peer_id@,
                    old(self).network().peers()[peer_id@].received(bytes),
                )
            } else {
                old(self).network().peers()
            },
            final(self).network().connected_peers == old(self).network().connected_peers,
            final(self).network().messages_sent == old(self).network().messages_sent,
            final(self).network().bytes_sent == old(self).network().bytes_sent,
            final(self).network().uptime_secs == old(self).network().uptime_secs,
    {
        let ghost before = self.network_stats;
        self.network_stats.messages_received += 1;
        self.network_stats.bytes_received += bytes;
        match self.network_stats.peer_connections.find(peer_id) {
            Some(i) => {
                proof {
                    before.peer_connections.lemma_entry_at(i as int);
                }
                let peer = self.network_stats.peer_connections.value_at_mut(i);
                peer.messages_received += 1;
                peer.bytes_received += bytes;
                proof {
                    lemma_update_view(
                        before.peer_connections,
                        self.network_stats.peer_connections,
                        i as int,
                        self.network_stats.peer_connections.values()[i as int],
                    );
                    assert(self.network_stats.peers() =~= before.peers().insert(
                        peer_id@,
                        before.peers()[peer_id@].received(bytes),
                    ));
                }
            },
            None => {},
        }
        proof {
            lemma_totals_cover_peers(before, self.network_stats, peer_id@);
        }
    }

    /// A socket client has connected: one more connection is active, and one
    /// more was made in total.
    pub fn record_websocket_connected(&mut self)
        requires
            old(self).websocket().active_connections < usize::MAX,
            old(self).websocket().total_connections < u64::MAX,
        ensures
            final(self).network() == old(self).network(),
            final(self).websocket() == (WebSocketStats {
                active_connections: (old(self).websocket().active_connections + 1) as usize,
                total_connections: (old(self).websocket().total_connections + 1) as u64,
                ..old(self).websocket()
            }),
    {
        self.websocket_stats.active_connections += 1;
        self.websocket_stats.total_connections += 1;
    }

    /// A socket client has disconnected: one connection fewer is active. A
    /// report that arrives when no connection is active counts nothing: the
    /// gauge stays at zero.
    pub fn record_websocket_disconnected(&mut self)
        ensures
            final(self).network() == old(self).network(),
            final(self).websocket() == (WebSocketStats {
                active_connections: if old(self).websocket().active_connections > 0 {
                    (old(self).websocket().active_connections - 1) as usize
                } else {
                    0
                },
                ..old(self).websocket()
            }),
    {
        if self.websocket_stats.active_connections > 0 {
            self.websocket_stats.active_connections -= 1;
        }
    }

    /// A message went out to a socket client, or came in from one. Its size
    /// is not counted.
    pub fn record_websocket_message(&mut self, is_outgoing: bool, _bytes: u64)
        requires
            is_outgoing ==> old(self).websocket().messages_sent < u64::MAX,
            !is_outgoing ==> old(self).websocket().messages_received < u64::MAX,
        ensures
            final(self).network() == old(self).network(),
            final(self).websocket() == if is_outgoing {
                WebSocketStats {
                    messages_sent: (old(self).websocket().messages_sent + 1) as u64,
                    ..old(self).websocket()
                }
            } else {
                WebSocketStats {
                    messages_received: (old(self).websocket().messages_received + 1) as u64,
                    ..old(self).websocket()
                }
            },
    {
        if is_outgoing {
            self.websocket_stats.messages_sent += 1;
        } else {
            self.websocket_stats.messages_received += 1;
        }
    }

    /// The overlay counters and the socket counters.
    pub fn get_all_stats(&self) -> (stats: (&NetworkStats, WebSocketStats))
        ensures
            *stats.0 == self.network(),
            stats.1 == self.websocket(),
    {
        (&self.network_stats, self.websocket_stats)
    }
}

} // verus!
