//! What holds of the relay over whole histories, proved from the transitions
//! that the handlers are verified against.

use crate::connection::ConnectionView;
use crate::keyed::{lemma_push_keeps_distinct, lemma_remove_keeps_distinct};
use crate::message::{JoinView, MessageView, ServerMessageView};
use crate::registry::{
    broadcast_recipients, lemma_broadcast_exactly_once, lemma_broadcast_sound, ChannelId,
    RecipientView,
};
use crate::relay::{
    lemma_join_valid, lemma_leave_valid, lemma_teardown_valid, lemma_write_valid, ActionView,
    RelayView,
};
use crate::room::{RoomView, StoreView};
use vstd::prelude::*;

verus! {

/// Something that changes who is in a room.
pub enum RoomEvent {
    /// A client asks to join.
    Join { client: Seq<char>, channel: ChannelId, payload: JoinView },
    /// A client asks to leave.
    Leave { client: Seq<char> },
    /// A client's connection ends.
    Disconnect { client: Seq<char> },
}

/// The relay after one event that concerns room `room`.
pub open spec fn after_event(relay: RelayView, room: Seq<char>, event: RoomEvent) -> RelayView {
    match event {
        RoomEvent::Join { client, channel, payload } => relay.join(
            client,
            channel,
            JoinView { room_id: room, ..payload },
        ).next,
        RoomEvent::Leave { client } => relay.leave_room(client, room).next,
        RoomEvent::Disconnect { client } => relay.teardown(client),
    }
}

/// The relay after a sequence of events that concern room `room`.
pub open spec fn after_events(relay: RelayView, room: Seq<char>, events: Seq<RoomEvent>) -> RelayView
    decreases events.len(),
{
    if events.len() == 0 {
        relay
    } else {
        after_event(after_events(relay, room, events.drop_last()), room, events.last())
    }
}

/// Who should be in a room that started with `members` after `events`:
/// whoever joined and has not left or been disconnected since.
pub open spec fn joined_and_not_gone(members: Set<Seq<char>>, events: Seq<RoomEvent>) -> Set<
    Seq<char>,
>
    decreases events.len(),
{
    if events.len() == 0 {
        members
    } else {
        let earlier = joined_and_not_gone(members, events.drop_last());
        match events.last() {
            RoomEvent::Join { client, .. } => earlier.insert(client),
            RoomEvent::Leave { client } => earlier.remove(client),
            RoomEvent::Disconnect { client } => earlier.remove(client),
        }
    }
}

/// The store stays valid when a client joins a room, and the room's members
/// are then those it had and the client.
pub proof fn lemma_add_member(store: StoreView, id: Seq<char>, client: Seq<char>)
    requires
        store.valid(),
    ensures
        store.add_member(id, client).valid(),
        store.add_member(id, client).room(id).members.to_set() == store.room(id).members.to_set().insert(
            client,
        ),
{
    lemma_put(store, id, store.room(id).join(client));
    let members = store.room(id).members;
    if members.contains(client) {
        assert(members.to_set().insert(client) =~= members.to_set());
    } else {
        lemma_push_keeps_distinct(members, client);
    }
}

/// The store stays valid when a room is replaced by a valid room that was not
/// written later than the clock.
pub proof fn lemma_put(store: StoreView, id: Seq<char>, room: RoomView)
    requires
        store.valid(),
        room.valid(),
        room.last_updated <= store.clock,
    ensures
        store.put(id, room).valid(),
        store.put(id, room).room(id) == room,
{
    let next = store.put(id, room);
    if !store.rooms.contains_key(id) {
        assert(!store.order.contains(id)) by {
            assert(!store.order.to_set().contains(id));
        }
        lemma_push_keeps_distinct(store.order, id);
    }
    assert(next.rooms.dom() =~= next.order.to_set());
    assert forall|other: Seq<char>| #[trigger] next.rooms.contains_key(other) implies next.rooms[other].valid()
        && next.rooms[other].last_updated <= next.clock by {
        if other != id {
            assert(store.rooms.contains_key(other));
        }
    }
}

/// The store stays valid when a client leaves a room, and the room's members
/// are then those it had but the client.
pub proof fn lemma_remove_member(store: StoreView, id: Seq<char>, client: Seq<char>)
    requires
        store.valid(),
    ensures
        store.remove_member(id, client).valid(),
        store.remove_member(id, client).room(id).members.to_set() == store.room(
            id,
        ).members.to_set().remove(client),
{
    let members = store.room(id).members;
    if store.rooms.contains_key(id) {
        if members.contains(client) {
            lemma_remove_keeps_distinct(members, members.index_of(client));
        } else {
            assert(members.to_set().remove(client) =~= members.to_set());
        }
        lemma_put(store, id, store.rooms[id].leave(client));
    } else {
        assert(members.to_set().remove(client) =~= members.to_set());
    }
}

/// The store stays valid when a client leaves every room, and each room's
/// members are then those it had but the client.
pub proof fn lemma_remove_client(store: StoreView, id: Seq<char>, client: Seq<char>)
    requires
        store.valid(),
    ensures
        store.remove_client(client).valid(),
        store.remove_client(client).room(id).members.to_set() == store.room(id).members.to_set().remove(
            client,
        ),
{
    let next = store.remove_client(client);
    assert(next.rooms.dom() =~= store.rooms.dom());
    assert forall|other: Seq<char>| #[trigger] next.rooms.contains_key(other) implies next.rooms[other].valid()
        && next.rooms[other].last_updated <= next.clock by {
        assert(store.rooms.contains_key(other));
        let members = store.rooms[other].members;
        if members.contains(client) {
            lemma_remove_keeps_distinct(members, members.index_of(client));
        }
    }
    let members = store.room(id).members;
    if members.contains(client) {
        lemma_remove_keeps_distinct(members, members.index_of(client));
    } else {
        assert(members.to_set().remove(client) =~= members.to_set());
    }
}

/// One event keeps a valid relay valid and changes the room's members as the
/// event says.
pub proof fn lemma_after_event(relay: RelayView, room: Seq<char>, event: RoomEvent)
    requires
        relay.valid(),
    ensures
        after_event(relay, room, event).valid(),
        after_event(relay, room, event).store.room(room).members.to_set() == joined_and_not_gone(
            relay.store.room(room).members.to_set(),
            seq![event],
        ),
{
    let members = relay.store.room(room).members.to_set();
    assert(seq![event].drop_last() =~= Seq::<RoomEvent>::empty());
    assert(seq![event].last() == event);
    assert(joined_and_not_gone(members, seq![event].drop_last()) == members);
    match event {
        RoomEvent::Join { client, channel, payload } => {
            let request = JoinView { room_id: room, ..payload };
            lemma_join_valid(relay, client, channel, request);
            lemma_add_member(relay.store, room, client);
            let joined = relay.store.add_member(room, client);
            if request.encrypted_data is Some {
                lemma_put(joined, room, RoomView { encrypted: true, ..joined.room(room) });
            }
        },
        RoomEvent::Leave { client } => {
            lemma_leave_valid(relay, client, room);
            lemma_remove_member(relay.store, room, client);
        },
        RoomEvent::Disconnect { client } => {
            lemma_teardown_valid(relay, client);
            lemma_remove_client(relay.store, room, client);
        },
    }
}

/// Membership is what the events say. After any sequence of joins, leaves
/// and disconnects on a room, the room's member list holds exactly the
/// clients that joined and have not left or been disconnected since, each
/// once.
pub proof fn theorem_membership_follows_events(
    relay: RelayView,
    room: Seq<char>,
    events: Seq<RoomEvent>,
)
    requires
        relay.valid(),
    ensures
        after_events(relay, room, events).valid(),
        after_events(relay, room, events).store.room(room).members.no_duplicates(),
        after_events(relay, room, events).store.room(room).members.to_set() == joined_and_not_gone(
            relay.store.room(room).members.to_set(),
            events,
        ),
    decreases events.len(),
{
    if events.len() > 0 {
        let before = after_events(relay, room, events.drop_last());
        theorem_membership_follows_events(relay, room, events.drop_last());
        lemma_after_event(before, room, events.last());
        assert(seq![events.last()].drop_last() =~= Seq::<RoomEvent>::empty());
        assert(seq![events.last()].last() == events.last());
        assert(joined_and_not_gone(before.store.room(room).members.to_set(), seq![events.last()].drop_last())
            == before.store.room(room).members.to_set());
    }
    let after = after_events(relay, room, events);
    if !after.store.rooms.contains_key(room) {
        assert(after.store.room(room).members.no_duplicates());
    }
}

/// A write to a room, by a local client or by another node.
pub enum Write {
    Local { room: Seq<char>, document: Seq<u8>, encrypted: bool, now: u64 },
    Remote { room: Seq<char>, document: Seq<u8>, encrypted: bool, timestamp: u64 },
}

/// The store after one write.
pub open spec fn after_write(store: StoreView, write: Write) -> StoreView {
    match write {
        Write::Local { room, document, encrypted, now } => store.apply_local(
            room,
            document,
            encrypted,
            now,
        ),
        Write::Remote { room, document, encrypted, timestamp } => store.apply_remote(
            room,
            document,
            encrypted,
            timestamp,
        ),
    }
}

/// The store after a sequence of writes.
pub open spec fn after_writes(store: StoreView, writes: Seq<Write>) -> StoreView
    decreases writes.len(),
{
    if writes.len() == 0 {
        store
    } else {
        after_write(after_writes(store, writes.drop_last()), writes.last())
    }
}

/// One write keeps a valid store valid, and no room's time goes back.
pub proof fn lemma_after_write(store: StoreView, write: Write, room: Seq<char>)
    requires
        store.valid(),
    ensures
        after_write(store, write).valid(),
        after_write(store, write).room(room).last_updated >= store.room(room).last_updated,
        store.rooms.contains_key(room) ==> after_write(store, write).rooms.contains_key(room),
{
    match write {
        Write::Local { room: id, document, encrypted, now } => {
            let at = crate::room::later(store.clock, now);
            let raised = StoreView { clock: at, ..store };
            lemma_put(raised, id, store.room(id).written(document, encrypted, at));
            assert(after_write(store, write) == raised.put(
                id,
                store.room(id).written(document, encrypted, at),
            ));
        },
        Write::Remote { room: id, document, encrypted, timestamp } => {
            if store.accepts_remote(id, timestamp) {
                let at = crate::room::later(store.clock, timestamp);
                let raised = StoreView { clock: at, ..store };
                lemma_put(raised, id, store.room(id).written(document, encrypted, timestamp));
                assert(after_write(store, write) == raised.put(
                    id,
                    store.room(id).written(document, encrypted, timestamp),
                ));
            }
        },
    }
}

/// Time does not go back. Over any sequence of local and remote writes, to
/// whatever rooms, the time of a room's last write never decreases, and a
/// room that the store has seen stays.
pub proof fn theorem_last_updated_monotonic(store: StoreView, writes: Seq<Write>, room: Seq<char>)
    requires
        store.valid(),
    ensures
        after_writes(store, writes).valid(),
        after_writes(store, writes).room(room).last_updated >= store.room(room).last_updated,
        store.rooms.contains_key(room) ==> after_writes(store, writes).rooms.contains_key(room),
    decreases writes.len(),
{
    if writes.len() > 0 {
        theorem_last_updated_monotonic(store, writes.drop_last(), room);
        lemma_after_write(after_writes(store, writes.drop_last()), writes.last(), room);
    }
}

/// A stale remote write does nothing. A remote write to a room that the
/// store has seen, stamped no later than the room's last write, is refused
/// and leaves the whole store, documents and times, as it was.
pub proof fn theorem_stale_remote_write_is_ignored(
    store: StoreView,
    room: Seq<char>,
    document: Seq<u8>,
    encrypted: bool,
    timestamp: u64,
)
    requires
        store.rooms.contains_key(room),
        timestamp <= store.rooms[room].last_updated,
    ensures
        !store.accepts_remote(room, timestamp),
        store.apply_remote(room, document, encrypted, timestamp) == store,
{
}

/// A broadcast reaches each of the others once. In a valid relay the
/// addressees of a broadcast to a room that leaves out `exclude` are members
/// of the room, `exclude` is not among them, and every other member is among
/// them exactly once, with its registered channel.
pub proof fn theorem_broadcast_reaches_others_once(
    relay: RelayView,
    room: Seq<char>,
    exclude: Seq<char>,
)
    requires
        relay.valid(),
    ensures
        forall|i: int|
            0 <= i < broadcast_recipients(
                relay.peers,
                relay.store.room(room).members,
                Some(exclude),
            ).len() ==> {
                let recipient = #[trigger] broadcast_recipients(
                    relay.peers,
                    relay.store.room(room).members,
                    Some(exclude),
                )[i];
                &&& recipient.client_id != exclude
                &&& relay.store.room(room).members.contains(recipient.client_id)
                &&& relay.peers.contains_key(recipient.client_id)
                &&& recipient.channel == relay.peers[recipient.client_id]
            },
        forall|member: Seq<char>|
            member != exclude && #[trigger] relay.store.room(room).members.contains(member)
                ==> occurrences(
                broadcast_recipients(relay.peers, relay.store.room(room).members, Some(exclude)),
                member,
            ) == 1,
{
    let members = relay.store.room(room).members;
    let recipients = broadcast_recipients(relay.peers, members, Some(exclude));
    assert forall|i: int| 0 <= i < recipients.len() implies {
        let recipient = #[trigger] recipients[i];
        &&& recipient.client_id != exclude
        &&& members.contains(recipient.client_id)
        &&& relay.peers.contains_key(recipient.client_id)
        &&& recipient.channel == relay.peers[recipient.client_id]
    } by {
        lemma_broadcast_sound(relay.peers, members, Some(exclude), i);
    }
    assert forall|member: Seq<char>| member != exclude && #[trigger] members.contains(member) implies occurrences(
        recipients,
        member,
    ) == 1 by {
        assert(relay.store.rooms.contains_key(room));
        assert(relay.store.rooms[room].members.contains(member));
        lemma_broadcast_exactly_once(relay.peers, members, Some(exclude), member);
        let i = choose|i: int| 0 <= i < recipients.len() && (#[trigger] recipients[i]).client_id == member;
        lemma_occurs_once(recipients, member, i);
    }
}

/// How often `client` is among `recipients`.
pub open spec fn occurrences(recipients: Seq<RecipientView>, client: Seq<char>) -> nat
    decreases recipients.len(),
{
    if recipients.len() == 0 {
        0
    } else {
        let earlier = occurrences(recipients.drop_last(), client);
        if recipients.last().client_id == client {
            earlier + 1
        } else {
            earlier
        }
    }
}

/// A client that stands at one position only occurs once.
pub proof fn lemma_occurs_once(recipients: Seq<RecipientView>, client: Seq<char>, i: int)
    requires
        0 <= i < recipients.len(),
        recipients[i].client_id == client,
        forall|j: int, k: int|
            0 <= j < recipients.len() && 0 <= k < recipients.len() && (
            #[trigger] recipients[j]).client_id == client && (#[trigger] recipients[k]).client_id
                == client ==> j == k,
    ensures
        occurrences(recipients, client) == 1,
    decreases recipients.len(),
{
    let shorter = recipients.drop_last();
    if i == recipients.len() - 1 {
        lemma_occurs_never(shorter, client);
    } else {
        assert(shorter[i] == recipients[i]);
        lemma_occurs_once(shorter, client, i);
    }
}

/// A client that stands at no position does not occur.
pub proof fn lemma_occurs_never(recipients: Seq<RecipientView>, client: Seq<char>)
    requires
        forall|j: int| 0 <= j < recipients.len() ==> (#[trigger] recipients[j]).client_id != client,
    ensures
        occurrences(recipients, client) == 0,
    decreases recipients.len(),
{
    if recipients.len() > 0 {
        lemma_occurs_never(recipients.drop_last(), client);
    }
}

/// Point-to-point relay is transparent. An offer, an answer or a candidate
/// for a registered peer goes to that peer alone, on its channel, with the
/// payload and the addressee as the sender wrote them and the sender's
/// identity as the origin; the relay's state does not change.
pub proof fn theorem_signal_relay_is_transparent(
    relay: RelayView,
    sender: Seq<char>,
    payload: Seq<char>,
    claimed: Seq<char>,
    to_peer: Seq<char>,
)
    requires
        relay.peers.contains_key(to_peer),
    ensures
        relay.signal(
            sender,
            MessageView::Offer { sdp: payload, from_peer: claimed, to_peer },
        ).next == relay,
        relay.signal(sender, MessageView::Offer { sdp: payload, from_peer: claimed, to_peer }).actions
            == seq![
            ActionView::Unicast {
                to: RecipientView { client_id: to_peer, channel: relay.peers[to_peer] },
                message: MessageView::Offer { sdp: payload, from_peer: sender, to_peer },
            },
        ],
        relay.signal(
            sender,
            MessageView::Answer { sdp: payload, from_peer: claimed, to_peer },
        ).next == relay,
        relay.signal(sender, MessageView::Answer { sdp: payload, from_peer: claimed, to_peer }).actions
            == seq![
            ActionView::Unicast {
                to: RecipientView { client_id: to_peer, channel: relay.peers[to_peer] },
                message: MessageView::Answer { sdp: payload, from_peer: sender, to_peer },
            },
        ],
        relay.signal(
            sender,
            MessageView::IceCandidate { candidate: payload, from_peer: claimed, to_peer },
        ).next == relay,
        relay.signal(
            sender,
            MessageView::IceCandidate { candidate: payload, from_peer: claimed, to_peer },
        ).actions == seq![
            ActionView::Unicast {
                to: RecipientView { client_id: to_peer, channel: relay.peers[to_peer] },
                message: MessageView::IceCandidate { candidate: payload, from_peer: sender, to_peer },
            },
        ],
{
}

/// A listing counts local members. The answer to a request for the rooms
/// has one line for each room of the store, and the line's count is the
/// size of the room's set of local members.
pub proof fn theorem_listing_counts_members(
    relay: RelayView,
    sender: Seq<char>,
    channel: ChannelId,
    i: int,
)
    requires
        relay.valid(),
        0 <= i < relay.store.order.len(),
    ensures
        relay.get_rooms(sender, channel).next == relay,
        relay.get_rooms(sender, channel).actions == seq![
            ActionView::Unicast {
                to: RecipientView { client_id: sender, channel },
                message: MessageView::RoomList { rooms: relay.store.listing() },
            },
        ],
        relay.store.listing().len() == relay.store.order.len(),
        relay.store.listing()[i].room_id == relay.store.order[i],
        relay.store.rooms.contains_key(relay.store.order[i]),
        relay.store.rooms[relay.store.order[i]].members.to_set().finite(),
        relay.store.listing()[i].peer_count
            == relay.store.rooms[relay.store.order[i]].members.to_set().len(),
{
    let id = relay.store.order[i];
    assert(relay.store.order.to_set().contains(id));
    assert(relay.store.rooms.contains_key(id));
    relay.store.rooms[id].members.unique_seq_to_set();
}

/// Teardown is idempotent. Tearing a client down twice leaves a valid relay
/// as tearing it down once does.
pub proof fn theorem_teardown_idempotent(relay: RelayView, client: Seq<char>)
    requires
        relay.valid(),
    ensures
        relay.teardown(client).teardown(client) == relay.teardown(client),
{
    let once = relay.teardown(client);
    let twice = once.teardown(client);
    lemma_teardown_valid(relay, client);
    assert(twice.peers =~= once.peers);
    assert forall|id: Seq<char>| once.store.rooms.contains_key(id) implies #[trigger] twice.store.rooms[id]
        == once.store.rooms[id] by {
        assert(!once.store.rooms[id].members.contains(client));
    }
    assert(twice.store.rooms =~= once.store.rooms);
    assert(twice.store == once.store);
}

/// Handlers tolerate duplicates. A message that the relay handles twice,
/// from the same sender at the same time, leaves a valid relay as handling
/// it once does.
pub proof fn theorem_duplicate_message_changes_nothing(
    relay: RelayView,
    sender: Seq<char>,
    channel: ChannelId,
    message: MessageView,
    now: u64,
)
    requires
        relay.valid(),
    ensures
        relay.handle(sender, channel, message, now).next.handle(sender, channel, message, now).next
            == relay.handle(sender, channel, message, now).next,
{
    let once = relay.handle(sender, channel, message, now).next;
    let twice = once.handle(sender, channel, message, now).next;
    match message {
        MessageView::Register { .. } => {
            assert(twice.peers =~= once.peers);
        },
        MessageView::Join(payload) => {
            let id = payload.room_id;
            assert(twice.peers =~= once.peers);
            assert(twice.store.rooms =~= once.store.rooms);
            assert(twice.store.order =~= once.store.order);
        },
        MessageView::SyncUpdate(payload) => {
            assert(twice.store.rooms =~= once.store.rooms);
            assert(twice.store.order =~= once.store.order);
        },
        MessageView::LeaveRoom { room_id } => {
            if relay.store.rooms.contains_key(room_id) {
                let members = relay.store.rooms[room_id].members;
                if members.contains(sender) {
                    lemma_remove_keeps_distinct(members, members.index_of(sender));
                }
            }
            assert(twice.store.rooms =~= once.store.rooms);
            assert(twice.store.order =~= once.store.order);
        },
        _ => {},
    }
}

/// A remote write that arrives twice is taken at most once: the second
/// arrival changes nothing and nothing is sent for it.
pub proof fn theorem_duplicate_remote_write_is_ignored(relay: RelayView, envelope: ServerMessageView)
    ensures
        relay.apply_remote(envelope).next.apply_remote(envelope).next == relay.apply_remote(
            envelope,
        ).next,
        relay.apply_remote(envelope).next.apply_remote(envelope).actions == Seq::<
            ActionView,
        >::empty(),
{
}

/// Tearing names down registers nobody, and none of the names stays
/// registered.
pub proof fn lemma_teardown_all_unregisters(relay: RelayView, names: Seq<Seq<char>>)
    ensures
        forall|name: Seq<char>| #[trigger]
            relay.teardown_all(names).peers.contains_key(name) ==> relay.peers.contains_key(name)
                && !names.contains(name),
    decreases names.len(),
{
    if names.len() > 0 {
        let shorter = names.drop_last();
        lemma_teardown_all_unregisters(relay, shorter);
        assert forall|name: Seq<char>| #[trigger]
            relay.teardown_all(names).peers.contains_key(name) implies relay.peers.contains_key(name)
            && !names.contains(name) by {
            assert(relay.teardown_all(shorter).peers.contains_key(name));
            assert(name != names.last());
            if names.contains(name) {
                let k = choose|k: int| 0 <= k < names.len() && names[k] == name;
                assert(shorter[k] == name);
            }
        }
    }
}

/// A registered name is addressable. When a client on an open connection
/// registers a name, the registry maps that name to the connection's
/// channel and nothing else changes; an offer that any client then sends to
/// that name goes to that channel, stamped with the identity of the client
/// that sent it; and the connection's own offers, answers and candidates go
/// out under that name from then on.
pub proof fn theorem_registered_name_is_addressable(
    connection: ConnectionView,
    relay: RelayView,
    name: Seq<char>,
    sender: Seq<char>,
    sdp: Seq<char>,
    claimed: Seq<char>,
    now: u64,
)
    requires
        connection.open,
    ensures
        ({
            let registration = MessageView::Register { peer_id: name };
            let after = connection.frame(relay, Some(registration), now);
            let offer = MessageView::Offer { sdp, from_peer: claimed, to_peer: name };
            &&& after.relay.peers == relay.peers.insert(name, connection.channel)
            &&& after.relay.store == relay.store
            &&& after.actions == Seq::<ActionView>::empty()
            &&& after.connection.open
            &&& after.connection.client_id == connection.client_id
            &&& after.connection.origin == name
            &&& after.connection.names.contains(name)
            &&& after.connection.sender_of(offer) == name
            &&& after.relay.signal(sender, offer).actions == seq![
                ActionView::Unicast {
                    to: RecipientView { client_id: name, channel: connection.channel },
                    message: MessageView::Offer { sdp, from_peer: sender, to_peer: name },
                },
            ]
        }),
{
    let after = connection.frame(relay, Some(MessageView::Register { peer_id: name }), now);
    if !connection.names.contains(name) {
        assert(connection.names.push(name)[connection.names.len() as int] == name);
    }
}

/// The end of a connection removes every identity of its client. Once an
/// open connection has been closed, neither the identity that it was
/// accepted with nor any name registered over it is in the registry, and the
/// close registers nobody.
pub proof fn theorem_close_unregisters_every_identity(
    connection: ConnectionView,
    relay: RelayView,
    name: Seq<char>,
)
    requires
        connection.open,
    ensures
        connection.close(relay).relay.peers.contains_key(name) ==> relay.peers.contains_key(name),
        name == connection.client_id || connection.names.contains(name) ==> !connection.close(
            relay,
        ).relay.peers.contains_key(name),
{
    lemma_teardown_all_unregisters(relay.teardown(connection.client_id), connection.names);
}

/// A connection is torn down once. However often the end of a connection is
/// reported, the first report tears the client down and every later one
/// changes neither the connection nor the relay.
pub proof fn theorem_connection_closes_once(connection: ConnectionView, relay: RelayView)
    ensures
        !connection.close(relay).connection.open,
        connection.close(relay).connection.close(connection.close(relay).relay).connection
            == connection.close(relay).connection,
        connection.close(relay).connection.close(connection.close(relay).relay).relay
            == connection.close(relay).relay,
        !connection.close(relay).connection.close(connection.close(relay).relay).torn_down,
{
}

} // verus!
