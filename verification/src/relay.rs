//! The signaling relay: what the node does with each message.
//!
//! The relay owns the room store and the peer registry. Each handler takes a
//! message, changes that state, and returns what has to be sent, in order; the
//! sending itself belongs to the caller, which owns the sockets and the
//! overlay. A handler never waits and never fails: a message that cannot be
//! routed is dropped, and so is one that is not well formed.

use crate::codec::{base64_bytes, base64_text, decode_standard, encode_standard};
use crate::keyed::{lemma_remove_keeps_distinct, texts};
use crate::message::{
    addressee, stamped, sync_message, sync_message_for, JoinPayload, JoinView, MessageView,
    ServerMessage, ServerMessageView, SignalingMessage, SyncUpdatePayload, SyncUpdateView,
};
use crate::registry::{
    broadcast_recipients, recipient_views, ChannelId, PeerRegistry, Recipient, RecipientView,
};
use crate::room::{copy_bytes, RoomState, RoomStateView, RoomStore, StoreView};
use vstd::prelude::*;

verus! {

/// Something for the caller to send.
#[derive(Clone, Debug, PartialEq, Eq)]
pub enum Action {
    /// One message to one client.
    Unicast { to: Recipient, message: SignalingMessage },
    /// One message to each of the clients listed. Delivery is best effort: a
    /// failure to reach one of them does not concern the others.
    Broadcast { recipients: Vec<Recipient>, message: SignalingMessage },
    /// One envelope to the other nodes, through the overlay.
    Publish { envelope: ServerMessage },
}

#[verifier::ext_equal]
pub enum ActionView {
    Unicast { to: RecipientView, message: MessageView },
    Broadcast { recipients: Seq<RecipientView>, message: MessageView },
    Publish { envelope: ServerMessageView },
}

impl View for Action {
    type V = ActionView;

    open spec fn view(&self) -> ActionView {
        match *self {
            Action::Unicast { to, message } => ActionView::Unicast { to: to@, message: message@ },
            Action::Broadcast { recipients, message } => ActionView::Broadcast {
                recipients: recipient_views(recipients@),
                message: message@,
            },
            Action::Publish { envelope } => ActionView::Publish { envelope: envelope@ },
        }
    }
}

/// The views of a list of actions, in order.
pub open spec fn action_views(actions: Seq<Action>) -> Seq<ActionView> {
    actions.map_values(|action: Action| action@)
}

/// The base64 text that goes with a room's document: present exactly when
/// the room is flagged as encrypted.
pub open spec fn ciphertext(state: RoomStateView) -> Option<Seq<char>> {
    if state.encrypted {
        Some(base64_text(state.document_state))
    } else {
        None
    }
}

/// The document that an update carries, and whether it came as ciphertext:
/// `decoded` is what the base64 text beside the update stands for, where
/// there is such a text. An update whose text does not decode carries
/// nothing.
pub open spec fn carried_document(update: Seq<u8>, decoded: Option<Option<Seq<u8>>>) -> Option<
    (Seq<u8>, bool),
> {
    match decoded {
        None => Some((update, false)),
        Some(Some(bytes)) => Some((bytes, true)),
        Some(None) => None,
    }
}

/// What the base64 text beside an update stands for, where there is one.
pub open spec fn decoded_text(encrypted_data: Option<Seq<char>>) -> Option<Option<Seq<u8>>> {
    match encrypted_data {
        Some(text) => Some(base64_bytes(text)),
        None => None,
    }
}

/// The state of a relay, as mathematics.
#[verifier::ext_equal]
pub struct RelayView {
    pub store: StoreView,
    pub peers: Map<Seq<char>, ChannelId>,
}

/// A relay's next state together with what it sends on the way there.
#[verifier::ext_equal]
pub struct Step {
    pub next: RelayView,
    pub actions: Seq<ActionView>,
}

impl RelayView {
    pub open spec fn empty() -> RelayView {
        RelayView { store: StoreView::empty(), peers: Map::empty() }
    }

    /// Every member of every room is a registered client.
    pub open spec fn members_registered(self) -> bool {
        forall|id: Seq<char>, member: Seq<char>|
            self.store.rooms.contains_key(id) && #[trigger] self.store.rooms[id].members.contains(
                member,
            ) ==> self.peers.contains_key(member)
    }

    pub open spec fn valid(self) -> bool {
        self.store.valid() && self.members_registered()
    }

    /// The action that sends `message` to every member of room `id` but
    /// `exclude`.
    pub open spec fn broadcast(
        self,
        id: Seq<char>,
        message: MessageView,
        exclude: Option<Seq<char>>,
    ) -> ActionView {
        ActionView::Broadcast {
            recipients: broadcast_recipients(self.peers, self.store.room(id).members, exclude),
            message,
        }
    }

    /// The update that carries the document of room `id` to a client.
    pub open spec fn sync_of(self, id: Seq<char>) -> MessageView {
        let state = self.store.room(id).state();
        sync_message(id, state, ciphertext(state))
    }

    /// A client registers a name. From then on the name is reached through
    /// the client's channel, in place of whoever held the name before.
    /// Nothing is sent.
    pub open spec fn register(self, name: Seq<char>, channel: ChannelId) -> Step {
        Step { next: RelayView { peers: self.peers.insert(name, channel), ..self }, actions: seq![] }
    }

    /// A client joins a room. It is registered and becomes a member; the room
    /// is flagged if the client supplies ciphertext. If the room has a
    /// document, the client receives it first; then the other members receive
    /// the join notice.
    pub open spec fn join(self, sender: Seq<char>, channel: ChannelId, payload: JoinView) -> Step {
        let id = payload.room_id;
        let joined = self.store.add_member(id, sender);
        let next = RelayView {
            store: if payload.encrypted_data is Some {
                joined.mark_encrypted(id)
            } else {
                joined
            },
            peers: self.peers.insert(sender, channel),
        };
        let notice = next.broadcast(id, MessageView::Join(payload), Some(sender));
        let actions = if next.store.room(id).document_state.len() > 0 {
            seq![
                ActionView::Unicast {
                    to: RecipientView { client_id: sender, channel },
                    message: next.sync_of(id),
                },
                notice,
            ]
        } else {
            seq![notice]
        };
        Step { next, actions }
    }

    /// A client writes `document` to a room. The write is stored at the
    /// store's clock; the other members receive the update as the client
    /// sent it, and the overlay receives the room's new state under the time
    /// of the write.
    pub open spec fn sync(
        self,
        sender: Seq<char>,
        payload: SyncUpdateView,
        document: Seq<u8>,
        encrypted: bool,
        now: u64,
    ) -> Step {
        let id = payload.room_id;
        let next = RelayView {
            store: self.store.apply_local(id, document, encrypted, now),
            ..self
        };
        let state = next.store.room(id).state();
        Step {
            next,
            actions: seq![
                next.broadcast(id, MessageView::SyncUpdate(payload), Some(sender)),
                ActionView::Publish {
                    envelope: ServerMessageView::RoomUpdate {
                        room_id: id,
                        room: state,
                        timestamp: state.last_updated,
                    },
                },
            ],
        }
    }

    /// An update as it arrives: stored and passed on if it carries a
    /// document, dropped otherwise.
    pub open spec fn sync_update(
        self,
        sender: Seq<char>,
        payload: SyncUpdateView,
        decoded: Option<Option<Seq<u8>>>,
        now: u64,
    ) -> Step {
        match carried_document(payload.update, decoded) {
            Some((document, encrypted)) => self.sync(sender, payload, document, encrypted, now),
            None => Step { next: self, actions: seq![] },
        }
    }

    /// A client leaves a room. Nobody is told.
    pub open spec fn leave_room(self, sender: Seq<char>, id: Seq<char>) -> Step {
        Step {
            next: RelayView { store: self.store.remove_member(id, sender), ..self },
            actions: seq![],
        }
    }

    /// A client asks for the rooms, and alone receives the list.
    pub open spec fn get_rooms(self, sender: Seq<char>, channel: ChannelId) -> Step {
        Step {
            next: self,
            actions: seq![
                ActionView::Unicast {
                    to: RecipientView { client_id: sender, channel },
                    message: MessageView::RoomList { rooms: self.store.listing() },
                },
            ],
        }
    }

    /// A point-to-point message goes to its addressee, stamped with the
    /// sender's identity, if the addressee is registered; otherwise it is
    /// dropped. Any other message is dropped too.
    pub open spec fn signal(self, sender: Seq<char>, message: MessageView) -> Step {
        match addressee(message) {
            Some(to_peer) if self.peers.contains_key(to_peer) => Step {
                next: self,
                actions: seq![
                    ActionView::Unicast {
                        to: RecipientView { client_id: to_peer, channel: self.peers[to_peer] },
                        message: stamped(message, sender),
                    },
                ],
            },
            _ => Step { next: self, actions: seq![] },
        }
    }

    /// What the relay does with `message` at time `now`. The message comes
    /// from the client whose outbound queue is `channel` and that acts under
    /// the identity `sender`; a registration puts the name that it carries,
    /// not `sender`, into the registry.
    pub open spec fn handle(
        self,
        sender: Seq<char>,
        channel: ChannelId,
        message: MessageView,
        now: u64,
    ) -> Step {
        match message {
            MessageView::Register { peer_id } => self.register(peer_id, channel),
            MessageView::Join(payload) => self.join(sender, channel, payload),
            MessageView::SyncUpdate(payload) => self.sync_update(
                sender,
                payload,
                decoded_text(payload.encrypted_data),
                now,
            ),
            MessageView::LeaveRoom { room_id } => self.leave_room(sender, room_id),
            MessageView::GetRooms => self.get_rooms(sender, channel),
            MessageView::RoomList { .. } => Step { next: self, actions: seq![] },
            _ => self.signal(sender, message),
        }
    }

    /// Another node's write arrives through the overlay. If the store takes
    /// it, every member of the room receives the room's new document.
    pub open spec fn apply_remote(self, envelope: ServerMessageView) -> Step {
        match envelope {
            ServerMessageView::RoomUpdate { room_id, room, timestamp } => {
                if self.store.accepts_remote(room_id, timestamp) {
                    let next = RelayView {
                        store: self.store.apply_remote(
                            room_id,
                            room.document_state,
                            room.encrypted,
                            timestamp,
                        ),
                        ..self
                    };
                    Step {
                        next,
                        actions: seq![next.broadcast(room_id, next.sync_of(room_id), None)],
                    }
                } else {
                    Step { next: self, actions: seq![] }
                }
            },
        }
    }

    /// A client is gone: it is no longer registered and no longer a member of
    /// any room.
    pub open spec fn teardown(self, client: Seq<char>) -> RelayView {
        RelayView { store: self.store.remove_client(client), peers: self.peers.remove(client) }
    }

    /// Each of `names` is gone, one after the other.
    pub open spec fn teardown_all(self, names: Seq<Seq<char>>) -> RelayView
        decreases names.len(),
    {
        if names.len() == 0 {
            self
        } else {
            self.teardown_all(names.drop_last()).teardown(names.last())
        }
    }
}

/// The relay: the room store and the peer registry behind one interface.
pub struct SignalingRelay {
    rooms: RoomStore,
    peers: PeerRegistry,
}

impl View for SignalingRelay {
    type V = RelayView;

    closed spec fn view(&self) -> RelayView {
        RelayView { store: self.rooms@, peers: self.peers@ }
    }
}

impl SignalingRelay {
    /// Store and registry are sound, and every member of every room is
    /// registered.
    pub closed spec fn wf(&self) -> bool {
        &&& self.rooms.wf()
        &&& self.peers.wf()
        &&& self@.members_registered()
    }

    /// A sound relay has a valid view.
    pub proof fn lemma_view_valid(&self)
        requires
            self.wf(),
        ensures
            self@.valid(),
    {
        self.rooms.lemma_view_valid();
    }

    pub fn new() -> (relay: Self)
        ensures
            relay.wf(),
            relay@ == RelayView::empty(),
    {
        SignalingRelay { rooms: RoomStore::new(), peers: PeerRegistry::new() }
    }

    /// The room store, to look into.
    pub fn rooms(&self) -> (rooms: &RoomStore)
        ensures
            rooms@ == self@.store,
            self.wf() ==> rooms.wf(),
    {
        &self.rooms
    }

    /// The peer registry, to look into.
    pub fn peers(&self) -> (peers: &PeerRegistry)
        ensures
            peers@ == self@.peers,
            self.wf() ==> peers.wf(),
    {
        &self.peers
    }

    /// The action that sends `message` to every member of room `room_id` but
    /// `exclude`. The addressees are worked out from a copy of the member
    /// list, taken now.
    pub fn broadcast_to_room(
        &self,
        room_id: &String,
        message: SignalingMessage,
        exclude: Option<&String>,
    ) -> (action: Action)
        requires
            self.wf(),
        ensures
            action@ == self@.broadcast(room_id@, message@, crate::registry::name_view(exclude)),
    {
        let members = self.rooms.members_of(room_id);
        let recipients = self.peers.broadcast_to_room(&members, exclude);
        Action::Broadcast { recipients, message }
    }

    /// Registers `name` as reached through `channel`, the channel of the
    /// client that asks for it. Nothing is sent.
    pub fn handle_register(&mut self, name: &String, channel: ChannelId) -> (actions: Vec<Action>)
        requires
            old(self).wf(),
        ensures
            final(self).wf(),
            final(self)@ == old(self)@.register(name@, channel).next,
            action_views(actions@) == old(self)@.register(name@, channel).actions,
    {
        let ghost before = self@;
        self.peers.register(name, channel);
        assert(self@.store == before.store);
        let actions: Vec<Action> = Vec::new();
        assert(action_views(actions@) =~= Seq::<ActionView>::empty());
        actions
    }

    /// Lets `sender` join the room that `payload` names.
    pub fn handle_join(&mut self, sender: &String, channel: ChannelId, payload: JoinPayload) -> (actions:
        Vec<Action>)
        requires
            old(self).wf(),
        ensures
            final(self).wf(),
            final(self)@ == old(self)@.join(sender@, channel, payload@).next,
            action_views(actions@) == old(self)@.join(sender@, channel, payload@).actions,
    {
        let ghost before = self@;
        self.peers.register(sender, channel);
        self.rooms.add_member(&payload.room_id, sender);
        if payload.encrypted_data.is_some() {
            self.rooms.mark_encrypted(&payload.room_id);
        }
        proof {
            lemma_join_valid(before, sender@, channel, payload@);
        }
        let mut actions: Vec<Action> = Vec::new();
        match self.rooms.get_snapshot(&payload.room_id) {
            Some(state) => {
                if state.document_state.len() > 0 {
                    actions.push(
                        Action::Unicast {
                            to: Recipient { client_id: sender.clone(), channel },
                            message: document_message(&payload.room_id, state),
                        },
                    );
                }
            },
            None => {},
        }
        let ghost notice = payload@;
        let room_id = payload.room_id.clone();
        let action = self.broadcast_to_room(&room_id, SignalingMessage::Join(payload), Some(sender));
        actions.push(action);
        assert(action_views(actions@) =~= before.join(sender@, channel, notice).actions);
        actions
    }

    /// Stores `document` as the new document of the room that `payload`
    /// names and passes the update on. `document` is what the update carries:
    /// `payload.update`, or the bytes that the text beside it stands for, in
    /// which case `encrypted` is set.
    pub fn apply_sync(
        &mut self,
        sender: &String,
        payload: SyncUpdatePayload,
        document: Vec<u8>,
        encrypted: bool,
        now: u64,
    ) -> (actions: Vec<Action>)
        requires
            old(self).wf(),
        ensures
            final(self).wf(),
            final(self)@ == old(self)@.sync(sender@, payload@, document@, encrypted, now).next,
            action_views(actions@) == old(self)@.sync(
                sender@,
                payload@,
                document@,
                encrypted,
                now,
            ).actions,
    {
        let ghost before = self@;
        let ghost update = payload@;
        let room_id = payload.room_id.clone();
        let state = self.rooms.apply_local_update(&room_id, document, encrypted, now);
        proof {
            lemma_write_valid(before, self@, room_id@);
        }
        let mut actions: Vec<Action> = Vec::new();
        let action = self.broadcast_to_room(
            &room_id,
            SignalingMessage::SyncUpdate(payload),
            Some(sender),
        );
        actions.push(action);
        let timestamp: u64 = state.last_updated;
        actions.push(
            Action::Publish { envelope: ServerMessage::RoomUpdate { room_id, room: state, timestamp } },
        );
        assert(action_views(actions@) =~= before.sync(
            sender@,
            update,
            document@,
            encrypted,
            now,
        ).actions);
        actions
    }

    /// Takes an update from `sender`. Where the update comes with base64
    /// text, the document is what that text stands for, and an update whose
    /// text does not decode is dropped.
    pub fn handle_sync_update(&mut self, sender: &String, payload: SyncUpdatePayload, now: u64) -> (actions:
        Vec<Action>)
        requires
            old(self).wf(),
        ensures
            final(self).wf(),
            final(self)@ == old(self)@.sync_update(
                sender@,
                payload@,
                decoded_text(payload@.encrypted_data),
                now,
            ).next,
            action_views(actions@) == old(self)@.sync_update(
                sender@,
                payload@,
                decoded_text(payload@.encrypted_data),
                now,
            ).actions,
    {
        let decoded = match &payload.encrypted_data {
            Some(text) => match decode_standard(text) {
                Ok(bytes) => Some(Some(bytes)),
                Err(_) => Some(None),
            },
            None => None,
        };
        self.sync_update_with(sender, payload, decoded, now)
    }

    /// Takes an update from `sender`, given what the base64 text beside it
    /// stands for: `None` where there is no text, `Some(None)` where the text
    /// does not decode.
    pub fn sync_update_with(
        &mut self,
        sender: &String,
        payload: SyncUpdatePayload,
        decoded: Option<Option<Vec<u8>>>,
        now: u64,
    ) -> (actions: Vec<Action>)
        requires
            old(self).wf(),
        ensures
            final(self).wf(),
            final(self)@ == old(self)@.sync_update(
                sender@,
                payload@,
                bytes_view(decoded),
                now,
            ).next,
            action_views(actions@) == old(self)@.sync_update(
                sender@,
                payload@,
                bytes_view(decoded),
                now,
            ).actions,
    {
        match decoded {
            None => {
                let document = copy_bytes(&payload.update);
                self.apply_sync(sender, payload, document, false, now)
            },
            Some(Some(bytes)) => self.apply_sync(sender, payload, bytes, true, now),
            Some(None) => {
                let actions: Vec<Action> = Vec::new();
                assert(action_views(actions@) =~= Seq::<ActionView>::empty());
                actions
            },
        }
    }

    /// Takes `sender` out of room `room_id`. Nothing is sent.
    pub fn handle_leave_room(&mut self, sender: &String, room_id: &String) -> (actions: Vec<Action>)
        requires
            old(self).wf(),
        ensures
            final(self).wf(),
            final(self)@ == old(self)@.leave_room(sender@, room_id@).next,
            action_views(actions@) == old(self)@.leave_room(sender@, room_id@).actions,
    {
        let ghost before = self@;
        self.rooms.remove_member(room_id, sender);
        proof {
            lemma_leave_valid(before, sender@, room_id@);
        }
        let actions: Vec<Action> = Vec::new();
        assert(action_views(actions@) =~= Seq::<ActionView>::empty());
        actions
    }

    /// Answers `sender` with the list of rooms.
    pub fn handle_get_rooms(&self, sender: &String, channel: ChannelId) -> (actions: Vec<Action>)
        requires
            self.wf(),
        ensures
            action_views(actions@) == self@.get_rooms(sender@, channel).actions,
    {
        let mut actions: Vec<Action> = Vec::new();
        actions.push(
            Action::Unicast {
                to: Recipient { client_id: sender.clone(), channel },
                message: SignalingMessage::RoomList { rooms: self.rooms.list_rooms() },
            },
        );
        assert(action_views(actions@) =~= self@.get_rooms(sender@, channel).actions);
        actions
    }

    /// Passes an offer, an answer or a candidate on to its addressee, with
    /// `sender` written in as the peer it comes from and nothing else
    /// changed. A message to a peer that is not registered is dropped, and
    /// the sender is not told.
    pub fn relay_signal(&self, sender: &String, message: SignalingMessage) -> (actions: Vec<Action>)
        requires
            self.wf(),
        ensures
            action_views(actions@) == self@.signal(sender@, message@).actions,
    {
        let mut actions: Vec<Action> = Vec::new();
        let ghost given = message@;
        let (to_peer, stamped_message) = match message {
            SignalingMessage::Offer { sdp, from_peer, to_peer } => (
                to_peer.clone(),
                SignalingMessage::Offer { sdp, from_peer: sender.clone(), to_peer },
            ),
            SignalingMessage::Answer { sdp, from_peer, to_peer } => (
                to_peer.clone(),
                SignalingMessage::Answer { sdp, from_peer: sender.clone(), to_peer },
            ),
            SignalingMessage::IceCandidate { candidate, from_peer, to_peer } => (
                to_peer.clone(),
                SignalingMessage::IceCandidate { candidate, from_peer: sender.clone(), to_peer },
            ),
            _ => {
                assert(action_views(actions@) =~= Seq::<ActionView>::empty());
                return actions;
            },
        };
        assert(stamped_message@ == stamped(given, sender@));
        match self.peers.lookup(&to_peer) {
            Some(channel) => {
                actions.push(
                    Action::Unicast {
                        to: Recipient { client_id: to_peer, channel },
                        message: stamped_message,
                    },
                );
                assert(action_views(actions@) =~= self@.signal(sender@, given).actions);
            },
            None => {
                assert(action_views(actions@) =~= Seq::<ActionView>::empty());
            },
        }
        actions
    }

    /// Does what `message` from `sender` asks for and returns what has to be
    /// sent, in order.
    pub fn handle_message(
        &mut self,
        sender: &String,
        channel: ChannelId,
        message: SignalingMessage,
        now: u64,
    ) -> (actions: Vec<Action>)
        requires
            old(self).wf(),
        ensures
            final(self).wf(),
            final(self)@ == old(self)@.handle(sender@, channel, message@, now).next,
            action_views(actions@) == old(self)@.handle(sender@, channel, message@, now).actions,
    {
        match message {
            SignalingMessage::Register { peer_id } => self.handle_register(&peer_id, channel),
            SignalingMessage::Join(payload) => self.handle_join(sender, channel, payload),
            SignalingMessage::SyncUpdate(payload) => self.handle_sync_update(sender, payload, now),
            SignalingMessage::LeaveRoom { room_id } => self.handle_leave_room(sender, &room_id),
            SignalingMessage::GetRooms => self.handle_get_rooms(sender, channel),
            SignalingMessage::RoomList { rooms } => {
                let actions: Vec<Action> = Vec::new();
                assert(action_views(actions@) =~= Seq::<ActionView>::empty());
                actions
            },
            other => self.relay_signal(sender, other),
        }
    }

    /// Merges a write that another node has published. If the store takes it,
    /// the room's members receive the new document.
    pub fn apply_remote(&mut self, envelope: ServerMessage) -> (actions: Vec<Action>)
        requires
            old(self).wf(),
        ensures
            final(self).wf(),
            final(self)@ == old(self)@.apply_remote(envelope@).next,
            action_views(actions@) == old(self)@.apply_remote(envelope@).actions,
    {
        let ghost before = self@;
        let mut actions: Vec<Action> = Vec::new();
        match envelope {
            ServerMessage::RoomUpdate { room_id, room, timestamp } => {
                if self.rooms.apply_remote_update(&room_id, &room, timestamp) {
                    proof {
                        lemma_write_valid(before, self@, room_id@);
                    }
                    match self.rooms.get_snapshot(&room_id) {
                        Some(state) => {
                            let message = document_message(&room_id, state);
                            let action = self.broadcast_to_room(&room_id, message, None);
                            actions.push(action);
                        },
                        None => {},
                    }
                    assert(action_views(actions@) =~= before.apply_remote(envelope@).actions);
                } else {
                    assert(action_views(actions@) =~= Seq::<ActionView>::empty());
                }
            },
        }
        actions
    }

    /// Forgets `client`: it is unregistered and leaves every room. Doing so
    /// again changes nothing.
    pub fn teardown(&mut self, client: &String)
        requires
            old(self).wf(),
        ensures
            final(self).wf(),
            final(self)@ == old(self)@.teardown(client@),
    {
        let ghost before = self@;
        proof {
            self.lemma_view_valid();
        }
        self.peers.unregister(client);
        self.rooms.remove_client(client);
        proof {
            lemma_teardown_valid(before, client@);
        }
    }

    /// Forgets each of `names`, one after the other.
    pub fn teardown_all(&mut self, names: &Vec<String>)
        requires
            old(self).wf(),
        ensures
            final(self).wf(),
            final(self)@ == old(self)@.teardown_all(texts(names@)),
    {
        let ghost before = self@;
        let mut i: usize = 0;
        assert(texts(names@).take(0) =~= Seq::<Seq<char>>::empty());
        while i < names.len()
            invariant
                self.wf(),
                i <= names.len(),
                self@ == before.teardown_all(texts(names@).take(i as int)),
            decreases names.len() - i,
        {
            proof {
                let upto = texts(names@).take(i + 1);
                assert(upto.drop_last() =~= texts(names@).take(i as int));
                assert(upto.last() == names[i as int]@);
            }
            self.teardown(&names[i]);
            i += 1;
        }
        assert(texts(names@).take(names.len() as int) =~= texts(names@));
    }
}

/// Builds the update that carries a room's document to a client, with the
/// document's base64 text beside it if the room is flagged as encrypted.
pub fn document_message(room_id: &String, state: RoomState) -> (message: SignalingMessage)
    ensures
        message@ == sync_message(room_id@, state@, ciphertext(state@)),
{
    let text = if state.encrypted {
        Some(encode_standard(&state.document_state))
    } else {
        None
    };
    sync_message_for(room_id, state, text)
}

/// The views of what a base64 text was found to stand for.
pub open spec fn bytes_view(decoded: Option<Option<Vec<u8>>>) -> Option<Option<Seq<u8>>> {
    match decoded {
        Some(Some(bytes)) => Some(Some(bytes@)),
        Some(None) => Some(None),
        None => None,
    }
}

/// Joining keeps every member registered.
pub proof fn lemma_join_valid(
    relay: RelayView,
    sender: Seq<char>,
    channel: ChannelId,
    payload: JoinView,
)
    requires
        relay.members_registered(),
    ensures
        relay.join(sender, channel, payload).next.members_registered(),
        relay.join(sender, channel, payload).next.store.rooms.contains_key(payload.room_id),
{
    let next = relay.join(sender, channel, payload).next;
    assert forall|id: Seq<char>, member: Seq<char>|
        next.store.rooms.contains_key(id) && #[trigger] next.store.rooms[id].members.contains(
            member,
        ) implies next.peers.contains_key(member) by {
        if id == payload.room_id {
            let old_members = relay.store.room(id).members;
            if member != sender {
                if !old_members.contains(member) {
                    let k = choose|k: int|
                        0 <= k < next.store.rooms[id].members.len()
                            && next.store.rooms[id].members[k] == member;
                    assert(old_members.push(sender)[k] == member);
                    assert(old_members[k] == member);
                }
                assert(relay.store.rooms.contains_key(id));
                assert(relay.store.rooms[id].members.contains(member));
            }
        } else {
            assert(relay.store.rooms.contains_key(id));
            assert(relay.store.rooms[id].members.contains(member));
        }
    }
}

/// Leaving a room keeps every member registered.
pub proof fn lemma_leave_valid(relay: RelayView, sender: Seq<char>, id: Seq<char>)
    requires
        relay.members_registered(),
    ensures
        relay.leave_room(sender, id).next.members_registered(),
{
    let next = relay.leave_room(sender, id).next;
    assert forall|room: Seq<char>, member: Seq<char>|
        next.store.rooms.contains_key(room) && #[trigger] next.store.rooms[room].members.contains(
            member,
        ) implies next.peers.contains_key(member) by {
        assert(relay.store.rooms.contains_key(room));
        if room == id && relay.store.rooms[room].members.contains(sender) {
            lemma_leave_subset(relay.store.rooms[room].members, sender, member);
        }
        assert(relay.store.rooms[room].members.contains(member));
    }
}

/// A write to room `id` that leaves every member list as it was keeps every
/// member registered.
pub proof fn lemma_write_valid(before: RelayView, after: RelayView, id: Seq<char>)
    requires
        before.members_registered(),
        after.peers == before.peers,
        after.store.rooms.dom() == before.store.rooms.dom().insert(id),
        forall|room: Seq<char>| #[trigger]
            after.store.rooms.contains_key(room) ==> after.store.rooms[room].members
                == before.store.room(room).members,
    ensures
        after.members_registered(),
        after.store.rooms.contains_key(id),
{
    assert(before.store.rooms.dom().insert(id).contains(id));
    assert forall|room: Seq<char>, member: Seq<char>|
        after.store.rooms.contains_key(room) && #[trigger] after.store.rooms[room].members.contains(
            member,
        ) implies after.peers.contains_key(member) by {
        if before.store.rooms.contains_key(room) {
            assert(before.store.rooms[room].members.contains(member));
        }
    }
}

/// Whoever is a member after `client` has left was a member before.
pub proof fn lemma_leave_subset(members: Seq<Seq<char>>, client: Seq<char>, member: Seq<char>)
    requires
        members.contains(client),
        members.remove(members.index_of(client)).contains(member),
    ensures
        members.contains(member),
{
    let i = members.index_of(client);
    let left = members.remove(i);
    let k = choose|k: int| 0 <= k < left.len() && left[k] == member;
    assert(members[if k < i { k } else { k + 1 }] == member);
}

/// Teardown keeps a valid relay valid, and the client is gone from it.
pub proof fn lemma_teardown_valid(relay: RelayView, client: Seq<char>)
    requires
        relay.valid(),
    ensures
        relay.teardown(client).valid(),
        !relay.teardown(client).peers.contains_key(client),
        forall|id: Seq<char>| #[trigger]
            relay.teardown(client).store.rooms.contains_key(id) ==> !relay.teardown(
                client,
            ).store.rooms[id].members.contains(client),
{
    let next = relay.teardown(client);
    assert(next.store.rooms.dom() =~= relay.store.rooms.dom());
    assert forall|id: Seq<char>| #[trigger] next.store.rooms.contains_key(id) implies next.store.rooms[id].valid()
        && next.store.rooms[id].last_updated <= next.store.clock && !next.store.rooms[id].members.contains(
        client,
    ) by {
        assert(relay.store.rooms.contains_key(id));
        let members = relay.store.rooms[id].members;
        if members.contains(client) {
            lemma_remove_keeps_distinct(members, members.index_of(client));
        }
    }
    assert forall|id: Seq<char>, member: Seq<char>|
        next.store.rooms.contains_key(id) && #[trigger] next.store.rooms[id].members.contains(
            member,
        ) implies next.peers.contains_key(member) by {
        assert(relay.store.rooms.contains_key(id));
        let members = relay.store.rooms[id].members;
        if members.contains(client) {
            lemma_remove_keeps_distinct(members, members.index_of(client));
            lemma_leave_subset(members, client, member);
        }
        assert(relay.store.rooms[id].members.contains(member));
    }
}

} // verus!
