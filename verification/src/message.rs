//! The messages of the client protocol and of replication between nodes.

use crate::room::{info_views, RoomInfo, RoomInfoView, RoomState, RoomStateView};
use vstd::prelude::*;

verus! {

/// The characters of an optional text.
pub open spec fn text_view(text: Option<String>) -> Option<Seq<char>> {
    match text {
        Some(text) => Some(text@),
        None => None,
    }
}

/// A client's request to join a room; it is also the notice that the room's
/// other members receive.
#[derive(Clone, Debug, PartialEq, Eq)]
pub struct JoinPayload {
    pub user_id: u64,
    pub user_color: String,
    pub room_id: String,
    /// Base64 text of ciphertext, where the client encrypts.
    pub encrypted_data: Option<String>,
}

#[verifier::ext_equal]
pub struct JoinView {
    pub user_id: u64,
    pub user_color: Seq<char>,
    pub room_id: Seq<char>,
    pub encrypted_data: Option<Seq<char>>,
}

impl View for JoinPayload {
    type V = JoinView;

    open spec fn view(&self) -> JoinView {
        JoinView {
            user_id: self.user_id,
            user_color: self.user_color@,
            room_id: self.room_id@,
            encrypted_data: text_view(self.encrypted_data),
        }
    }
}

/// A new document for a room.
#[derive(Clone, Debug, PartialEq, Eq)]
pub struct SyncUpdatePayload {
    pub update: Vec<u8>,
    pub room_id: String,
    /// Base64 text of the document as ciphertext, where the client encrypts.
    pub encrypted_data: Option<String>,
}

#[verifier::ext_equal]
pub struct SyncUpdateView {
    pub update: Seq<u8>,
    pub room_id: Seq<char>,
    pub encrypted_data: Option<Seq<char>>,
}

impl View for SyncUpdatePayload {
    type V = SyncUpdateView;

    open spec fn view(&self) -> SyncUpdateView {
        SyncUpdateView {
            update: self.update@,
            room_id: self.room_id@,
            encrypted_data: text_view(self.encrypted_data),
        }
    }
}

/// A message between a client and the relay.
#[derive(Clone, Debug, PartialEq, Eq)]
pub enum SignalingMessage {
    Join(JoinPayload),
    SyncUpdate(SyncUpdatePayload),
    LeaveRoom { room_id: String },
    GetRooms,
    RoomList { rooms: Vec<RoomInfo> },
    Register { peer_id: String },
    Offer { sdp: String, from_peer: String, to_peer: String },
    Answer { sdp: String, from_peer: String, to_peer: String },
    IceCandidate { candidate: String, from_peer: String, to_peer: String },
}

#[verifier::ext_equal]
pub enum MessageView {
    Join(JoinView),
    SyncUpdate(SyncUpdateView),
    LeaveRoom { room_id: Seq<char> },
    GetRooms,
    RoomList { rooms: Seq<RoomInfoView> },
    Register { peer_id: Seq<char> },
    Offer { sdp: Seq<char>, from_peer: Seq<char>, to_peer: Seq<char> },
    Answer { sdp: Seq<char>, from_peer: Seq<char>, to_peer: Seq<char> },
    IceCandidate { candidate: Seq<char>, from_peer: Seq<char>, to_peer: Seq<char> },
}

impl View for SignalingMessage {
    type V = MessageView;

    open spec fn view(&self) -> MessageView {
        match *self {
            SignalingMessage::Join(payload) => MessageView::Join(payload@),
            SignalingMessage::SyncUpdate(payload) => MessageView::SyncUpdate(payload@),
            SignalingMessage::LeaveRoom { room_id } => MessageView::LeaveRoom { room_id: room_id@ },
            SignalingMessage::GetRooms => MessageView::GetRooms,
            SignalingMessage::RoomList { rooms } => MessageView::RoomList {
                rooms: info_views(rooms@),
            },
            SignalingMessage::Register { peer_id } => MessageView::Register { peer_id: peer_id@ },
            SignalingMessage::Offer { sdp, from_peer, to_peer } => MessageView::Offer {
                sdp: sdp@,
                from_peer: from_peer@,
                to_peer: to_peer@,
            },
            SignalingMessage::Answer { sdp, from_peer, to_peer } => MessageView::Answer {
                sdp: sdp@,
                from_peer: from_peer@,
                to_peer: to_peer@,
            },
            SignalingMessage::IceCandidate {
                candidate,
                from_peer,
                to_peer,
            } => MessageView::IceCandidate {
                candidate: candidate@,
                from_peer: from_peer@,
                to_peer: to_peer@,
            },
        }
    }
}

/// What one node tells the others through the overlay.
#[derive(Clone, Debug, PartialEq, Eq)]
pub enum ServerMessage {
    RoomUpdate { room_id: String, room: RoomState, timestamp: u64 },
}

#[verifier::ext_equal]
pub enum ServerMessageView {
    RoomUpdate { room_id: Seq<char>, room: RoomStateView, timestamp: u64 },
}

impl View for ServerMessage {
    type V = ServerMessageView;

    open spec fn view(&self) -> ServerMessageView {
        match *self {
            ServerMessage::RoomUpdate { room_id, room, timestamp } => ServerMessageView::RoomUpdate {
                room_id: room_id@,
                room: room@,
                timestamp,
            },
        }
    }
}

/// The update that carries a room's document to a client: the document as
/// it is stored, and beside it `ciphertext`, the document's base64 text,
/// which the caller supplies for a room that is flagged as encrypted.
pub open spec fn sync_message(
    room_id: Seq<char>,
    state: RoomStateView,
    ciphertext: Option<Seq<char>>,
) -> MessageView {
    MessageView::SyncUpdate(
        SyncUpdateView { update: state.document_state, room_id, encrypted_data: ciphertext },
    )
}

/// Builds the update that carries a room's document to a client.
pub fn sync_message_for(room_id: &String, state: RoomState, ciphertext: Option<String>) -> (message:
    SignalingMessage)
    ensures
        message@ == sync_message(room_id@, state@, text_view(ciphertext)),
{
    SignalingMessage::SyncUpdate(
        SyncUpdatePayload {
            update: state.document_state,
            room_id: room_id.clone(),
            encrypted_data: ciphertext,
        },
    )
}

/// A point-to-point message as its addressee receives it: the same message
/// with `sender` in place of whatever the sender wrote as its own name.
pub open spec fn stamped(message: MessageView, sender: Seq<char>) -> MessageView {
    match message {
        MessageView::Offer { sdp, from_peer, to_peer } => MessageView::Offer {
            sdp,
            from_peer: sender,
            to_peer,
        },
        MessageView::Answer { sdp, from_peer, to_peer } => MessageView::Answer {
            sdp,
            from_peer: sender,
            to_peer,
        },
        MessageView::IceCandidate { candidate, from_peer, to_peer } => MessageView::IceCandidate {
            candidate,
            from_peer: sender,
            to_peer,
        },
        other => other,
    }
}

/// The addressee of a point-to-point message; `None` for the other messages.
pub open spec fn addressee(message: MessageView) -> Option<Seq<char>> {
    match message {
        MessageView::Offer { to_peer, .. } => Some(to_peer),
        MessageView::Answer { to_peer, .. } => Some(to_peer),
        MessageView::IceCandidate { to_peer, .. } => Some(to_peer),
        _ => None,
    }
}

/// The name that a message registers; `None` for a message that registers
/// nothing.
pub open spec fn registered_name(message: MessageView) -> Option<Seq<char>> {
    match message {
        MessageView::Register { peer_id } => Some(peer_id),
        _ => None,
    }
}

/// Whether a message is point-to-point: an offer, an answer or a candidate.
pub fn is_signal(message: &SignalingMessage) -> (signal: bool)
    ensures
        signal == (addressee(message@) is Some),
{
    match message {
        SignalingMessage::Offer { .. } => true,
        SignalingMessage::Answer { .. } => true,
        SignalingMessage::IceCandidate { .. } => true,
        _ => false,
    }
}

/// A copy of the name that a message registers, if it registers one.
pub fn name_to_register(message: &SignalingMessage) -> (name: Option<String>)
    ensures
        text_view(name) == registered_name(message@),
{
    match message {
        SignalingMessage::Register { peer_id } => Some(peer_id.clone()),
        _ => None,
    }
}

} // verus!
