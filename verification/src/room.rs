//! Rooms and the store that holds them.
//!
//! A room is a named document: an opaque blob of bytes, a flag that says
//! whether any contributor has supplied ciphertext, the logical time of the
//! last accepted write, and the set of local clients that have joined. The
//! store merges local and remote writes by last-writer-wins on that time.
//!
//! The store keeps a room, with its document, after its last member has left,
//! so that a later joiner still receives the document. Nothing here removes a
//! room.

use crate::keyed::{StrMap, StrSet};
use vstd::prelude::*;

verus! {

/// What a room is, as mathematics.
#[verifier::ext_equal]
pub struct RoomView {
    /// The joined clients, in the order in which they joined.
    pub members: Seq<Seq<char>>,
    pub document_state: Seq<u8>,
    pub encrypted: bool,
    pub last_updated: u64,
}

/// The projection of a room that leaves the node.
#[verifier::ext_equal]
pub struct RoomStateView {
    pub document_state: Seq<u8>,
    pub encrypted: bool,
    pub last_updated: u64,
    pub peer_count: nat,
}

/// One line of a room listing.
#[verifier::ext_equal]
pub struct RoomInfoView {
    pub room_id: Seq<char>,
    pub peer_count: nat,
    pub encrypted: bool,
}

impl RoomView {
    /// The room that nobody has written to or joined.
    pub open spec fn empty() -> RoomView {
        RoomView {
            members: Seq::empty(),
            document_state: Seq::empty(),
            encrypted: false,
            last_updated: 0,
        }
    }

    pub open spec fn valid(self) -> bool {
        self.members.no_duplicates()
    }

    pub open spec fn state(self) -> RoomStateView {
        RoomStateView {
            document_state: self.document_state,
            encrypted: self.encrypted,
            last_updated: self.last_updated,
            peer_count: self.members.len(),
        }
    }

    pub open spec fn info(self, room_id: Seq<char>) -> RoomInfoView {
        RoomInfoView { room_id, peer_count: self.members.len(), encrypted: self.encrypted }
    }

    /// The room after `client` has joined: a client that is already a member
    /// keeps its place.
    pub open spec fn join(self, client: Seq<char>) -> RoomView {
        RoomView {
            members: if self.members.contains(client) {
                self.members
            } else {
                self.members.push(client)
            },
            ..self
        }
    }

    /// The room after `client` has left.
    pub open spec fn leave(self, client: Seq<char>) -> RoomView {
        RoomView {
            members: if self.members.contains(client) {
                self.members.remove(self.members.index_of(client))
            } else {
                self.members
            },
            ..self
        }
    }

    /// The room after a write of `document` at logical time `at`.
    pub open spec fn written(self, document: Seq<u8>, encrypted: bool, at: u64) -> RoomView {
        RoomView {
            document_state: document,
            encrypted: self.encrypted || encrypted,
            last_updated: at,
            ..self
        }
    }
}

/// The later of two logical times.
pub open spec fn later(a: u64, b: u64) -> u64 {
    if a >= b {
        a
    } else {
        b
    }
}

/// What a store is, as mathematics.
#[verifier::ext_equal]
pub struct StoreView {
    pub rooms: Map<Seq<char>, RoomView>,
    /// The room names, in the order in which the store first saw them.
    pub order: Seq<Seq<char>>,
    /// The logical clock: no room was written later than this.
    pub clock: u64,
}

impl StoreView {
    pub open spec fn empty() -> StoreView {
        StoreView { rooms: Map::empty(), order: Seq::empty(), clock: 0 }
    }

    pub open spec fn valid(self) -> bool {
        &&& self.order.no_duplicates()
        &&& self.rooms.dom() == self.order.to_set()
        &&& forall|id: Seq<char>| #[trigger]
            self.rooms.contains_key(id) ==> self.rooms[id].valid() && self.rooms[id].last_updated
                <= self.clock
    }

    /// The room called `id`; a room that the store has not seen is empty.
    pub open spec fn room(self, id: Seq<char>) -> RoomView {
        if self.rooms.contains_key(id) {
            self.rooms[id]
        } else {
            RoomView::empty()
        }
    }

    /// The store with `room` under `id`; a new name goes to the end.
    pub open spec fn put(self, id: Seq<char>, room: RoomView) -> StoreView {
        StoreView {
            rooms: self.rooms.insert(id, room),
            order: if self.rooms.contains_key(id) {
                self.order
            } else {
                self.order.push(id)
            },
            clock: self.clock,
        }
    }

    pub open spec fn add_member(self, id: Seq<char>, client: Seq<char>) -> StoreView {
        self.put(id, self.room(id).join(client))
    }

    /// A client leaves a room. The room stays, with its document, even when
    /// it has no member left; leaving a room that the store has not seen
    /// changes nothing.
    pub open spec fn remove_member(self, id: Seq<char>, client: Seq<char>) -> StoreView {
        if self.rooms.contains_key(id) {
            self.put(id, self.rooms[id].leave(client))
        } else {
            self
        }
    }

    /// A client leaves every room.
    pub open spec fn remove_client(self, client: Seq<char>) -> StoreView {
        StoreView {
            rooms: Map::new(
                |id: Seq<char>| self.rooms.contains_key(id),
                |id: Seq<char>| self.rooms[id].leave(client),
            ),
            ..self
        }
    }

    pub open spec fn mark_encrypted(self, id: Seq<char>) -> StoreView {
        self.put(id, RoomView { encrypted: true, ..self.room(id) })
    }

    /// A local write: the clock moves to `now` unless it is already later, and
    /// the room takes the document at the clock's new time.
    pub open spec fn apply_local(
        self,
        id: Seq<char>,
        document: Seq<u8>,
        encrypted: bool,
        now: u64,
    ) -> StoreView {
        let at = later(self.clock, now);
        StoreView { clock: at, ..self.put(id, self.room(id).written(document, encrypted, at)) }
    }

    /// Whether a remote write stamped `timestamp` wins over what is stored.
    pub open spec fn accepts_remote(self, id: Seq<char>, timestamp: u64) -> bool {
        !self.rooms.contains_key(id) || timestamp > self.rooms[id].last_updated
    }

    /// A remote write: taken if it wins, and then the clock does not stay
    /// behind it; otherwise nothing changes.
    pub open spec fn apply_remote(
        self,
        id: Seq<char>,
        document: Seq<u8>,
        encrypted: bool,
        timestamp: u64,
    ) -> StoreView {
        if self.accepts_remote(id, timestamp) {
            StoreView {
                clock: later(self.clock, timestamp),
                ..self.put(id, self.room(id).written(document, encrypted, timestamp))
            }
        } else {
            self
        }
    }

    /// The listing of all rooms, in the store's order.
    pub open spec fn listing(self) -> Seq<RoomInfoView> {
        Seq::new(self.order.len(), |i: int| self.rooms[self.order[i]].info(self.order[i]))
    }
}

/// The state of one room as it is handed out and replicated.
#[derive(Clone, Debug, PartialEq, Eq)]
pub struct RoomState {
    pub document_state: Vec<u8>,
    pub encrypted: bool,
    pub last_updated: u64,
    pub peer_count: usize,
}

impl View for RoomState {
    type V = RoomStateView;

    open spec fn view(&self) -> RoomStateView {
        RoomStateView {
            document_state: self.document_state@,
            encrypted: self.encrypted,
            last_updated: self.last_updated,
            peer_count: self.peer_count as nat,
        }
    }
}

/// One line of a room listing.
#[derive(Clone, Debug, PartialEq, Eq)]
pub struct RoomInfo {
    pub room_id: String,
    pub peer_count: usize,
    pub encrypted: bool,
}

impl View for RoomInfo {
    type V = RoomInfoView;

    open spec fn view(&self) -> RoomInfoView {
        RoomInfoView {
            room_id: self.room_id@,
            peer_count: self.peer_count as nat,
            encrypted: self.encrypted,
        }
    }
}

/// The views of a listing's lines, in order.
pub open spec fn info_views(infos: Seq<RoomInfo>) -> Seq<RoomInfoView> {
    infos.map_values(|info: RoomInfo| info@)
}

/// A copy of `bytes`.
pub fn copy_bytes(bytes: &Vec<u8>) -> (copy: Vec<u8>)
    ensures
        copy@ == bytes@,
{
    bytes.clone()
}

/// A room with its local members.
pub struct Room {
    pub members: StrSet,
    pub document_state: Vec<u8>,
    pub encrypted: bool,
    pub last_updated: u64,
}

impl View for Room {
    type V = RoomView;

    open spec fn view(&self) -> RoomView {
        RoomView {
            members: self.members.seq(),
            document_state: self.document_state@,
            encrypted: self.encrypted,
            last_updated: self.last_updated,
        }
    }
}

impl Default for Room {
    fn default() -> (room: Room)
        ensures
            room@ == RoomView::empty(),
            room.wf(),
    {
        Room {
            members: StrSet::new(),
            document_state: Vec::new(),
            encrypted: false,
            last_updated: 0,
        }
    }
}

impl Room {
    pub open spec fn wf(&self) -> bool {
        self.members.wf()
    }

    /// The room's state as it is handed out: the document, the flag, the time
    /// of the last write and the number of local members.
    pub fn to_state(&self) -> (state: RoomState)
        ensures
            state@ == self@.state(),
    {
        RoomState {
            document_state: copy_bytes(&self.document_state),
            encrypted: self.encrypted,
            last_updated: self.last_updated,
            peer_count: self.members.len(),
        }
    }
}

/// The views of the rooms of a table, under the same names.
pub open spec fn room_views(rooms: Map<Seq<char>, Room>) -> Map<Seq<char>, RoomView> {
    Map::new(|id: Seq<char>| rooms.contains_key(id), |id: Seq<char>| rooms[id]@)
}

/// The authoritative state of every room that this node has seen.
pub struct RoomStore {
    rooms: StrMap<Room>,
    clock: u64,
}

impl View for RoomStore {
    type V = StoreView;

    closed spec fn view(&self) -> StoreView {
        StoreView { rooms: room_views(self.rooms@), order: self.rooms.keys(), clock: self.clock }
    }
}

impl RoomStore {
    /// The table is sound, every room's member list is, and no room was
    /// written later than the clock.
    pub closed spec fn wf(&self) -> bool {
        &&& self.rooms.wf()
        &&& forall|id: Seq<char>| #[trigger]
            self.rooms@.contains_key(id) ==> self.rooms@[id].wf() && self.rooms@[id].last_updated
                <= self.clock
    }

    /// A sound store has a valid view.
    pub proof fn lemma_view_valid(&self)
        requires
            self.wf(),
        ensures
            self@.valid(),
    {
        assert(self@.rooms.dom() =~= self@.order.to_set());
        assert forall|id: Seq<char>| #[trigger] self@.rooms.contains_key(id) implies self@.rooms[id].valid()
            && self@.rooms[id].last_updated <= self@.clock by {
            assert(self.rooms@.contains_key(id));
        }
    }

    pub fn new() -> (store: Self)
        ensures
            store.wf(),
            store@ == StoreView::empty(),
    {
        let store = RoomStore { rooms: StrMap::new(), clock: 0 };
        assert(store@.rooms =~= Map::empty());
        store
    }

    /// The logical clock.
    pub fn clock(&self) -> (clock: u64)
        ensures
            clock == self@.clock,
    {
        self.clock
    }

    /// The state of room `room_id`, if the store has seen that room.
    pub fn get_snapshot(&self, room_id: &String) -> (state: Option<RoomState>)
        requires
            self.wf(),
        ensures
            match state {
                Some(state) => self@.rooms.contains_key(room_id@) && state@
                    == self@.rooms[room_id@].state(),
                None => !self@.rooms.contains_key(room_id@),
            },
    {
        match self.rooms.get(room_id) {
            Some(room) => Some(room.to_state()),
            None => None,
        }
    }

    /// A copy of the members of room `room_id`, in the order in which they
    /// joined; empty for a room that the store has not seen.
    pub fn members_of(&self, room_id: &String) -> (members: Vec<String>)
        requires
            self.wf(),
        ensures
            crate::keyed::texts(members@) == self@.room(room_id@).members,
    {
        match self.rooms.get(room_id) {
            Some(room) => room.members.snapshot(),
            None => {
                let members: Vec<String> = Vec::new();
                assert(crate::keyed::texts(members@) =~= Seq::<Seq<char>>::empty());
                members
            },
        }
    }

    /// Every room with the number of its local members and its flag, in the
    /// order in which the store first saw the rooms.
    pub fn list_rooms(&self) -> (rooms: Vec<RoomInfo>)
        requires
            self.wf(),
        ensures
            info_views(rooms@) == self@.listing(),
    {
        let mut rooms: Vec<RoomInfo> = Vec::new();
        let mut i: usize = 0;
        while i < self.rooms.len()
            invariant
                self.wf(),
                i <= self.rooms.keys().len(),
                rooms.len() == i,
                forall|j: int| 0 <= j < i ==> (#[trigger] rooms@[j])@ == self@.listing()[j],
            decreases self.rooms.keys().len() - i,
        {
            let room = self.rooms.value_at(i);
            let info = RoomInfo {
                room_id: self.rooms.key_at(i).clone(),
                peer_count: room.members.len(),
                encrypted: room.encrypted,
            };
            proof {
                crate::keyed::lemma_index_of_distinct(self.rooms.keys(), i as int);
            }
            rooms.push(info);
            i += 1;
        }
        assert(info_views(rooms@) =~= self@.listing());
        rooms
    }

    /// Puts `client` into room `room_id`, which comes into being if the store
    /// has not seen it.
    pub fn add_member(&mut self, room_id: &String, client: &String)
        requires
            old(self).wf(),
        ensures
            final(self).wf(),
            final(self)@ == old(self)@.add_member(room_id@, client@),
    {
        let ghost before = *self;
        match self.rooms.find(room_id) {
            Some(i) => {
                proof {
                    self.rooms.lemma_entry_at(i as int);
                }
                let room = self.rooms.value_at_mut(i);
                room.members.insert(client.clone());
                proof {
                    crate::keyed::lemma_update_view(
                        before.rooms,
                        self.rooms,
                        i as int,
                        self.rooms.values()[i as int],
                    );
                }
            },
            None => {
                let mut room = Room::default();
                room.members.insert(client.clone());
                self.rooms.insert(room_id.clone(), room);
            },
        }
        proof {
            assert(self@.rooms =~= before@.add_member(room_id@, client@).rooms);
        }
    }

    /// Takes `client` out of room `room_id`. The room and its document stay.
    pub fn remove_member(&mut self, room_id: &String, client: &String)
        requires
            old(self).wf(),
        ensures
            final(self).wf(),
            final(self)@ == old(self)@.remove_member(room_id@, client@),
    {
        let ghost before = *self;
        match self.rooms.find(room_id) {
            Some(i) => {
                proof {
                    self.rooms.lemma_entry_at(i as int);
                }
                let room = self.rooms.value_at_mut(i);
                room.members.remove(client);
                proof {
                    crate::keyed::lemma_update_view(
                        before.rooms,
                        self.rooms,
                        i as int,
                        self.rooms.values()[i as int],
                    );
                    assert(self@.rooms =~= before@.remove_member(room_id@, client@).rooms);
                }
            },
            None => {},
        }
    }

    /// Takes `client` out of every room.
    pub fn remove_client(&mut self, client: &String)
        requires
            old(self).wf(),
        ensures
            final(self).wf(),
            final(self)@ == old(self)@.remove_client(client@),
    {
        let ghost before = *self;
        let mut i: usize = 0;
        while i < self.rooms.len()
            invariant
                before.wf(),
                self.wf(),
                self.clock == before.clock,
                self.rooms.keys() == before.rooms.keys(),
                i <= self.rooms.keys().len(),
                forall|j: int|
                    0 <= j < i ==> (#[trigger] self.rooms.values()[j])@
                        == before.rooms.values()[j]@.leave(client@),
                forall|j: int|
                    i <= j < self.rooms.keys().len() ==> #[trigger] self.rooms.values()[j]
                        == before.rooms.values()[j],
            decreases self.rooms.keys().len() - i,
        {
            let ghost prior = self.rooms;
            proof {
                self.rooms.lemma_entry_at(i as int);
            }
            let room = self.rooms.value_at_mut(i);
            room.members.remove(client);
            proof {
                crate::keyed::lemma_update_view(
                    prior,
                    self.rooms,
                    i as int,
                    self.rooms.values()[i as int],
                );
            }
            i += 1;
        }
        proof {
            let keys = before.rooms.keys();
            assert forall|id: Seq<char>| before.rooms@.contains_key(id) implies self.rooms@[id]@
                == before.rooms@[id]@.leave(client@) by {
                let j = keys.index_of(id);
                assert(self.rooms.values()[j]@ == before.rooms.values()[j]@.leave(client@));
            }
            assert(self@.rooms =~= before@.remove_client(client@).rooms);
        }
    }

    /// Records that a contributor to room `room_id` has supplied ciphertext.
    pub fn mark_encrypted(&mut self, room_id: &String)
        requires
            old(self).wf(),
        ensures
            final(self).wf(),
            final(self)@ == old(self)@.mark_encrypted(room_id@),
    {
        let ghost before = *self;
        match self.rooms.find(room_id) {
            Some(i) => {
                let room = self.rooms.value_at_mut(i);
                room.encrypted = true;
                proof {
                    crate::keyed::lemma_update_view(
                        before.rooms,
                        self.rooms,
                        i as int,
                        self.rooms.values()[i as int],
                    );
                }
            },
            None => {
                let mut room = Room::default();
                room.encrypted = true;
                self.rooms.insert(room_id.clone(), room);
            },
        }
        proof {
            assert(self@.rooms =~= before@.mark_encrypted(room_id@).rooms);
        }
    }

    /// Writes `document` to room `room_id` on behalf of a local client. The
    /// write always wins: the clock moves to `now` unless it is already
    /// later, the room takes the document at the clock's new time, and its
    /// flag is set if `encrypted` is or if it was set before. Returns the
    /// room's new state.
    pub fn apply_local_update(
        &mut self,
        room_id: &String,
        document: Vec<u8>,
        encrypted: bool,
        now: u64,
    ) -> (state: RoomState)
        requires
            old(self).wf(),
        ensures
            final(self).wf(),
            final(self)@ == old(self)@.apply_local(room_id@, document@, encrypted, now),
            state@ == final(self)@.rooms[room_id@].state(),
    {
        let at: u64 = if self.clock >= now {
            self.clock
        } else {
            now
        };
        self.clock = at;
        self.write(room_id, document, encrypted, at)
    }

    /// Merges a write that another node has made to room `room_id`. It is
    /// taken if the store has not seen the room, or if `timestamp` is later
    /// than the room's last write; then the room takes the incoming document
    /// at `timestamp`, and its flag is set if the incoming one is or if it
    /// was set before. Otherwise nothing changes. Returns whether the write
    /// was taken.
    pub fn apply_remote_update(
        &mut self,
        room_id: &String,
        incoming: &RoomState,
        timestamp: u64,
    ) -> (accepted: bool)
        requires
            old(self).wf(),
        ensures
            final(self).wf(),
            accepted == old(self)@.accepts_remote(room_id@, timestamp),
            final(self)@ == old(self)@.apply_remote(
                room_id@,
                incoming.document_state@,
                incoming.encrypted,
                timestamp,
            ),
    {
        let wins = match self.rooms.get(room_id) {
            Some(room) => timestamp > room.last_updated,
            None => true,
        };
        if wins {
            if timestamp > self.clock {
                self.clock = timestamp;
            }
            self.write(room_id, copy_bytes(&incoming.document_state), incoming.encrypted, timestamp);
        }
        wins
    }

    /// Stores a write at time `at`, which the clock has reached.
    fn write(&mut self, room_id: &String, document: Vec<u8>, encrypted: bool, at: u64) -> (state:
        RoomState)
        requires
            old(self).wf(),
            at <= old(self).clock,
        ensures
            final(self).wf(),
            final(self)@ == old(self)@.put(
                room_id@,
                old(self)@.room(room_id@).written(document@, encrypted, at),
            ),
            state@ == final(self)@.rooms[room_id@].state(),
    {
        let ghost before = *self;
        let state = match self.rooms.find(room_id) {
            Some(i) => {
                let room = self.rooms.value_at_mut(i);
                room.document_state = document;
                room.encrypted = room.encrypted || encrypted;
                room.last_updated = at;
                let state = room.to_state();
                proof {
                    crate::keyed::lemma_update_view(
                        before.rooms,
                        self.rooms,
                        i as int,
                        self.rooms.values()[i as int],
                    );
                }
                state
            },
            None => {
                let room = Room {
                    members: StrSet::new(),
                    document_state: document,
                    encrypted,
                    last_updated: at,
                };
                let state = room.to_state();
                self.rooms.insert(room_id.clone(), room);
                state
            },
        };
        proof {
            assert(self@.rooms =~= before@.put(
                room_id@,
                before@.room(room_id@).written(document@, encrypted, at),
            ).rooms);
        }
        state
    }
}

} // verus!
