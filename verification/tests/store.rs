use room_relay::room::{Room, RoomState, RoomStore};

fn s(text: &str) -> String {
    text.to_string()
}

fn incoming(document: Vec<u8>, encrypted: bool) -> RoomState {
    RoomState { document_state: document, encrypted, last_updated: 0, peer_count: 0 }
}

#[test]
fn new_store_has_no_rooms() {
    let store = RoomStore::new();
    assert!(store.list_rooms().is_empty());
    assert_eq!(store.get_snapshot(&s("doc1")), None);
    assert_eq!(store.clock(), 0);
    assert!(store.members_of(&s("doc1")).is_empty());
}

#[test]
fn default_room_is_empty() {
    let room = Room::default();
    assert_eq!(
        room.to_state(),
        RoomState { document_state: vec![], encrypted: false, last_updated: 0, peer_count: 0 }
    );
}

#[test]
fn to_state_counts_members() {
    let mut room = Room::default();
    room.members.insert(s("a"));
    room.members.insert(s("b"));
    room.members.insert(s("a"));
    room.document_state = vec![9, 8];
    room.encrypted = true;
    room.last_updated = 42;
    assert_eq!(
        room.to_state(),
        RoomState { document_state: vec![9, 8], encrypted: true, last_updated: 42, peer_count: 2 }
    );
}

#[test]
fn add_member_creates_room_and_is_a_set() {
    let mut store = RoomStore::new();
    store.add_member(&s("doc1"), &s("a"));
    store.add_member(&s("doc1"), &s("b"));
    store.add_member(&s("doc1"), &s("a"));
    assert_eq!(store.members_of(&s("doc1")), vec![s("a"), s("b")]);
    assert_eq!(store.get_snapshot(&s("doc1")).unwrap().peer_count, 2);
}

#[test]
fn remove_member_keeps_room_and_document() {
    let mut store = RoomStore::new();
    store.add_member(&s("doc1"), &s("a"));
    store.apply_local_update(&s("doc1"), vec![1, 2, 3], false, 10);
    store.remove_member(&s("doc1"), &s("a"));
    assert_eq!(
        store.get_snapshot(&s("doc1")),
        Some(RoomState {
            document_state: vec![1, 2, 3],
            encrypted: false,
            last_updated: 10,
            peer_count: 0
        })
    );
    assert!(store.members_of(&s("doc1")).is_empty());
}

#[test]
fn remove_member_of_unseen_room_changes_nothing() {
    let mut store = RoomStore::new();
    store.remove_member(&s("ghost"), &s("a"));
    assert!(store.list_rooms().is_empty());
    assert_eq!(store.get_snapshot(&s("ghost")), None);
}

#[test]
fn remove_member_twice_is_harmless() {
    let mut store = RoomStore::new();
    store.add_member(&s("doc1"), &s("a"));
    store.add_member(&s("doc1"), &s("b"));
    store.remove_member(&s("doc1"), &s("a"));
    store.remove_member(&s("doc1"), &s("a"));
    assert_eq!(store.members_of(&s("doc1")), vec![s("b")]);
}

#[test]
fn remove_client_leaves_every_room() {
    let mut store = RoomStore::new();
    store.add_member(&s("doc1"), &s("a"));
    store.add_member(&s("doc1"), &s("b"));
    store.add_member(&s("doc2"), &s("a"));
    store.add_member(&s("doc3"), &s("c"));
    store.remove_client(&s("a"));
    assert_eq!(store.members_of(&s("doc1")), vec![s("b")]);
    assert!(store.members_of(&s("doc2")).is_empty());
    assert_eq!(store.members_of(&s("doc3")), vec![s("c")]);
    assert_eq!(store.list_rooms().len(), 3);
}

#[test]
fn membership_follows_joins_and_leaves() {
    let mut store = RoomStore::new();
    let room = s("doc1");
    store.add_member(&room, &s("a"));
    store.add_member(&room, &s("b"));
    store.add_member(&room, &s("c"));
    store.remove_member(&room, &s("b"));
    store.add_member(&room, &s("a"));
    store.remove_client(&s("c"));
    store.add_member(&room, &s("b"));
    store.add_member(&room, &s("d"));
    store.remove_member(&room, &s("zz"));
    let mut members = store.members_of(&room);
    members.sort();
    assert_eq!(members, vec![s("a"), s("b"), s("d")]);
    assert_eq!(store.get_snapshot(&room).unwrap().peer_count, 3);
}

#[test]
fn local_update_sets_document_flag_and_time() {
    let mut store = RoomStore::new();
    let state = store.apply_local_update(&s("doc1"), vec![1, 2, 3], false, 100);
    assert_eq!(
        state,
        RoomState {
            document_state: vec![1, 2, 3],
            encrypted: false,
            last_updated: 100,
            peer_count: 0
        }
    );
    assert_eq!(store.get_snapshot(&s("doc1")), Some(state));
    assert_eq!(store.clock(), 100);
}

#[test]
fn local_update_keeps_members_and_ors_the_flag() {
    let mut store = RoomStore::new();
    store.add_member(&s("doc1"), &s("a"));
    let first = store.apply_local_update(&s("doc1"), vec![1], true, 5);
    assert!(first.encrypted);
    assert_eq!(first.peer_count, 1);
    let second = store.apply_local_update(&s("doc1"), vec![2], false, 6);
    assert_eq!(
        second,
        RoomState { document_state: vec![2], encrypted: true, last_updated: 6, peer_count: 1 }
    );
}

#[test]
fn local_update_never_goes_back_in_time() {
    let mut store = RoomStore::new();
    assert!(store.apply_remote_update(&s("doc1"), &incoming(vec![7], false), 500));
    let state = store.apply_local_update(&s("doc1"), vec![8], false, 20);
    assert_eq!(state.last_updated, 500);
    assert_eq!(state.document_state, vec![8]);
    assert_eq!(store.clock(), 500);
    let other = store.apply_local_update(&s("doc2"), vec![9], false, 20);
    assert_eq!(other.last_updated, 500);
}

#[test]
fn remote_update_to_unseen_room_is_accepted() {
    let mut store = RoomStore::new();
    assert!(store.apply_remote_update(&s("doc1"), &incoming(vec![4, 5], true), 0));
    assert_eq!(
        store.get_snapshot(&s("doc1")),
        Some(RoomState {
            document_state: vec![4, 5],
            encrypted: true,
            last_updated: 0,
            peer_count: 0
        })
    );
}

#[test]
fn remote_update_with_later_time_wins() {
    let mut store = RoomStore::new();
    store.add_member(&s("doc1"), &s("a"));
    store.apply_local_update(&s("doc1"), vec![1], false, 10);
    assert!(store.apply_remote_update(&s("doc1"), &incoming(vec![2], false), 11));
    assert_eq!(
        store.get_snapshot(&s("doc1")),
        Some(RoomState {
            document_state: vec![2],
            encrypted: false,
            last_updated: 11,
            peer_count: 1
        })
    );
    assert_eq!(store.clock(), 11);
    assert_eq!(store.members_of(&s("doc1")), vec![s("a")]);
}

#[test]
fn remote_update_with_equal_or_earlier_time_is_a_no_op() {
    let mut store = RoomStore::new();
    store.apply_local_update(&s("doc1"), vec![1], true, 10);
    let before = store.get_snapshot(&s("doc1"));
    assert!(!store.apply_remote_update(&s("doc1"), &incoming(vec![2], false), 10));
    assert_eq!(store.get_snapshot(&s("doc1")), before);
    assert!(!store.apply_remote_update(&s("doc1"), &incoming(vec![3], false), 9));
    assert_eq!(store.get_snapshot(&s("doc1")), before);
    assert!(!store.apply_remote_update(&s("doc1"), &incoming(vec![3], false), 0));
    assert_eq!(store.get_snapshot(&s("doc1")), before);
    assert_eq!(store.clock(), 10);
}

#[test]
fn remote_update_never_clears_the_flag() {
    let mut store = RoomStore::new();
    store.mark_encrypted(&s("doc1"));
    assert!(store.apply_remote_update(&s("doc1"), &incoming(vec![2], false), 3));
    assert!(store.get_snapshot(&s("doc1")).unwrap().encrypted);
}

#[test]
fn last_updated_is_monotonic_over_mixed_writes() {
    let mut store = RoomStore::new();
    let room = s("doc1");
    let mut last = 0;
    let times: Vec<(bool, u64)> =
        vec![(true, 5), (false, 3), (false, 9), (true, 2), (false, 9), (true, 30), (false, 12)];
    for (local, time) in times {
        if local {
            store.apply_local_update(&room, vec![1], false, time);
        } else {
            store.apply_remote_update(&room, &incoming(vec![2], false), time);
        }
        let now = store.get_snapshot(&room).unwrap().last_updated;
        assert!(now >= last);
        last = now;
    }
    assert_eq!(last, 30);
}

#[test]
fn mark_encrypted_creates_or_flags() {
    let mut store = RoomStore::new();
    store.mark_encrypted(&s("doc1"));
    assert_eq!(
        store.get_snapshot(&s("doc1")),
        Some(RoomState { document_state: vec![], encrypted: true, last_updated: 0, peer_count: 0 })
    );
}

#[test]
fn list_rooms_is_in_order_of_first_sight() {
    let mut store = RoomStore::new();
    store.add_member(&s("b-room"), &s("x"));
    store.apply_remote_update(&s("a-room"), &incoming(vec![1], true), 4);
    store.add_member(&s("b-room"), &s("y"));
    store.add_member(&s("c-room"), &s("x"));
    store.remove_member(&s("c-room"), &s("x"));
    let rooms = store.list_rooms();
    assert_eq!(rooms.len(), 3);
    assert_eq!(rooms[0].room_id, "b-room");
    assert_eq!(rooms[0].peer_count, 2);
    assert!(!rooms[0].encrypted);
    assert_eq!(rooms[1].room_id, "a-room");
    assert_eq!(rooms[1].peer_count, 0);
    assert!(rooms[1].encrypted);
    assert_eq!(rooms[2].room_id, "c-room");
    assert_eq!(rooms[2].peer_count, 0);
}

#[test]
fn room_names_are_case_sensitive() {
    let mut store = RoomStore::new();
    store.add_member(&s("Doc"), &s("a"));
    store.add_member(&s("doc"), &s("b"));
    assert_eq!(store.list_rooms().len(), 2);
    assert_eq!(store.members_of(&s("Doc")), vec![s("a")]);
    assert_eq!(store.members_of(&s("doc")), vec![s("b")]);
}
