use marain_chat_server::registry::RegistryError;
use marain_chat_server::registry::RoomRegistry;
use marain_chat_server::room::Room;
use marain_chat_server::user::User;
use marain_chat_server::util::hash;

fn hub_key() -> u64 {
    hash(String::from("hub"))
}

fn fresh_user(id: u64, room: u64) -> User {
    User::new(format!("127.0.0.1:{}", 40000 + id), room, id, false)
}

#[test]
fn new_registry_holds_only_the_hub() {
    let reg = RoomRegistry::new();
    assert!(reg.contains_room(hub_key()));
    assert_eq!(reg.rooms.len(), 1);
    assert!(reg.rooms[0].occupants.is_empty());
    assert!(reg.rooms[0].history.is_empty());
}

#[test]
fn get_missing_room_is_room_not_found() {
    let reg = RoomRegistry::new();
    let missing = hash(String::from("nowhere"));
    match reg.get(missing) {
        Err(e) => assert_eq!(e, RegistryError::RoomNotFound),
        Ok(_) => panic!("a room that was never created was found"),
    }
}

#[test]
fn get_or_create_creates_once() {
    let mut reg = RoomRegistry::new();
    let key = hash(String::from("lobby"));
    assert!(!reg.contains_room(key));
    let i1 = reg.get_or_create(key);
    assert!(reg.contains_room(key));
    assert_eq!(reg.rooms.len(), 2);
    let i2 = reg.get_or_create(key);
    assert_eq!(i1, i2);
    assert_eq!(reg.rooms.len(), 2);
}

#[test]
fn register_user_places_user_in_hub() {
    let mut reg = RoomRegistry::new();
    let hub = hub_key();
    assert!(!reg.contains_user(0));
    reg.register_user(fresh_user(0, hub), hub).unwrap();
    assert!(reg.contains_user(0));
    let room = reg.get(hub).unwrap();
    assert_eq!(room.occupants.len(), 1);
    assert_eq!(room.occupants[0].id, 0);
    assert_eq!(room.occupants[0].room, hub);
    assert!(!room.occupants[0].up_to_date);
}

#[test]
fn register_user_into_missing_room_fails() {
    let mut reg = RoomRegistry::new();
    let missing = hash(String::from("void"));
    let r = reg.register_user(fresh_user(0, missing), missing);
    assert_eq!(r, Err(RegistryError::RoomNotFound));
    assert!(!reg.contains_user(0));
}

#[test]
fn remove_user_clears_membership() {
    let mut reg = RoomRegistry::new();
    let hub = hub_key();
    reg.register_user(fresh_user(0, hub), hub).unwrap();
    reg.register_user(fresh_user(1, hub), hub).unwrap();
    reg.remove_user(0).unwrap();
    assert!(!reg.contains_user(0));
    assert!(reg.contains_user(1));
    assert_eq!(reg.get(hub).unwrap().occupants.len(), 1);
}

#[test]
fn remove_unknown_user_is_user_not_found() {
    let mut reg = RoomRegistry::new();
    assert_eq!(reg.remove_user(7), Err(RegistryError::UserNotFound));
}

#[test]
fn broadcast_from_unknown_sender_is_rejected() {
    let mut reg = RoomRegistry::new();
    let before = reg.rooms.len();
    assert!(matches!(
        reg.broadcast_message(5, String::from("x")),
        Err(RegistryError::UserNotFound)
    ));
    assert_eq!(reg.rooms.len(), before);
    assert!(reg.get(hub_key()).unwrap().history.is_empty());
}

#[test]
fn moving_an_unknown_user_is_rejected() {
    let mut reg = RoomRegistry::new();
    assert_eq!(
        reg.room_change(5, String::from("lobby")),
        Err(RegistryError::UserNotFound)
    );
    // the destination room is still created before the absence is noticed
    assert!(reg.contains_room(hash(String::from("lobby"))));
}

#[test]
fn room_buffers_messages_in_order() {
    let mut room = Room::new(42);
    room.new_message(String::from("first"));
    room.new_message(String::from("second"));
    assert_eq!(room.history.len(), 2);
    assert_eq!(room.history[0], "first");
    assert_eq!(room.history[1], "second");
    assert_eq!(room.next_msg(), Some(String::from("first")));
    assert_eq!(room.next_msg(), Some(String::from("second")));
    assert_eq!(room.next_msg(), None);
}

#[test]
fn user_keeps_its_label() {
    let u = User::new(String::from("10.0.0.1:9999"), 3, 5, true);
    assert_eq!(u.get_addr(), "10.0.0.1:9999");
    assert_eq!(u.room, 3);
    assert_eq!(u.id, 5);
    assert!(u.up_to_date);
}
