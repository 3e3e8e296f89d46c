use marain_chat_server::commands::parse_command;
use marain_chat_server::registry::RoomRegistry;
use marain_chat_server::rooms::prep_message_history;
use marain_chat_server::user::User;
use marain_chat_server::util::hash;

fn hub_key() -> u64 {
    hash(String::from("hub"))
}

fn join(reg: &mut RoomRegistry, id: u64) {
    let hub = hub_key();
    reg.register_user(User::new(format!("127.0.0.1:{}", 40000 + id), hub, id, false), hub)
        .unwrap();
}

#[test]
fn hello_reaches_the_fresh_peer_and_not_the_sender() {
    // A connects and lands in hub; B connects and lands in hub; A sends
    // "hello"; B, being fresh, receives the history containing just "hello";
    // A does not receive it back.
    let mut reg = RoomRegistry::new();
    join(&mut reg, 0);
    join(&mut reg, 1);
    let dels = reg.broadcast_message(0, String::from("hello")).unwrap();
    assert_eq!(dels.len(), 1);
    assert_eq!(dels[0].to, 1);
    assert_eq!(dels[0].payload, "hello\n");
    let hub = reg.get(hub_key()).unwrap();
    assert_eq!(hub.history.len(), 1);
    assert_eq!(hub.history[0], "hello");
}

#[test]
fn caught_up_peer_receives_only_the_new_message() {
    // after the catch-up replay, every subsequent broadcast delivers only the
    // new message
    let mut reg = RoomRegistry::new();
    join(&mut reg, 0);
    join(&mut reg, 1);
    let first = reg.broadcast_message(0, String::from("hello")).unwrap();
    assert_eq!(first[0].payload, "hello\n");
    let second = reg.broadcast_message(0, String::from("again")).unwrap();
    assert_eq!(second.len(), 1);
    assert_eq!(second[0].to, 1);
    assert_eq!(second[0].payload, "again");
}

#[test]
fn chat_does_not_cross_room_boundaries() {
    // a chat payload sent in one room is never delivered to a user in another
    let mut reg = RoomRegistry::new();
    join(&mut reg, 0);
    join(&mut reg, 1);
    let other = hash(String::from("elsewhere"));
    reg.get_or_create(other);
    reg.register_user(User::new(String::from("127.0.0.1:40002"), other, 2, false), other)
        .unwrap();
    let dels = reg.broadcast_message(0, String::from("private to hub")).unwrap();
    assert!(dels.iter().all(|d| d.to != 2));
    assert!(dels.iter().all(|d| d.to != 0));
    assert_eq!(dels.len(), 1);
    assert_eq!(dels[0].to, 1);
}

#[test]
fn mv_moves_a_into_lobby_with_empty_catch_up() {
    // A issues "/mv lobby": removed from hub's occupants, added to lobby's,
    // and receives lobby's (empty) history on the catch-up inbox
    let mut reg = RoomRegistry::new();
    join(&mut reg, 0);
    join(&mut reg, 1);
    let o = parse_command(&reg, 0, "/mv lobby").unwrap();
    let name = o.move_to.unwrap();
    let replay = reg.room_change(0, name).unwrap();
    assert_eq!(replay, "");
    let lobby = hash(String::from("lobby"));
    assert!(reg.contains_room(lobby));
    let hub_room = reg.get(hub_key()).unwrap();
    assert!(hub_room.occupants.iter().all(|u| u.id != 0));
    let lobby_room = reg.get(lobby).unwrap();
    assert_eq!(lobby_room.occupants.len(), 1);
    assert_eq!(lobby_room.occupants[0].id, 0);
    assert_eq!(lobby_room.occupants[0].room, lobby);
    assert!(lobby_room.occupants[0].up_to_date);
}

#[test]
fn mv_catch_up_replays_the_whole_history() {
    // a user who moves into a room with history receives it joined, in order
    let mut reg = RoomRegistry::new();
    join(&mut reg, 0);
    join(&mut reg, 1);
    reg.broadcast_message(0, String::from("one")).unwrap();
    reg.broadcast_message(1, String::from("two")).unwrap();
    let away = reg.room_change(0, String::from("lounge")).unwrap();
    assert_eq!(away, "");
    let back = reg.room_change(0, String::from("hub")).unwrap();
    assert_eq!(back, "one\ntwo\n");
}

#[test]
fn migration_leaves_the_user_in_exactly_one_room() {
    // after "/mv target" the user appears in the target's occupant set and in
    // no other room's; its recorded room key equals the target's key
    let mut reg = RoomRegistry::new();
    join(&mut reg, 0);
    join(&mut reg, 1);
    reg.room_change(0, String::from("target")).unwrap();
    let target = hash(String::from("target"));
    let mut appearances = 0;
    for room in &reg.rooms {
        for u in &room.occupants {
            if u.id == 0 {
                appearances += 1;
                assert_eq!(room.key, target);
                assert_eq!(u.room, target);
            }
        }
    }
    assert_eq!(appearances, 1);
}

#[test]
fn same_name_creates_the_room_at_most_once() {
    // "/mv samename" from two different users resolves to the same key and
    // creates the room only the first time
    let mut reg = RoomRegistry::new();
    join(&mut reg, 0);
    join(&mut reg, 1);
    let rooms_before = reg.rooms.len();
    reg.room_change(0, String::from("samename")).unwrap();
    assert_eq!(reg.rooms.len(), rooms_before + 1);
    reg.room_change(1, String::from("samename")).unwrap();
    assert_eq!(reg.rooms.len(), rooms_before + 1);
    let key = hash(String::from("samename"));
    let room = reg.get(key).unwrap();
    assert_eq!(room.occupants.len(), 2);
}

#[test]
fn history_append_order_is_send_order() {
    // m1 sent before m2 precedes it in the history buffer and in any replay
    let mut reg = RoomRegistry::new();
    join(&mut reg, 0);
    join(&mut reg, 1);
    reg.broadcast_message(0, String::from("m1")).unwrap();
    reg.broadcast_message(1, String::from("m2")).unwrap();
    let hub = reg.get(hub_key()).unwrap();
    assert_eq!(hub.history[0], "m1");
    assert_eq!(hub.history[1], "m2");
    assert_eq!(prep_message_history(&hub.history), "m1\nm2\n");
}

#[test]
fn time_touches_no_other_user() {
    // "/time" produces a reply for the sender's own inbox and nothing else:
    // no migration, no diagnostic, and the registry is left as it was
    let mut reg = RoomRegistry::new();
    join(&mut reg, 0);
    join(&mut reg, 1);
    let o = parse_command(&reg, 0, "/time").unwrap();
    assert!(o.reply.is_some());
    assert!(o.move_to.is_none());
    assert!(o.diagnostic.is_none());
    let hub = reg.get(hub_key()).unwrap();
    assert_eq!(hub.occupants.len(), 2);
    assert!(hub.history.is_empty());
}

#[test]
fn empty_broadcast_still_counts_as_history() {
    // an empty chat payload is routed as a broadcast and buffered like any
    // other message
    let mut reg = RoomRegistry::new();
    join(&mut reg, 0);
    join(&mut reg, 1);
    let dels = reg.broadcast_message(0, String::new()).unwrap();
    assert_eq!(dels.len(), 1);
    assert_eq!(dels[0].payload, "\n");
    let hub = reg.get(hub_key()).unwrap();
    assert_eq!(hub.history.len(), 1);
    assert_eq!(hub.history[0], "");
}
