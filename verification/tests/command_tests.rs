use chrono::NaiveDateTime;
use marain_chat_server::command_bus::Command;
use marain_chat_server::command_bus::CommandKind;
use marain_chat_server::commands::determine_response;
use marain_chat_server::commands::parse_command;
use marain_chat_server::registry::RegistryError;
use marain_chat_server::registry::RoomRegistry;
use marain_chat_server::user::User;
use marain_chat_server::util::hash;
use marain_chat_server::util::u64_to_string;

fn hub_key() -> u64 {
    hash(String::from("hub"))
}

fn registry_with_two_users() -> RoomRegistry {
    let mut reg = RoomRegistry::new();
    let hub = hub_key();
    reg.register_user(User::new(String::from("127.0.0.1:40000"), hub, 0, false), hub).unwrap();
    reg.register_user(User::new(String::from("127.0.0.1:40001"), hub, 1, false), hub).unwrap();
    reg
}

#[test]
fn unknown_command_gets_a_notice() {
    let reg = registry_with_two_users();
    let o = parse_command(&reg, 0, "/frobnicate now").unwrap();
    assert_eq!(o.reply.as_deref(), Some("No such command"));
    assert!(o.move_to.is_none());
    assert!(o.diagnostic.is_none());
}

#[test]
fn mv_forwards_the_room_name() {
    let reg = registry_with_two_users();
    let o = parse_command(&reg, 0, "/mv lobby").unwrap();
    assert_eq!(o.move_to.as_deref(), Some("lobby"));
    assert!(o.reply.is_none());
    assert!(o.diagnostic.is_none());
}

#[test]
fn mv_takes_only_the_first_argument() {
    let reg = registry_with_two_users();
    let o = parse_command(&reg, 0, "/mv lounge of lizards").unwrap();
    assert_eq!(o.move_to.as_deref(), Some("lounge"));
}

#[test]
fn bare_mv_is_malformed() {
    let reg = registry_with_two_users();
    let o = parse_command(&reg, 0, "/mv").unwrap();
    assert_eq!(o.reply.as_deref(), Some("Missing argument"));
    assert!(o.move_to.is_none());
    assert!(o.diagnostic.is_none());
}

#[test]
fn time_replies_with_a_timestamp() {
    let reg = registry_with_two_users();
    let o = parse_command(&reg, 0, "/time").unwrap();
    let reply = o.reply.expect("a /time reply is owed to the sender");
    assert!(o.move_to.is_none());
    assert!(o.diagnostic.is_none());
    // the reply parses as a timestamp: "YYYY-MM-DD HH:MM:SS.fff... UTC"
    let stamp = reply.strip_suffix(" UTC").expect("a UTC timestamp");
    NaiveDateTime::parse_from_str(stamp, "%Y-%m-%d %H:%M:%S%.f")
        .expect("the /time reply must parse as a timestamp");
}

#[test]
fn who_lists_the_room_occupants() {
    let reg = registry_with_two_users();
    let o = parse_command(&reg, 0, "/who").unwrap();
    assert_eq!(o.diagnostic.as_deref(), Some("0\n1\n"));
    assert!(o.reply.is_none());
    assert!(o.move_to.is_none());
}

#[test]
fn crm_reports_the_room_key() {
    let reg = registry_with_two_users();
    let o = parse_command(&reg, 1, "/crm").unwrap();
    assert_eq!(o.diagnostic, Some(u64_to_string(hub_key())));
}

#[test]
fn command_from_unknown_sender_is_rejected() {
    let reg = registry_with_two_users();
    assert!(matches!(parse_command(&reg, 99, "/time"), Err(RegistryError::UserNotFound)));
}

#[test]
fn canned_responses() {
    assert_eq!(determine_response("lol"), "very funny\n");
    assert_eq!(determine_response("  lol \n"), "very funny\n");
    assert_eq!(determine_response("help"), "absolutely not");
    assert_eq!(determine_response("anything else"), "fine be like that\n");
    assert_eq!(determine_response("   "), "fine be like that\n");
}

#[test]
fn command_parse_quits_on_q() {
    assert_eq!(Command::parse(String::from("q")), Command::Quit);
    assert_eq!(Command::parse(String::from("hello")), Command::Greet(String::from("hello")));
}

#[test]
fn command_kinds() {
    assert_eq!(Command::Quit.get_kind(), CommandKind::Quit);
    assert_eq!(Command::Greet(String::from("hi")).get_kind(), CommandKind::Greet);
}
