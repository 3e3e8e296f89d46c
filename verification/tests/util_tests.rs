use marain_chat_server::util::hash;
use marain_chat_server::util::rgb_string;
use marain_chat_server::util::u64_to_string;

#[test]
fn hash_is_deterministic() {
    let a = hash(String::from("lobby"));
    let b = hash(String::from("lobby"));
    assert_eq!(a, b);
}

#[test]
fn hash_same_name_same_key_across_users() {
    // two different connections deriving a key from the same name agree
    let first = hash(String::from("samename"));
    let second = hash(String::from("samename"));
    assert_eq!(first, second);
}

#[test]
fn hash_distinguishes_hub_from_lobby() {
    assert_ne!(hash(String::from("hub")), hash(String::from("lobby")));
}

#[test]
fn u64_to_string_zero() {
    assert_eq!(u64_to_string(0), "0");
}

#[test]
fn u64_to_string_digits() {
    assert_eq!(u64_to_string(7), "7");
    assert_eq!(u64_to_string(10), "10");
    assert_eq!(u64_to_string(1234567890), "1234567890");
    assert_eq!(u64_to_string(u64::MAX), "18446744073709551615");
}

#[test]
fn rgb_string_exact() {
    assert_eq!(rgb_string(255, 0, 16), "\x1b[38;2;255;0;16m");
}

#[test]
fn rgb_string_single_digits() {
    assert_eq!(rgb_string(1, 2, 3), "\x1b[38;2;1;2;3m");
}
