use marain_chat_server::recv_routing::route_frame;
use marain_chat_server::recv_routing::Frame;
use marain_chat_server::recv_routing::Route;

#[test]
fn close_frame_disconnects() {
    assert_eq!(route_frame(&Frame::Close), Route::Disconnect);
}

#[test]
fn sentinel_text_is_command() {
    assert_eq!(route_frame(&Frame::Text(String::from("/time"))), Route::Command);
    assert_eq!(route_frame(&Frame::Text(String::from("/mv lobby"))), Route::Command);
}

#[test]
fn plain_text_is_broadcast() {
    assert_eq!(route_frame(&Frame::Text(String::from("hello"))), Route::Broadcast);
    assert_eq!(route_frame(&Frame::Text(String::from("a/b"))), Route::Broadcast);
}

#[test]
fn empty_text_is_broadcast() {
    // an empty payload has no sentinel, so it must not be treated as a command
    assert_eq!(route_frame(&Frame::Text(String::new())), Route::Broadcast);
}

#[test]
fn sentinel_binary_is_command() {
    assert_eq!(route_frame(&Frame::Binary(b"/who".to_vec())), Route::Command);
}

#[test]
fn plain_binary_is_broadcast() {
    assert_eq!(route_frame(&Frame::Binary(b"hi there".to_vec())), Route::Broadcast);
    assert_eq!(route_frame(&Frame::Binary(Vec::new())), Route::Broadcast);
}

#[test]
fn control_frame_is_ignored() {
    assert_eq!(route_frame(&Frame::Control), Route::Ignore);
}
