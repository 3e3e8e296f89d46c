//! The ingress router's decision: classify one inbound transport frame.

use vstd::prelude::*;
use vstd::string::StrSliceExecFns;

verus! {

/// One inbound transport frame, as the transport hands it to the core: a text
/// payload, a binary payload, the stream-closed signal, or some other control
/// frame the transport already dealt with.
pub enum Frame {
    Text(String),
    Binary(Vec<u8>),
    Close,
    Control,
}

/// Where the ingress router sends one frame: to the command channel, to the
/// broadcast channel, into the disconnect path, or nowhere.
#[derive(Clone, Copy, Debug, PartialEq, Eq, Structural)]
pub enum Route {
    Command,
    Broadcast,
    Disconnect,
    Ignore,
}

/// The routing rule: stream closure disconnects; a text or binary payload
/// whose leading character is the sentinel `/` is a command, any other payload
/// is a chat broadcast (an empty payload has no sentinel, so it is broadcast);
/// other control frames are ignored.
pub open spec fn route_spec(f: Frame) -> Route {
    match f {
        Frame::Close => Route::Disconnect,
        Frame::Text(s) => if s@.len() > 0 && s@[0] == '/' {
            Route::Command
        } else {
            Route::Broadcast
        },
        // 47 is the sentinel '/' as a UTF-8 byte
        Frame::Binary(b) => if b@.len() > 0 && b@[0] == 47 {
            Route::Command
        } else {
            Route::Broadcast
        },
        Frame::Control => Route::Ignore,
    }
}

/// Classifies one inbound frame for the ingress router.
pub fn route_frame(f: &Frame) -> (r: Route)
    ensures
        r == route_spec(*f),
{
    match f {
        Frame::Close => Route::Disconnect,
        Frame::Text(s) => {
            if s.as_str().unicode_len() > 0 && s.as_str().get_char(0) == '/' {
                Route::Command
            } else {
                Route::Broadcast
            }
        },
        Frame::Binary(b) => {
            if b.len() > 0 && b[0] == 47 {
                Route::Command
            } else {
                Route::Broadcast
            }
        },
        Frame::Control => Route::Ignore,
    }
}

} // verus!
