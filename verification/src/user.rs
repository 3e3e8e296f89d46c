//! One connected user.

use vstd::prelude::*;

verus! {

/// One user per connection: a unique numeric identity, the key of the room the
/// user currently occupies, a flag saying whether the user has received the
/// current room's live stream since last joining, and a display label (the
/// peer's address in textual form).
pub struct User {
    pub addr: String,
    pub room: u64,
    pub id: u64,
    pub up_to_date: bool,
}

impl User {
    /// The same user after relocating to the room `room`, marked as caught up.
    pub open spec fn moved_to(self, room: u64) -> User {
        User { room, up_to_date: true, ..self }
    }

    pub fn new(addr: String, room: u64, id: u64, up_to_date: bool) -> (u: User)
        ensures
            u == (User { addr, room, id, up_to_date }),
    {
        User { addr, room, id, up_to_date }
    }

    pub fn get_addr(&self) -> (a: &str)
        ensures
            a@ == self.addr@,
    {
        self.addr.as_str()
    }
}

} // verus!
