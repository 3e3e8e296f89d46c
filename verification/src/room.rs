//! One room: a named broadcast domain with its occupant set and history buffer.

use vstd::prelude::*;

use crate::user::User;

verus! {

/// A sequence of owned strings as a sequence of character sequences.
pub open spec fn strings_view(h: Seq<String>) -> Seq<Seq<char>> {
    h.map_values(|m: String| m@)
}

/// A room: its key (derived from its name), the users currently in it, and the
/// buffer of every message broadcast to it so far, oldest first.
pub struct Room {
    pub key: u64,
    pub occupants: Vec<User>,
    pub history: Vec<String>,
}

impl Room {
    /// The room's history as a sequence of character sequences, oldest first.
    pub open spec fn history_view(self) -> Seq<Seq<char>> {
        strings_view(self.history@)
    }

    /// Whether the user with identity `uid` occupies this room.
    pub open spec fn has_user(self, uid: u64) -> bool {
        exists|j: int| 0 <= j < self.occupants@.len() && self.occupants@[j].id == uid
    }

    /// The position of the occupant with identity `uid`.
    pub open spec fn user_idx(self, uid: u64) -> int {
        choose|j: int| 0 <= j < self.occupants@.len() && self.occupants@[j].id == uid
    }

    /// Occupant identities are unique and every occupant's `room` field agrees
    /// with this room's key.
    pub open spec fn wf(self) -> bool {
        &&& forall|i: int, j: int|
            0 <= i < j < self.occupants@.len() ==> self.occupants@[i].id != self.occupants@[j].id
        &&& forall|i: int|
            0 <= i < self.occupants@.len() ==> (#[trigger] self.occupants@[i]).room == self.key
    }

    /// In a well-formed room the position of an occupant is the unique one
    /// holding its identity.
    pub proof fn lemma_user_idx_unique(self, uid: u64, j: int)
        requires
            self.wf(),
            0 <= j < self.occupants@.len(),
            self.occupants@[j].id == uid,
        ensures
            self.has_user(uid),
            self.user_idx(uid) == j,
    {
        assert(self.has_user(uid));
        let c = self.user_idx(uid);
        if c != j {
            if c < j {
                assert(self.occupants@[c].id != self.occupants@[j].id);
            } else {
                assert(self.occupants@[j].id != self.occupants@[c].id);
            }
        }
    }

    /// Finds the position of the occupant with identity `uid`, if present.
    pub fn find_user(&self, uid: u64) -> (r: Option<usize>)
        ensures
            match r {
                Some(j) => j < self.occupants@.len() && self.occupants@[j as int].id == uid,
                None => !self.has_user(uid),
            },
            r is Some <==> self.has_user(uid),
    {
        let mut j: usize = 0;
        while j < self.occupants.len()
            invariant
                j <= self.occupants@.len(),
                forall|k: int| 0 <= k < j ==> (#[trigger] self.occupants@[k]).id != uid,
            decreases self.occupants@.len() - j,
        {
            if self.occupants[j].id == uid {
                return Some(j);
            }
            j = j + 1;
        }
        None
    }

    /// A fresh room: no occupants, no history.
    pub fn new(key: u64) -> (r: Room)
        ensures
            r.key == key,
            r.occupants@.len() == 0,
            r.history@.len() == 0,
            r.wf(),
    {
        Room { key, occupants: Vec::new(), history: Vec::new() }
    }

    /// Appends a message to the room's history buffer.
    pub fn new_message(&mut self, msg: String)
        ensures
            final(self).key == old(self).key,
            final(self).occupants == old(self).occupants,
            final(self).history@ == old(self).history@.push(msg),
    {
        self.history.push(msg);
    }

    /// Takes the oldest buffered message out of the history, if any.
    pub fn next_msg(&mut self) -> (r: Option<String>)
        ensures
            final(self).key == old(self).key,
            final(self).occupants == old(self).occupants,
            old(self).history@.len() == 0 ==> r is None && final(self).history
                == old(self).history,
            old(self).history@.len() > 0 ==> (r matches Some(m) && m == old(self).history@[0])
                && final(self).history@ == old(self).history@.drop_first(),
    {
        if self.history.len() == 0 {
            None
        } else {
            let m = self.history.remove(0);
            proof {
                assert(self.history@ =~= old(self).history@.drop_first());
            }
            Some(m)
        }
    }
}

} // verus!
