//! Room migration: moving a user between rooms and replaying history.

use vstd::prelude::*;
use vstd::string::StringExecFns;

use crate::registry::lemma_push_has_user;
use crate::registry::lemma_remove_has_user;
use crate::registry::RegistryError;
use crate::registry::RoomRegistry;
use crate::room::strings_view;
use crate::util::key_of;

verus! {

/// A room history joined into one replay: every buffered message in order,
/// each followed by a newline.
pub open spec fn joined(h: Seq<Seq<char>>) -> Seq<char>
    decreases h.len(),
{
    if h.len() == 0 {
        Seq::empty()
    } else {
        joined(h.drop_last()) + h.last() + seq!['\n']
    }
}

/// Joins a room's buffered history into one replay string.
pub fn prep_message_history(history: &Vec<String>) -> (r: String)
    ensures
        r@ == joined(strings_view(history@)),
{
    let mut s = String::new();
    let mut i: usize = 0;
    while i < history.len()
        invariant
            i <= history@.len(),
            s@ == joined(strings_view(history@.subrange(0, i as int))),
        decreases history@.len() - i,
    {
        s.append(history[i].as_str());
        s.append("\n");
        proof {
            reveal_strlit("\n");
            let prev = strings_view(history@.subrange(0, i as int));
            let cur = strings_view(history@.subrange(0, i + 1 as int));
            assert(cur.drop_last() =~= prev);
            assert(cur.last() == history@[i as int]@);
            assert(s@ =~= joined(cur));
        }
        i = i + 1;
    }
    proof {
        assert(history@.subrange(0, history@.len() as int) =~= history@);
    }
    s
}

/// What a completed migration leaves behind. The user's record leaves its old
/// room and stands, marked caught up and pointing at the destination key, at
/// the end of the destination room's occupants; every key and every history is
/// untouched, as is every other room; `h` is the destination room's replay,
/// delivered to the user's private inbox during the move.
pub open spec fn move_post(
    pre: RoomRegistry,
    post: RoomRegistry,
    uid: u64,
    dest: u64,
    h: Seq<char>,
) -> bool {
    let si = pre.user_room_idx(uid);
    let di = pre.room_idx(dest);
    let src = pre.rooms@[si];
    let moved = pre.spec_user(uid).moved_to(dest);
    &&& pre.has_user(uid)
    &&& pre.has_room_key(dest)
    &&& post.rooms@.len() == pre.rooms@.len()
    &&& forall|i: int|
        0 <= i < pre.rooms@.len() ==> (#[trigger] post.rooms@[i]).key == pre.rooms@[i].key
            && post.rooms@[i].history == pre.rooms@[i].history
    &&& forall|i: int|
        0 <= i < pre.rooms@.len() && i != si && i != di ==> post.rooms@[i] == pre.rooms@[i]
    &&& if si == di {
        post.rooms@[di].occupants@ == src.occupants@.remove(src.user_idx(uid)).push(moved)
    } else {
        post.rooms@[si].occupants@ == src.occupants@.remove(src.user_idx(uid))
            && post.rooms@[di].occupants@ == pre.rooms@[di].occupants@.push(moved)
    }
    &&& h == joined(strings_view(pre.rooms@[di].history@))
}

impl RoomRegistry {
    /// Moves the user with identity `uid` into the room with key `dest`:
    /// removes the user's record from whichever room holds it, inserts it into
    /// the destination with the `room` field set to `dest`, and returns the
    /// destination's joined history, to be delivered to the user's own private
    /// inbox; the user is marked caught up once that delivery is on its way. A
    /// user found in no room is a consistency violation: the registry is left
    /// unchanged and the operation reports `UserNotFound`.
    pub fn move_rooms(&mut self, uid: u64, dest: u64) -> (r: Result<String, RegistryError>)
        requires
            old(self).wf(),
            old(self).has_room_key(dest),
        ensures
            match r {
                Ok(h) => old(self).has_user(uid) && final(self).wf() && move_post(
                    *old(self),
                    *final(self),
                    uid,
                    dest,
                    h@,
                ),
                Err(e) => e == RegistryError::UserNotFound && !old(self).has_user(uid)
                    && *final(self) == *old(self),
            },
    {
        let d = match self.find_room(dest) {
            Some(d) => d,
            None => {
                // the destination exists by precondition
                proof {
                    assert(false);
                }
                return Err(RegistryError::UserNotFound);
            },
        };
        proof {
            self.lemma_room_idx_unique(dest, d as int);
        }
        let mut i: usize = 0;
        while i < self.rooms.len()
            invariant
                *self == *old(self),
                old(self).wf(),
                d < self.rooms@.len(),
                self.rooms@[d as int].key == dest,
                i <= self.rooms@.len(),
                forall|k: int| 0 <= k < i ==> !(#[trigger] self.rooms@[k]).has_user(uid),
            decreases self.rooms@.len() - i,
        {
            let found = self.rooms[i].find_user(uid);
            if let Some(j) = found {
                proof {
                    self.lemma_user_room_unique(uid, i as int);
                    self.rooms@[i as int].lemma_user_idx_unique(uid, j as int);
                }
                let mut src_room = self.rooms.remove(i);
                let mut u = src_room.occupants.remove(j);
                self.rooms.insert(i, src_room);
                let ghost mid_rooms = self.rooms@;
                proof {
                    assert(mid_rooms =~= old(self).rooms@.update(i as int, mid_rooms[i as int]));
                    assert(u == old(self).spec_user(uid));
                    lemma_remove_has_user(
                        old(self).rooms@[i as int],
                        j as int,
                        mid_rooms[i as int],
                    );
                }
                u.room = dest;
                u.up_to_date = false;
                let h = prep_message_history(&self.rooms[d].history);
                u.up_to_date = true;
                let ghost mu = u;
                proof {
                    assert(mu == old(self).spec_user(uid).moved_to(dest));
                }
                let mut dest_room = self.rooms.remove(d);
                dest_room.occupants.push(u);
                self.rooms.insert(d, dest_room);
                proof {
                    let si = i as int;
                    let di = d as int;
                    let pre = *old(self);
                    assert(self.rooms@ =~= mid_rooms.update(di, self.rooms@[di]));
                    assert(self.rooms@[di].occupants@ == mid_rooms[di].occupants@.push(mu));
                    lemma_push_has_user(mid_rooms[di], mu, self.rooms@[di]);
                    // Membership bookkeeping for every identity, per room.
                    assert(pre.rooms@[si].has_user(uid));
                    assert forall|a: int|
                        0 <= a < pre.rooms@.len() && a != si implies !(
                    #[trigger] pre.rooms@[a]).has_user(uid) by {
                        if pre.rooms@[a].has_user(uid) {
                            assert(!pre.rooms@[si].has_user(uid));
                        }
                    }
                    assert(forall|u2: u64| #[trigger]
                        mid_rooms[si].has_user(u2) <==> (pre.rooms@[si].has_user(u2) && u2
                            != uid));
                    if si != di {
                        assert(mid_rooms[di] == pre.rooms@[di]);
                    }
                    // Each room stays well formed.
                    assert forall|a: int| 0 <= a < self.rooms@.len() implies (
                    #[trigger] self.rooms@[a]).wf() by {
                        if a != si && a != di {
                            assert(self.rooms@[a] == pre.rooms@[a]);
                        } else if a != di {
                            // the source room, after the removal
                            assert(self.rooms@[a] == mid_rooms[si]);
                            assert(pre.rooms@[si].wf());
                            assert forall|x: int|
                                0 <= x < mid_rooms[si].occupants@.len() implies (
                            #[trigger] mid_rooms[si].occupants@[x]).room == mid_rooms[si].key by {
                                if x < j {
                                    assert(mid_rooms[si].occupants@[x]
                                        == pre.rooms@[si].occupants@[x]);
                                } else {
                                    assert(mid_rooms[si].occupants@[x] == pre.rooms@[si].occupants@[
                                        x + 1]);
                                }
                            }
                        } else {
                            // the destination room, after the insertion
                            let occs = self.rooms@[di].occupants@;
                            let base = mid_rooms[di].occupants@;
                            assert(!mid_rooms[di].has_user(uid));
                            assert forall|x: int, y: int|
                                0 <= x < y < occs.len() implies occs[x].id != occs[y].id by {
                                if y == occs.len() - 1 {
                                    assert(occs[x] == base[x]);
                                    assert(mid_rooms[di].wf() ==> true);
                                    if occs[x].id == uid {
                                        assert(mid_rooms[di].has_user(uid));
                                    }
                                } else {
                                    assert(occs[x] == base[x] && occs[y] == base[y]);
                                    if si == di {
                                        assert(mid_rooms[si].wf()) by {
                                            assert forall|z: int|
                                                0 <= z < base.len() implies (
                                            #[trigger] base[z]).room == mid_rooms[si].key by {
                                                if z < j {
                                                    assert(base[z] == pre.rooms@[si].occupants@[z]);
                                                } else {
                                                    assert(base[z] == pre.rooms@[si].occupants@[z
                                                        + 1]);
                                                }
                                            }
                                        }
                                    } else {
                                        assert(mid_rooms[di].wf());
                                    }
                                }
                            }
                            assert forall|x: int|
                                0 <= x < occs.len() implies (#[trigger] occs[x]).room
                                == self.rooms@[di].key by {
                                if x < occs.len() - 1 {
                                    assert(occs[x] == base[x]);
                                    if si == di {
                                        if x < j {
                                            assert(base[x] == pre.rooms@[si].occupants@[x]);
                                        } else {
                                            assert(base[x] == pre.rooms@[si].occupants@[x + 1]);
                                        }
                                    }
                                } else {
                                    assert(occs[x] == mu);
                                }
                            }
                        }
                    }
                    // A user still occupies at most one room.
                    assert forall|a: int, b: int, u2: u64|
                        0 <= a < self.rooms@.len() && 0 <= b < self.rooms@.len() && a != b && (
                        #[trigger] self.rooms@[a].has_user(u2)) implies !(
                    #[trigger] self.rooms@[b].has_user(u2)) by {
                        // what membership in each final room means in terms of pre
                        if u2 == uid {
                            if a == di {
                                if b == si && b != di {
                                    assert(!mid_rooms[si].has_user(uid));
                                } else if b != si {
                                    assert(self.rooms@[b] == pre.rooms@[b]);
                                }
                            } else {
                                // uid occupies only the destination afterwards
                                if a == si {
                                    assert(!mid_rooms[si].has_user(uid));
                                    assert(!self.rooms@[a].has_user(uid));
                                } else {
                                    assert(self.rooms@[a] == pre.rooms@[a]);
                                    assert(!pre.rooms@[a].has_user(uid));
                                }
                            }
                        } else {
                            // all other identities kept their room
                            assert(pre.rooms@[a].has_user(u2)) by {
                                if a == di {
                                    assert(mid_rooms[di].has_user(u2));
                                    if si == di {
                                        assert(pre.rooms@[si].has_user(u2));
                                    }
                                } else if a == si {
                                    assert(mid_rooms[si].has_user(u2));
                                } else {
                                    assert(self.rooms@[a] == pre.rooms@[a]);
                                }
                            }
                            assert(!pre.rooms@[b].has_user(u2));
                            if b == di {
                                assert(!mid_rooms[di].has_user(u2)) by {
                                    if si == di {
                                        assert(!pre.rooms@[si].has_user(u2) || a == si);
                                    }
                                }
                            } else if b == si {
                                assert(!mid_rooms[si].has_user(u2));
                                assert(self.rooms@[b] == mid_rooms[si]);
                            } else {
                                assert(self.rooms@[b] == pre.rooms@[b]);
                            }
                        }
                    }
                }
                return Ok(h);
            }
            i = i + 1;
        }
        Err(RegistryError::UserNotFound)
    }

    /// Interprets one message of the room-migration channel: derives the
    /// destination key from the room name, creates the room if it does not
    /// exist yet, and moves the user there. The returned string is the
    /// destination's joined history, the catch-up payload for the user's own
    /// private inbox.
    pub fn room_change(&mut self, uid: u64, name: String) -> (r: Result<String, RegistryError>)
        requires
            old(self).wf(),
        ensures
            final(self).wf(),
            final(self).has_room_key(key_of(name@)),
            match r {
                Ok(h) => old(self).has_user(uid) && exists|mid: RoomRegistry|
                    crate::registry::create_post(*old(self), mid, key_of(name@), mid.room_idx(
                        key_of(name@),
                    )) && #[trigger] move_post(mid, *final(self), uid, key_of(name@), h@),
                Err(e) => e == RegistryError::UserNotFound && !old(self).has_user(uid),
            },
    {
        let key = crate::util::hash(name);
        let i = self.get_or_create(key);
        proof {
            self.lemma_room_idx_unique(key, i as int);
        }
        let ghost mid = *self;
        let r = self.move_rooms(uid, key);
        proof {
            if r is Ok {
                let h = r->Ok_0;
                assert(crate::registry::create_post(*old(self), mid, key, mid.room_idx(key)));
                assert(move_post(mid, *self, uid, key, h@));
                assert(old(self).has_user(uid)) by {
                    let k = mid.user_room_idx(uid);
                    assert(mid.rooms@[k].has_user(uid));
                    if !old(self).has_room_key(key) {
                        assert(k < old(self).rooms@.len());
                        assert(mid.rooms@[k] == old(self).rooms@[k]);
                    }
                }
            } else {
                assert(!mid.has_user(uid));
                assert forall|k: int|
                    0 <= k < old(self).rooms@.len() implies !(
                #[trigger] old(self).rooms@[k]).has_user(uid) by {
                    if old(self).has_room_key(key) {
                        assert(mid == *old(self));
                    } else {
                        assert(mid.rooms@[k] == old(self).rooms@[k]);
                        assert(!mid.rooms@[k].has_user(uid));
                    }
                }
            }
        }
        r
    }
}

} // verus!
